use rc_renderer::renderer_v2::atmosphere::{
    initialization_steps, physical_environment_bytes, physical_texture_plans, physical_texture_usage, InitializationPass,
    PhysicalTextureFormat, TextureUsageFlags, V2EnvironmentMode, INITIALIZATION_PASSES,
    SPECULAR_MIP_COUNT,
};

#[test]
fn memory_report_counts_all_eight_mips_and_is_not_two_mib() {
    let bytes = physical_environment_bytes();
    let mib = bytes as f64 / (1024.0 * 1024.0);
    assert!(
        (2.6..2.75).contains(&mib),
        "expected the ~2.68 MiB plan, got {mib:.4} MiB"
    );
    assert!(mib > 2.5, "the plan must not be reported as ~2 MiB");
}

#[test]
fn memory_report_is_exact() {
    // 351230 texels of eight bytes each.
    assert_eq!(physical_environment_bytes(), 2_809_840);
}

#[test]
fn initialization_order_is_the_mandatory_generation_order() {
    assert_eq!(
        INITIALIZATION_PASSES,
        [
            InitializationPass::TransmittanceLut,
            InitializationPass::MultiScatteringLut,
            InitializationPass::SkyViewLut,
            InitializationPass::EnvironmentCube,
            InitializationPass::DiffuseIrradianceCube,
            InitializationPass::PrefilteredSpecularCube,
            InitializationPass::BrdfIntegrationLut,
        ]
    );
}

#[test]
fn mode_selection_requires_v2_policy_and_device_legal_support() {
    assert_eq!(
        V2EnvironmentMode::select(true, true),
        V2EnvironmentMode::Physical
    );
    assert_eq!(
        V2EnvironmentMode::select(true, false),
        V2EnvironmentMode::AnalyticalFallback
    );
    assert_eq!(
        V2EnvironmentMode::select(false, true),
        V2EnvironmentMode::AnalyticalFallback
    );
    assert_eq!(
        V2EnvironmentMode::select(false, false),
        V2EnvironmentMode::AnalyticalFallback
    );
}

#[test]
fn resource_plan_dimensions() {
    let plans = physical_texture_plans();
    assert_eq!(plans[0].width, 256);
    assert_eq!(plans[0].height, 64);
    assert_eq!(plans[1].width, 32);
    assert_eq!(plans[1].height, 32);
    assert_eq!(plans[2].width, 256);
    assert_eq!(plans[2].height, 128);
    assert_eq!((plans[3].width, plans[3].height), (128, 128));
    assert_eq!((plans[4].width, plans[4].height), (32, 32));
    assert_eq!((plans[5].width, plans[5].height), (128, 128));
    assert_eq!(plans[6].width, 256);
    assert_eq!(plans[6].height, 256);
}

#[test]
fn cube_faces_and_prefilter_mip_count_are_exact() {
    let plans = physical_texture_plans();
    assert_eq!(plans[3].depth_or_array_layers, 6);
    assert_eq!(plans[3].mip_level_count, 1);
    assert!(plans[3].cube);
    assert_eq!(plans[4].depth_or_array_layers, 6);
    assert!(plans[4].cube);
    assert_eq!(plans[5].depth_or_array_layers, 6);
    assert_eq!(plans[5].mip_level_count, 8);
    assert!(plans[5].cube);
    assert_eq!(128u32.trailing_zeros() + 1, SPECULAR_MIP_COUNT);
}

#[test]
fn resources_are_persistent_and_never_resize_dependent() {
    assert_eq!(physical_texture_plans(), physical_texture_plans());
    let plans = physical_texture_plans();
    assert!(!plans.iter().any(|plan| plan.mip_level_count == 0));
    assert!(plans.iter().all(|plan| plan.depth_or_array_layers >= 1));
    for plan in plans {
        assert_eq!(plan.cube, plan.depth_or_array_layers == 6, "{}", plan.label);
    }
}

#[test]
fn usages_are_exactly_render_attachment_and_texture_binding() {
    let expected = TextureUsageFlags {
        copy_src: false,
        copy_dst: false,
        texture_binding: true,
        storage_binding: false,
        render_attachment: true,
    };
    assert_eq!(physical_texture_usage(), expected);
    for plan in physical_texture_plans() {
        assert_eq!(plan.usage, expected, "{}", plan.label);
        assert!(!plan.usage.copy_dst, "{} must not carry COPY_DST", plan.label);
        assert!(!plan.usage.storage_binding, "{} must not be a storage texture", plan.label);
        assert_eq!(plan.format, PhysicalTextureFormat::Rgba16Float, "{}", plan.label);
    }
}

#[test]
fn initialization_records_every_face_and_mip_in_order() {
    let steps = initialization_steps();
    assert_eq!(steps.len(), 64);
    assert_eq!(steps[0].pass, InitializationPass::TransmittanceLut);
    assert_eq!(steps[1].pass, InitializationPass::MultiScatteringLut);
    assert_eq!(steps[2].pass, InitializationPass::SkyViewLut);
    for face in 0..6u32 {
        let environment = steps[3 + face as usize];
        assert_eq!((environment.pass, environment.mip, environment.face), (InitializationPass::EnvironmentCube, 0, face));
        let irradiance = steps[9 + face as usize];
        assert_eq!((irradiance.pass, irradiance.face), (InitializationPass::DiffuseIrradianceCube, face));
    }
    for mip in 0..SPECULAR_MIP_COUNT {
        for face in 0..6u32 {
            let step = steps[(15 + mip * 6 + face) as usize];
            assert_eq!(step.pass, InitializationPass::PrefilteredSpecularCube);
            assert_eq!((step.mip, step.face, step.view_index), (mip, face, mip * 6 + face));
        }
    }
    assert_eq!(steps[63].pass, InitializationPass::BrdfIntegrationLut);
    let mut order: Vec<InitializationPass> = steps.iter().map(|step| step.pass).collect();
    order.dedup();
    assert_eq!(order, INITIALIZATION_PASSES.to_vec());
    assert_eq!(InitializationPass::PrefilteredSpecularCube.label(), "RV2-5 prefiltered specular cube face pass");
    assert_eq!(InitializationPass::BrdfIntegrationLut.label(), "RV2-5 BRDF integration LUT pass");
}
