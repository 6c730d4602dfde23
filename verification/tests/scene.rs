use rc_renderer::renderer_v2::scene::{
    instance_range, select_scene_path, GpuScenePlan, PresentationKind, SceneAsset,
    SceneInstance, SceneMesh, ScenePath, GPU_SCENE_INSTANCE_BYTES,
};

type Mat = [[f32; 4]; 4];

const IDENTITY: Mat = [
    [1.0, 0.0, 0.0, 0.0],
    [0.0, 1.0, 0.0, 0.0],
    [0.0, 0.0, 1.0, 0.0],
    [0.0, 0.0, 0.0, 1.0],
];

fn asset_with_instances(transforms: &[Mat]) -> SceneAsset<Mat> {
    SceneAsset {
        meshes: vec![SceneMesh { primitive_count: 1 }],
        instances: transforms
            .iter()
            .enumerate()
            .map(|(node_index, transform)| SceneInstance {
                node_index,
                mesh_index: 0,
                world_transform: *transform,
            })
            .collect(),
    }
}

#[test]
fn one_mesh_one_instance_produces_one_upload_definition() {
    let plan = GpuScenePlan::from_asset(&asset_with_instances(&[IDENTITY]));
    assert_eq!(plan.mesh_primitive_counts.as_slice(), [1]);
    assert_eq!(plan.stats.unique_mesh_count, 1);
    assert_eq!(plan.stats.primitive_count, 1);
    assert_eq!(plan.stats.scene_instance_count, 1);
    assert_eq!(plan.stats.instance_buffer_bytes, 112);
    assert_eq!(plan.stats.draw_count, 1);
}

#[test]
fn repeated_mesh_instances_do_not_duplicate_geometry_definitions() {
    let second = [
        [1.0, 0.0, 0.0, 3.0],
        [0.0, 1.0, 0.0, 0.0],
        [0.0, 0.0, 1.0, -2.0],
        [0.0, 0.0, 0.0, 1.0],
    ];
    let plan = GpuScenePlan::from_asset(&asset_with_instances(&[IDENTITY, second]));
    assert_eq!(plan.stats.unique_mesh_count, 1);
    assert_eq!(plan.stats.primitive_count, 1);
    assert_eq!(plan.stats.scene_instance_count, 2);
    assert_eq!(plan.stats.instance_buffer_bytes, 224);
    assert_eq!(plan.stats.draw_count, 2);
    assert_ne!(
        plan.instances[0].world_transform,
        plan.instances[1].world_transform
    );
    assert_eq!(plan.instances[0].node_index, 0);
    assert_eq!(plan.instances[1].node_index, 1);
    assert_eq!(plan.instances[0].mesh_index, plan.instances[1].mesh_index);
}

#[test]
fn instance_order_and_plan_are_deterministic() {
    let asset = asset_with_instances(&[IDENTITY, IDENTITY]);
    assert_eq!(
        GpuScenePlan::from_asset(&asset),
        GpuScenePlan::from_asset(&asset)
    );
}

#[test]
fn only_v2_rigid_glb_selects_the_instanced_path() {
    assert_eq!(
        select_scene_path(true, PresentationKind::RigidGlb),
        ScenePath::V2Instanced
    );
    for (is_v2, kind) in [
        (false, PresentationKind::RigidGlb),
        (true, PresentationKind::ArticulatedGlb),
        (false, PresentationKind::ArticulatedGlb),
        (true, PresentationKind::Procedural),
    ] {
        assert_eq!(select_scene_path(is_v2, kind), ScenePath::LegacyFlat);
    }
}

#[test]
fn draws_count_every_primitive_of_every_instance() {
    let asset = SceneAsset {
        meshes: vec![
            SceneMesh { primitive_count: 3 },
            SceneMesh { primitive_count: 2 },
            SceneMesh { primitive_count: 0 },
        ],
        instances: vec![
            SceneInstance { node_index: 4, mesh_index: 1, world_transform: 0u8 },
            SceneInstance { node_index: 7, mesh_index: 0, world_transform: 1u8 },
            SceneInstance { node_index: 9, mesh_index: 1, world_transform: 2u8 },
            SceneInstance { node_index: 2, mesh_index: 2, world_transform: 3u8 },
        ],
    };
    let plan = GpuScenePlan::from_asset(&asset);
    assert_eq!(plan.mesh_primitive_counts, vec![3, 2, 0]);
    assert_eq!(plan.stats.unique_mesh_count, 3);
    assert_eq!(plan.stats.primitive_count, 5);
    assert_eq!(plan.stats.scene_instance_count, 4);
    assert_eq!(plan.stats.instance_buffer_bytes, 4 * GPU_SCENE_INSTANCE_BYTES as u64);
    assert_eq!(plan.stats.draw_count, 2 + 3 + 2);
    for (index, record) in plan.instances.iter().enumerate() {
        assert_eq!(record.instance_index as usize, index);
        assert_eq!(record.world_transform as usize, index);
        assert_eq!(record.node_index, asset.instances[index].node_index);
        assert_eq!(instance_range(record), (index as u32, index as u32 + 1));
    }
}

#[test]
fn an_empty_scene_plans_nothing() {
    let plan = GpuScenePlan::<u8>::from_asset(&SceneAsset { meshes: vec![], instances: vec![] });
    assert!(plan.mesh_primitive_counts.is_empty());
    assert!(plan.instances.is_empty());
    assert_eq!(plan.stats.draw_count, 0);
    assert_eq!(plan.stats.instance_buffer_bytes, 0);
}
