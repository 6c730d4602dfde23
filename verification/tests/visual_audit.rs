use rc_renderer::renderer_v2::atmosphere::V2EnvironmentMode;
use rc_renderer::shadow::SHADOW_CASCADE_COUNT;
use rc_renderer::vegetation::{VegetationDebugMode, VegetationFrameStats};
use rc_renderer::visual_audit::{
    audited_gpu_timing, duration_ns, environment_from_runtime, gpu_timing_association, vegetation_from_runtime,
    RuntimeVisualAuditDevice, RuntimeVisualAuditIdentity, SCHEMA_VERSION,
};

#[test]
fn physical_and_fallback_map_from_actual_runtime_mode() {
    let physical = environment_from_runtime(V2EnvironmentMode::Physical, true);
    assert_eq!(physical.environment_mode, "physical");
    assert!(physical.physical_atmosphere_active);
    assert!(physical.physical_ibl_active);
    assert!(physical.aerial_perspective_active);

    let fallback = environment_from_runtime(V2EnvironmentMode::AnalyticalFallback, false);
    assert_eq!(fallback.environment_mode, "analytical_fallback");
    assert!(!fallback.physical_atmosphere_active);
    assert!(!fallback.physical_ibl_active);
    assert!(!fallback.aerial_perspective_active);
}

#[test]
fn vegetation_absent_and_present_mapping_preserves_frame_stats() {
    let absent = vegetation_from_runtime(VegetationDebugMode::Final, None, None);
    assert!(!absent.vegetation_present);
    assert!(absent.stats.is_none());

    let source = VegetationFrameStats {
        total: 10,
        visible: 6,
        culled_frustum: 3,
        culled_distance: 1,
        lod_counts: [1, 2, 3],
        scene_draw_calls: 4,
        shadow_draw_calls: 5,
    };
    let present = vegetation_from_runtime(VegetationDebugMode::Lod, Some(&source), Some(288));
    let stats = present.stats.unwrap();
    assert!(present.vegetation_present);
    assert_eq!(present.debug_mode, "lod");
    assert_eq!(stats.lod_counts, source.lod_counts);
    assert_eq!(stats.shadow_draw_calls, 5 * SHADOW_CASCADE_COUNT as u32);
    assert_eq!(stats.uploaded_instance_bytes, 288);
}

#[test]
fn vegetation_mapping_copies_every_counter() {
    let source = VegetationFrameStats {
        total: 100,
        visible: 70,
        culled_frustum: 20,
        culled_distance: 10,
        lod_counts: [40, 20, 10],
        scene_draw_calls: 12,
        shadow_draw_calls: 8,
    };
    let audit = vegetation_from_runtime(VegetationDebugMode::Culling, Some(&source), Some(48 * 70));
    assert_eq!(audit.debug_mode, "culling");
    let stats = audit.stats.unwrap();
    assert_eq!(stats.total, 100);
    assert_eq!(stats.visible, 70);
    assert_eq!(stats.culled_frustum, 20);
    assert_eq!(stats.culled_distance, 10);
    assert_eq!(stats.scene_draw_calls, 12);
    assert_eq!(stats.shadow_draw_calls, 24);
    assert_eq!(stats.uploaded_instance_bytes, 3360);
    let absent = vegetation_from_runtime(VegetationDebugMode::Lod, None, Some(1));
    assert_eq!(absent.debug_mode, "lod");
    assert!(absent.stats.is_none());
}

#[test]
fn unavailable_gpu_timing_is_null_not_zero() {
    let timing = gpu_timing_association(10, false, None);
    assert_eq!(timing.status, "timestamp_query_unsupported");
    assert!(!timing.expose_gpu_durations);
    assert!(timing.unavailable_reason.is_some());
    assert_eq!(timing.source_presentation_frame_index, None);
    assert_eq!(timing.frame_age, None);
    // An unsupported device ignores any stale sample index.
    assert!(!gpu_timing_association(10, false, Some(10)).expose_gpu_durations);
}

#[test]
fn asynchronous_gpu_sample_keeps_its_real_frame_association() {
    let timing = gpu_timing_association(10, true, Some(8));
    assert_eq!(timing.status, "previous_frame_sample");
    assert_eq!(timing.source_presentation_frame_index, Some(8));
    assert_eq!(timing.frame_age, Some(2));
    assert!(timing.expose_gpu_durations);
    assert_eq!(timing.unavailable_reason, None);
}

#[test]
fn supported_but_not_ready_gpu_timing_remains_null() {
    let timing = gpu_timing_association(10, true, None);
    assert_eq!(timing.status, "asynchronous_result_not_ready");
    assert!(!timing.expose_gpu_durations);
    assert!(timing.unavailable_reason.is_some());
}

#[test]
fn current_frame_and_future_samples() {
    let current = gpu_timing_association(7, true, Some(7));
    assert_eq!(current.status, "current_frame_sample");
    assert_eq!(current.frame_age, Some(0));
    let future = gpu_timing_association(7, true, Some(8));
    assert_eq!(future.status, "asynchronous_result_not_ready");
    assert_eq!(future.source_presentation_frame_index, None);
}

#[test]
fn durations_saturate_at_u64_max() {
    assert_eq!(duration_ns(0), 0);
    assert_eq!(duration_ns(90), 90);
    assert_eq!(duration_ns(u64::MAX as u128), u64::MAX);
    assert_eq!(duration_ns(u64::MAX as u128 + 1), u64::MAX);
    assert_eq!(duration_ns(u128::MAX), u64::MAX);
    assert_eq!(duration_ns(std::time::Duration::from_nanos(1_500).as_nanos()), 1_500);
}

#[test]
fn plain_audit_groups_hold_their_values() {
    let identity = RuntimeVisualAuditIdentity {
        presentation_frame_index: 10,
        framebuffer_width: 1920,
        framebuffer_height: 1080,
        renderer_version: "v2",
    };
    assert_eq!(identity.framebuffer_width, 1920);
    let device = RuntimeVisualAuditDevice {
        adapter_name: "adapter".to_owned(),
        backend: "Vulkan".to_owned(),
        driver: "driver".to_owned(),
        driver_info: "info".to_owned(),
    };
    assert_eq!(device.adapter_name, "adapter");
    assert_eq!(device.backend, "Vulkan");
    assert_eq!(SCHEMA_VERSION, "1.0.0");
}

#[test]
fn no_presented_frame_means_no_profiling_timing() {
    assert_eq!(audited_gpu_timing(None, true, Some(3)), None);
    let timing = audited_gpu_timing(Some(5), true, Some(3)).expect("a presented frame");
    assert_eq!(timing, gpu_timing_association(5, true, Some(3)));
    assert_eq!(timing.frame_age, Some(2));
    assert_eq!(timing.status, "previous_frame_sample");
}
