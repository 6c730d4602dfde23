use rc_renderer::profiling::{
    align_up, next_slot_after, pass_elapsed_ticks, poll_slot, query_bytes, resolve_buffer_size,
    select_readback_slot, timestamp_query_indices, ReadbackSlotState, GPU_QUERY_COUNT,
    QUERY_RESOLVE_BUFFER_ALIGNMENT, QUERY_SIZE_BYTES,
};
use rc_renderer::render_graph::PassId;
use ReadbackSlotState::{Failed, Free, Pending, Ready};

#[test]
fn production_query_count_is_two_per_real_pass() {
    assert_eq!(PassId::COUNT, 6);
    assert_eq!(GPU_QUERY_COUNT, 12);
}

#[test]
fn query_count_is_two_per_real_pass() {
    assert_eq!(GPU_QUERY_COUNT as usize, PassId::COUNT * 2);
    assert_eq!(QUERY_SIZE_BYTES, wgpu::QUERY_SIZE as u64);
    assert_eq!(QUERY_RESOLVE_BUFFER_ALIGNMENT, wgpu::QUERY_RESOLVE_BUFFER_ALIGNMENT);
}

#[test]
fn resolve_storage_is_alignment_safe() {
    let resolve_size = resolve_buffer_size();
    assert_eq!(resolve_size % wgpu::QUERY_RESOLVE_BUFFER_ALIGNMENT, 0);
    assert!(resolve_size >= query_bytes());
    assert_eq!(query_bytes(), 96);
    assert_eq!(resolve_size, 256);
}

#[test]
fn align_up_rounds_to_the_next_multiple() {
    assert_eq!(align_up(0, 256), 0);
    assert_eq!(align_up(1, 256), 256);
    assert_eq!(align_up(256, 256), 256);
    assert_eq!(align_up(257, 256), 512);
    assert_eq!(align_up(80, 8), 80);
}

#[test]
fn each_pass_owns_two_consecutive_queries() {
    let mut seen = Vec::new();
    for pass in [
        PassId::ShadowNear,
        PassId::ShadowMid,
        PassId::ShadowFar,
        PassId::Scene,
        PassId::Postprocess,
        PassId::TemporalResolve,
    ] {
        let (begin, end) = timestamp_query_indices(pass);
        assert_eq!(end, begin + 1);
        assert_eq!(begin, pass.index() as u32 * 2);
        assert!(end < GPU_QUERY_COUNT);
        seen.push(begin);
        seen.push(end);
    }
    seen.sort_unstable();
    assert_eq!(seen, (0..GPU_QUERY_COUNT).collect::<Vec<_>>());
}

#[test]
fn elapsed_ticks_saturate_at_zero() {
    assert_eq!(pass_elapsed_ticks(100, 250), 150);
    assert_eq!(pass_elapsed_ticks(250, 100), 0);
    assert_eq!(pass_elapsed_ticks(7, 7), 0);
}

#[test]
fn readback_ring_probes_from_the_next_slot_and_wraps() {
    assert_eq!(select_readback_slot(0, &[Free, Free, Free]), Some(0));
    assert_eq!(select_readback_slot(1, &[Free, Free, Free]), Some(1));
    assert_eq!(select_readback_slot(2, &[Free, Pending, Pending]), Some(0));
    assert_eq!(select_readback_slot(1, &[Pending, Ready, Free]), Some(2));
    assert_eq!(select_readback_slot(0, &[Pending, Ready, Failed]), None);
    assert_eq!(next_slot_after(0), 1);
    assert_eq!(next_slot_after(2), 0);
}

#[test]
fn polling_frees_completed_slots_only() {
    assert_eq!(poll_slot(Ready), (Free, true));
    assert_eq!(poll_slot(Failed), (Free, false));
    assert_eq!(poll_slot(Pending), (Pending, false));
    assert_eq!(poll_slot(Free), (Free, false));
}
