use rc_renderer::renderer_v2::temporal::{
    jitter_sequence_index, valid_extent, InvalidationReason, TemporalState,
};

#[test]
fn first_frame_uses_current_as_previous_and_commits_only_explicitly() {
    let mut state: TemporalState<u32> = TemporalState::new(1_280, 720);
    let prepared = state.prepare_frame(25);
    assert!(!prepared.history_was_valid());
    assert_eq!(prepared.previous(), 25);
    assert_eq!(prepared.current(), 25);
    assert_eq!(state.presented_frame_index(), 0);
    assert!(!state.history_valid());

    state.commit_presented(prepared);
    assert_eq!(state.presented_frame_index(), 1);
    assert!(state.history_valid());
    assert_eq!(state.previous_presented(), Some(25));
}

#[test]
fn dropping_prepared_frame_does_not_advance_history_or_jitter() {
    let state: TemporalState<u32> = TemporalState::new(800, 600);
    let first = state.prepare_frame(1);
    let retry = state.prepare_frame(2);
    assert_eq!(first.presented_frame_index(), retry.presented_frame_index());
    assert_eq!(retry.presented_frame_index(), 0);
    assert!(!retry.history_was_valid());
    drop(first);
    assert_eq!(state.presented_frame_index(), 0);
}

#[test]
fn commit_makes_last_presented_frame_the_next_previous() {
    let mut state: TemporalState<u32> = TemporalState::new(800, 600);
    let first = state.prepare_frame(10);
    state.commit_presented(first);
    let second = state.prepare_frame(20);
    assert!(second.history_was_valid());
    assert_eq!(second.previous(), 10);
    assert_eq!(second.current(), 20);
    assert_eq!(second.presented_frame_index(), 1);
}

#[test]
fn invalidation_clears_previous_and_restarts_sequence() {
    let mut state: TemporalState<u32> = TemporalState::new(800, 600);
    let first = state.prepare_frame(1);
    state.commit_presented(first);
    state.invalidate(InvalidationReason::SurfaceReconfigure);
    let after = state.prepare_frame(3);
    assert!(!after.history_was_valid());
    assert_eq!(after.presented_frame_index(), 0);
    assert_eq!(after.previous(), 3);
    assert_eq!(state.last_invalidation(), InvalidationReason::SurfaceReconfigure);
    assert_eq!(state.generation(), 1);
    assert_eq!(after.generation(), 1);
}

#[test]
fn resize_invalidates_only_when_effective_extent_changes() {
    let mut state: TemporalState<u32> = TemporalState::new(800, 600);
    assert_eq!(state.last_invalidation(), InvalidationReason::RendererCreated);
    let first = state.prepare_frame(0);
    state.commit_presented(first);
    state.resize(800, 600);
    assert!(state.history_valid());
    assert_eq!(state.generation(), 0);
    state.resize(1_280, 720);
    assert!(!state.history_valid());
    assert_eq!(state.last_invalidation(), InvalidationReason::Resize);
    assert_eq!(state.extent(), Some([1_280, 720]));
    assert_eq!(state.generation(), 1);
    state.resize(0, 0);
    assert_eq!(state.extent(), None);
    assert!(!state.history_valid());
    assert_eq!(state.generation(), 2);
    state.resize(0, 5);
    assert_eq!(state.generation(), 2);
}

#[test]
fn extents_and_jitter_positions() {
    assert_eq!(valid_extent(800, 600), Some([800, 600]));
    assert_eq!(valid_extent(0, 600), None);
    assert_eq!(valid_extent(800, 0), None);
    assert_eq!(jitter_sequence_index(0), 1);
    assert_eq!(jitter_sequence_index(7), 8);
    assert_eq!(jitter_sequence_index(8), 1);
    assert_eq!(jitter_sequence_index(u64::MAX), u64::MAX % 8 + 1);
}

#[test]
fn presentation_index_wraps() {
    let mut state: TemporalState<u8> = TemporalState::new(1, 1);
    for frame in 0..5u8 {
        let prepared = state.prepare_frame(frame);
        assert_eq!(prepared.presented_frame_index(), frame as u64);
        state.commit_presented(prepared);
    }
    assert_eq!(state.presented_frame_index(), 5);
    assert_eq!(state.previous_presented(), Some(4));
}
