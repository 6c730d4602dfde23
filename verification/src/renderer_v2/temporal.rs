//! Previous-presented state of the temporal presentation contract.
//!
//! A candidate frame becomes history only after its surface texture has been
//! presented: `prepare_frame` reads the state and never changes it, and only
//! `commit_presented` advances it. Invalidation (creation, resize, surface
//! reconfiguration) starts a new generation without history.
//!
//! The presented frame state `S` (aircraft root, camera matrices, jitter) is
//! carried through opaquely; the state machine itself owns no heap or GPU
//! storage.

use vstd::prelude::*;

verus! {

/// Length of the repeating subpixel jitter sequence.
pub const JITTER_SEQUENCE_LENGTH: u64 = 8;

/// Why the current temporal generation has no usable previous frame.
#[derive(Debug, Clone, Copy, PartialEq, Eq, Structural)]
pub enum InvalidationReason {
    RendererCreated,
    Resize,
    SurfaceReconfigure,
}

/// A surface extent usable for rendering: both sides positive.
pub open spec fn spec_valid_extent(width: u32, height: u32) -> Option<[u32; 2]> {
    if width > 0 && height > 0 {
        Some([width, height])
    } else {
        None
    }
}

/// The extent of a surface, or none when either side is zero.
pub fn valid_extent(width: u32, height: u32) -> (extent: Option<[u32; 2]>)
    ensures
        extent == spec_valid_extent(width, height),
{
    if width > 0 && height > 0 {
        Some([width, height])
    } else {
        None
    }
}

/// One-based position of a presentation in the repeating jitter sequence.
pub fn jitter_sequence_index(presented_frame_index: u64) -> (index: u64)
    ensures
        index == presented_frame_index % JITTER_SEQUENCE_LENGTH + 1,
        1 <= index <= JITTER_SEQUENCE_LENGTH,
{
    presented_frame_index % JITTER_SEQUENCE_LENGTH + 1
}

/// Abstract state of the temporal history.
pub struct TemporalView<S> {
    pub history_valid: bool,
    pub presented_frame_index: u64,
    pub previous_presented: Option<S>,
    pub extent: Option<[u32; 2]>,
    pub generation: u64,
    pub last_invalidation: InvalidationReason,
}

/// Fixed-size presentation history.
#[derive(Debug)]
pub struct TemporalState<S> {
    history_valid: bool,
    presented_frame_index: u64,
    previous_presented: Option<S>,
    extent: Option<[u32; 2]>,
    generation: u64,
    last_invalidation: InvalidationReason,
}

impl<S> View for TemporalState<S> {
    type V = TemporalView<S>;

    closed spec fn view(&self) -> TemporalView<S> {
        TemporalView {
            history_valid: self.history_valid,
            presented_frame_index: self.presented_frame_index,
            previous_presented: self.previous_presented,
            extent: self.extent,
            generation: self.generation,
            last_invalidation: self.last_invalidation,
        }
    }
}

/// Immutable candidate used while encoding one render attempt. Consuming it in
/// `commit_presented` is the only way to advance history; dropping it leaves
/// every temporal counter unchanged.
#[derive(Debug)]
pub struct PreparedTemporalFrame<S> {
    current: S,
    previous: S,
    history_was_valid: bool,
    presented_frame_index: u64,
    generation: u64,
}

/// Abstract content of a prepared frame.
pub struct PreparedView<S> {
    pub current: S,
    pub previous: S,
    pub history_was_valid: bool,
    pub presented_frame_index: u64,
    pub generation: u64,
}

impl<S> View for PreparedTemporalFrame<S> {
    type V = PreparedView<S>;

    closed spec fn view(&self) -> PreparedView<S> {
        PreparedView {
            current: self.current,
            previous: self.previous,
            history_was_valid: self.history_was_valid,
            presented_frame_index: self.presented_frame_index,
            generation: self.generation,
        }
    }
}

impl<S: Copy> PreparedTemporalFrame<S> {
    /// The state being rendered now.
    pub fn current(&self) -> (current: S)
        ensures
            current == self@.current,
    {
        self.current
    }

    /// The state presented last, or the current one when there is no history.
    pub fn previous(&self) -> (previous: S)
        ensures
            previous == self@.previous,
    {
        self.previous
    }

    /// Whether `previous` is a real earlier presentation.
    pub fn history_was_valid(&self) -> (valid: bool)
        ensures
            valid == self@.history_was_valid,
    {
        self.history_was_valid
    }

    /// Presentation index this candidate would occupy.
    pub fn presented_frame_index(&self) -> (index: u64)
        ensures
            index == self@.presented_frame_index,
    {
        self.presented_frame_index
    }

    /// Generation the candidate was prepared in.
    pub fn generation(&self) -> (generation: u64)
        ensures
            generation == self@.generation,
    {
        self.generation
    }
}

/// The state of a fresh history for a surface of the given size.
pub open spec fn spec_new<S>(width: u32, height: u32) -> TemporalView<S> {
    TemporalView {
        history_valid: false,
        presented_frame_index: 0,
        previous_presented: None,
        extent: spec_valid_extent(width, height),
        generation: 0,
        last_invalidation: InvalidationReason::RendererCreated,
    }
}

/// The candidate prepared from a history for the state being rendered now.
pub open spec fn spec_prepare<S>(state: TemporalView<S>, current: S) -> PreparedView<S> {
    PreparedView {
        current,
        previous: match state.previous_presented {
            Some(previous) => previous,
            None => current,
        },
        history_was_valid: state.history_valid,
        presented_frame_index: state.presented_frame_index,
        generation: state.generation,
    }
}

/// The history after a prepared candidate was presented.
pub open spec fn spec_commit<S>(state: TemporalView<S>, prepared: PreparedView<S>) -> TemporalView<S> {
    TemporalView {
        history_valid: true,
        presented_frame_index: vstd::wrapping::u64_specs::wrapping_add(state.presented_frame_index, 1),
        previous_presented: Some(prepared.current),
        ..state
    }
}

/// The history after an invalidation for `reason`.
pub open spec fn spec_invalidate<S>(state: TemporalView<S>, reason: InvalidationReason) -> TemporalView<S> {
    TemporalView {
        history_valid: false,
        presented_frame_index: 0,
        previous_presented: None,
        generation: vstd::wrapping::u64_specs::wrapping_add(state.generation, 1),
        last_invalidation: reason,
        ..state
    }
}

/// The history after the surface was resized.
pub open spec fn spec_resize<S>(state: TemporalView<S>, width: u32, height: u32) -> TemporalView<S> {
    if spec_valid_extent(width, height) == state.extent {
        state
    } else {
        spec_invalidate(
            TemporalView { extent: spec_valid_extent(width, height), ..state },
            InvalidationReason::Resize,
        )
    }
}

/// Law: the first frame has no history and uses the current state as its
/// previous one.
pub proof fn law_first_frame_uses_current_as_previous<S>(width: u32, height: u32, current: S)
    ensures
        !spec_prepare(spec_new::<S>(width, height), current).history_was_valid,
        spec_prepare(spec_new::<S>(width, height), current).previous == current,
        spec_prepare(spec_new::<S>(width, height), current).presented_frame_index == 0,
{
}

/// Law: committing a prepared frame makes it the previous frame of the next
/// preparation, which then has valid history one presentation later.
pub proof fn law_commit_makes_presented_frame_the_next_previous<S>(
    state: TemporalView<S>,
    current: S,
    next: S,
)
    requires
        state.presented_frame_index < u64::MAX,
    ensures
        ({
            let after = spec_commit(state, spec_prepare(state, current));
            let prepared = spec_prepare(after, next);
            &&& prepared.history_was_valid
            &&& prepared.previous == current
            &&& prepared.presented_frame_index == state.presented_frame_index + 1
            &&& prepared.generation == state.generation
        }),
{
}

/// Law: preparing leaves the history unchanged, so a retried preparation
/// occupies the same presentation index and generation.
pub proof fn law_retried_preparation_sees_the_same_history<S>(state: TemporalView<S>, first: S, retry: S)
    ensures
        spec_prepare(state, first).presented_frame_index == spec_prepare(state, retry).presented_frame_index,
        spec_prepare(state, first).generation == spec_prepare(state, retry).generation,
        spec_prepare(state, first).history_was_valid == spec_prepare(state, retry).history_was_valid,
{
}

/// Law: after an invalidation the sequence restarts at index 0 without
/// history, in a new generation, whatever came before.
pub proof fn law_invalidation_restarts_the_sequence<S>(
    state: TemporalView<S>,
    reason: InvalidationReason,
    current: S,
)
    ensures
        ({
            let after = spec_invalidate(state, reason);
            let prepared = spec_prepare(after, current);
            &&& !prepared.history_was_valid
            &&& prepared.previous == current
            &&& prepared.presented_frame_index == 0
            &&& after.last_invalidation == reason
            &&& after.generation != state.generation
        }),
{
}

/// Law: a resize invalidates the history exactly when the effective extent
/// changes.
pub proof fn law_resize_invalidates_only_on_extent_change<S>(state: TemporalView<S>, width: u32, height: u32)
    ensures
        spec_resize(state, width, height).history_valid == (state.history_valid && spec_valid_extent(
            width,
            height,
        ) == state.extent),
        spec_resize(state, width, height).extent == spec_valid_extent(width, height),
{
}

impl<S> TemporalState<S> {
    #[verifier::type_invariant]
    spec fn history_matches_previous(self) -> bool {
        self.history_valid == self.previous_presented.is_some()
    }
}

impl<S: Copy> TemporalState<S> {
    /// A fresh state for a surface of the given size: no history, index 0,
    /// generation 0, created by the renderer.
    pub fn new(width: u32, height: u32) -> (state: Self)
        ensures
            !state@.history_valid,
            state@.presented_frame_index == 0,
            state@.previous_presented.is_none(),
            state@.extent == spec_valid_extent(width, height),
            state@.generation == 0,
            state@.last_invalidation == InvalidationReason::RendererCreated,
            state@.history_valid == state@.previous_presented.is_some(),
            state@ == spec_new::<S>(width, height),
    {
        TemporalState {
            history_valid: false,
            presented_frame_index: 0,
            previous_presented: None,
            extent: valid_extent(width, height),
            generation: 0,
            last_invalidation: InvalidationReason::RendererCreated,
        }
    }

    /// Prepare, but do not commit, the state for one render attempt. Without
    /// history the current state stands in for the previous one.
    pub fn prepare_frame(&self, current: S) -> (prepared: PreparedTemporalFrame<S>)
        ensures
            prepared@.current == current,
            prepared@.previous == match self@.previous_presented {
                Some(previous) => previous,
                None => current,
            },
            prepared@.history_was_valid == self@.history_valid,
            prepared@.history_was_valid == self@.previous_presented.is_some(),
            prepared@.presented_frame_index == self@.presented_frame_index,
            prepared@.generation == self@.generation,
            prepared@ == spec_prepare(self@, current),
    {
        proof {
            use_type_invariant(self);
        }
        let previous = match self.previous_presented {
            Some(previous) => previous,
            None => current,
        };
        PreparedTemporalFrame {
            current,
            previous,
            history_was_valid: self.history_valid,
            presented_frame_index: self.presented_frame_index,
            generation: self.generation,
        }
    }

    /// Promote a candidate after its frame was presented: it becomes the
    /// previous presentation and the index advances by one (wrapping).
    pub fn commit_presented(&mut self, prepared: PreparedTemporalFrame<S>)
        requires
            prepared@.generation == old(self)@.generation,
            prepared@.presented_frame_index == old(self)@.presented_frame_index,
        ensures
            final(self)@.history_valid,
            final(self)@.previous_presented == Some(prepared@.current),
            final(self)@.presented_frame_index == vstd::wrapping::u64_specs::wrapping_add(
                old(self)@.presented_frame_index,
                1,
            ),
            final(self)@.extent == old(self)@.extent,
            final(self)@.generation == old(self)@.generation,
            final(self)@.last_invalidation == old(self)@.last_invalidation,
            final(self)@.history_valid == final(self)@.previous_presented.is_some(),
            final(self)@ == spec_commit(old(self)@, prepared@),
    {
        *self = TemporalState {
            history_valid: true,
            presented_frame_index: self.presented_frame_index.wrapping_add(1),
            previous_presented: Some(prepared.current),
            extent: self.extent,
            generation: self.generation,
            last_invalidation: self.last_invalidation,
        };
    }

    /// Track the surface extent; history is invalidated exactly when the
    /// effective extent changes.
    pub fn resize(&mut self, width: u32, height: u32)
        ensures
            final(self)@.extent == spec_valid_extent(width, height),
            spec_valid_extent(width, height) == old(self)@.extent ==> final(self)@ == old(self)@,
            spec_valid_extent(width, height) != old(self)@.extent ==> {
                &&& !final(self)@.history_valid
                &&& final(self)@.presented_frame_index == 0
                &&& final(self)@.previous_presented.is_none()
                &&& final(self)@.generation == vstd::wrapping::u64_specs::wrapping_add(
                    old(self)@.generation,
                    1,
                )
                &&& final(self)@.last_invalidation == InvalidationReason::Resize
            },
            final(self)@.history_valid == final(self)@.previous_presented.is_some(),
            final(self)@ == spec_resize(old(self)@, width, height),
    {
        proof {
            use_type_invariant(&*self);
        }
        let next_extent = valid_extent(width, height);
        let unchanged = match (next_extent, self.extent) {
            (None, None) => true,
            (Some(a), Some(b)) => a[0] == b[0] && a[1] == b[1],
            _ => false,
        };
        if !unchanged {
            proof {
                assert(next_extent != self.extent) by {
                    if next_extent.is_some() && self.extent.is_some() {
                        let a = next_extent.unwrap();
                        let b = self.extent.unwrap();
                        if a == b {
                            assert(a[0] == b[0] && a[1] == b[1]);
                        }
                    }
                }
            }
            *self = TemporalState {
                history_valid: false,
                presented_frame_index: 0,
                previous_presented: None,
                extent: next_extent,
                generation: self.generation.wrapping_add(1),
                last_invalidation: InvalidationReason::Resize,
            };
        } else {
            proof {
                if next_extent.is_some() {
                    assert(next_extent.unwrap() =~= self.extent.unwrap());
                }
            }
        }
    }

    /// Drop the history and start a new generation for `reason`.
    pub fn invalidate(&mut self, reason: InvalidationReason)
        ensures
            !final(self)@.history_valid,
            final(self)@.presented_frame_index == 0,
            final(self)@.previous_presented.is_none(),
            final(self)@.extent == old(self)@.extent,
            final(self)@.generation == vstd::wrapping::u64_specs::wrapping_add(old(self)@.generation, 1),
            final(self)@.last_invalidation == reason,
            final(self)@.history_valid == final(self)@.previous_presented.is_some(),
            final(self)@ == spec_invalidate(old(self)@, reason),
    {
        *self = TemporalState {
            history_valid: false,
            presented_frame_index: 0,
            previous_presented: None,
            extent: self.extent,
            generation: self.generation.wrapping_add(1),
            last_invalidation: reason,
        };
    }

    /// Whether a previous presentation is available.
    pub fn history_valid(&self) -> (valid: bool)
        ensures
            valid == self@.history_valid,
    {
        self.history_valid
    }

    /// Index of the next presentation within the current generation.
    pub fn presented_frame_index(&self) -> (index: u64)
        ensures
            index == self@.presented_frame_index,
    {
        self.presented_frame_index
    }

    /// The last presented state, if any.
    pub fn previous_presented(&self) -> (previous: Option<S>)
        ensures
            previous == self@.previous_presented,
    {
        self.previous_presented
    }

    /// The effective surface extent, if the surface is not empty.
    pub fn extent(&self) -> (extent: Option<[u32; 2]>)
        ensures
            extent == self@.extent,
    {
        self.extent
    }

    /// The current generation.
    pub fn generation(&self) -> (generation: u64)
        ensures
            generation == self@.generation,
    {
        self.generation
    }

    /// Why the current generation started.
    pub fn last_invalidation(&self) -> (reason: InvalidationReason)
        ensures
            reason == self@.last_invalidation,
    {
        self.last_invalidation
    }
}

} // verus!
