//! Bounded profiling arithmetic and the readback-ring decisions of the GPU
//! timestamp profiler.
//!
//! Every render pass writes two timestamps (begin, end). The resolved query
//! block is copied into one of three readback slots; a slot is reused only
//! after its mapping has completed (ready or failed).

use vstd::prelude::*;

use crate::render_graph::{PassId, pass_rank};

verus! {

/// Bytes of one resolved timestamp query.
pub const QUERY_SIZE_BYTES: u64 = 8;
/// Required alignment of a query resolve buffer.
pub const QUERY_RESOLVE_BUFFER_ALIGNMENT: u64 = 256;
/// Timestamp queries per frame: begin and end of every pass.
pub const GPU_QUERY_COUNT: u32 = 12;
/// Readback slots in the ring.
pub const READBACK_RING_SIZE: usize = 3;

/// Round `value` up to the next multiple of `alignment` (the smallest multiple
/// that is not below `value`).
pub fn align_up(value: u64, alignment: u64) -> (aligned: u64)
    requires
        alignment > 0,
        (value + alignment - 1) / (alignment as int) * alignment <= u64::MAX,
    ensures
        aligned % alignment == 0,
        value <= aligned < value + alignment,
        aligned == (value + alignment - 1) / (alignment as int) * alignment,
{
    let quotient = value / alignment;
    let remainder = value % alignment;
    proof {
        vstd::arithmetic::div_mod::lemma_fundamental_div_mod(value as int, alignment as int);
    }
    if remainder == 0 {
        proof {
            vstd::arithmetic::div_mod::lemma_fundamental_div_mod_converse(
                value + alignment - 1,
                alignment as int,
                quotient as int,
                alignment - 1,
            );
            assert(value + alignment - 1 == quotient * alignment + (alignment - 1)) by (nonlinear_arith)
                requires
                    value == alignment * quotient + remainder,
                    remainder == 0,
            ;
        }
        value
    } else {
        proof {
            assert(value + alignment - 1 == (quotient + 1) * alignment + (remainder - 1)) by (nonlinear_arith)
                requires
                    value == alignment * quotient + remainder,
            ;
            vstd::arithmetic::div_mod::lemma_fundamental_div_mod_converse(
                value + alignment - 1,
                alignment as int,
                quotient + 1,
                remainder - 1,
            );
            vstd::arithmetic::mul::lemma_mul_is_distributive_add_other_way(
                alignment as int,
                quotient as int,
                1,
            );
            vstd::arithmetic::div_mod::lemma_mod_multiples_basic(quotient as int + 1, alignment as int);
            assert((quotient + 1) * alignment == value - remainder + alignment) by (nonlinear_arith)
                requires
                    value == alignment * quotient + remainder,
            ;
        }
        value - remainder + alignment
    }
}

/// Law: the query count is two per real pass of the render graph.
pub proof fn law_two_queries_per_pass()
    ensures
        GPU_QUERY_COUNT == 2 * PassId::COUNT,
{
}

/// Bytes of the resolved query block.
pub fn query_bytes() -> (bytes: u64)
    ensures
        bytes == GPU_QUERY_COUNT * QUERY_SIZE_BYTES,
{
    GPU_QUERY_COUNT as u64 * QUERY_SIZE_BYTES
}

/// Size of the resolve and readback buffers: the query block rounded up to
/// the resolve alignment.
pub fn resolve_buffer_size() -> (size: u64)
    ensures
        size % QUERY_RESOLVE_BUFFER_ALIGNMENT == 0,
        GPU_QUERY_COUNT * QUERY_SIZE_BYTES <= size < GPU_QUERY_COUNT * QUERY_SIZE_BYTES
            + QUERY_RESOLVE_BUFFER_ALIGNMENT,
{
    align_up(query_bytes(), QUERY_RESOLVE_BUFFER_ALIGNMENT)
}

/// Query indices (begin, end) written by a pass.
pub fn timestamp_query_indices(pass: PassId) -> (indices: (u32, u32))
    ensures
        indices.0 == 2 * pass_rank(pass),
        indices.1 == 2 * pass_rank(pass) + 1,
        indices.1 < GPU_QUERY_COUNT,
{
    let first = pass.index() as u32 * 2;
    (first, first + 1)
}

/// Elapsed timestamp ticks of a pass; a counter that went backwards reads as
/// zero.
pub fn pass_elapsed_ticks(start: u64, end: u64) -> (ticks: u64)
    ensures
        ticks == if end >= start {
            (end - start) as int
        } else {
            0int
        },
{
    end.saturating_sub(start)
}

/// Mapping state of a readback slot.
#[derive(Debug, Clone, Copy, PartialEq, Eq, Structural)]
pub enum ReadbackSlotState {
    Free,
    Pending,
    Ready,
    Failed,
}

/// The first free slot when probing the ring from `next_slot` onwards,
/// wrapping around.
pub open spec fn first_free_from(next_slot: int, states: Seq<ReadbackSlotState>, offset: int) -> Option<usize>
    decreases READBACK_RING_SIZE - offset,
{
    if offset >= READBACK_RING_SIZE {
        None
    } else if states[(next_slot + offset) % READBACK_RING_SIZE as int] == ReadbackSlotState::Free {
        Some(((next_slot + offset) % READBACK_RING_SIZE as int) as usize)
    } else {
        first_free_from(next_slot, states, offset + 1)
    }
}

/// The slot probed `k` steps forward from `next_slot` around the ring.
pub open spec fn probed_slot(next_slot: int, k: int) -> int {
    (next_slot + k) % 3
}

/// Steps from `from` forward around the ring to `to`.
pub open spec fn ring_distance(from: int, to: int) -> int {
    (to - from + 3) % 3
}

/// Probing forward from `next_slot` and wrapping around, the selected slot is
/// free and every slot passed on the way to it is not; there is no selection
/// exactly when no slot is free.
pub proof fn law_selected_slot_is_the_nearest_free_slot_forward(next_slot: int, states: Seq<ReadbackSlotState>)
    requires
        0 <= next_slot < 3,
        states.len() == 3,
    ensures
        first_free_from(next_slot, states, 0) matches Some(s) ==> {
            &&& 0 <= s < 3
            &&& states[s as int] == ReadbackSlotState::Free
            &&& forall|k: int|
                0 <= k < ring_distance(next_slot, s as int) ==> states[#[trigger] probed_slot(next_slot, k)]
                    != ReadbackSlotState::Free
        },
        first_free_from(next_slot, states, 0) is None <==> forall|i: int|
            0 <= i < 3 ==> states[i] != ReadbackSlotState::Free,
{
    reveal_with_fuel(first_free_from, 4);
    let r = first_free_from(next_slot, states, 0);
    if next_slot == 0 {
        assert(r == if states[0] == ReadbackSlotState::Free {
            Some(0usize)
        } else if states[1] == ReadbackSlotState::Free {
            Some(1usize)
        } else if states[2] == ReadbackSlotState::Free {
            Some(2usize)
        } else {
            None
        });
    } else if next_slot == 1 {
        assert(r == if states[1] == ReadbackSlotState::Free {
            Some(1usize)
        } else if states[2] == ReadbackSlotState::Free {
            Some(2usize)
        } else if states[0] == ReadbackSlotState::Free {
            Some(0usize)
        } else {
            None
        });
    } else {
        assert(r == if states[2] == ReadbackSlotState::Free {
            Some(2usize)
        } else if states[0] == ReadbackSlotState::Free {
            Some(0usize)
        } else if states[1] == ReadbackSlotState::Free {
            Some(1usize)
        } else {
            None
        });
    }
    assert forall|i: int| 0 <= i < 3 && r is None implies states[i] != ReadbackSlotState::Free by {
        if i == 0 {} else if i == 1 {} else {}
    }
}

/// Pick the slot that this frame's timestamps are copied into: the first free
/// slot starting at `next_slot`, or none when every slot is still in flight.
pub fn select_readback_slot(next_slot: usize, states: &[ReadbackSlotState; 3]) -> (slot: Option<usize>)
    requires
        next_slot < READBACK_RING_SIZE,
    ensures
        slot == first_free_from(next_slot as int, states@, 0),
        slot matches Some(s) ==> s < READBACK_RING_SIZE && states@[s as int] == ReadbackSlotState::Free,
        slot matches Some(s) ==> forall|k: int|
            0 <= k < ring_distance(next_slot as int, s as int) ==> states@[#[trigger] probed_slot(next_slot as int, k)]
                != ReadbackSlotState::Free,
        slot is None <==> forall|i: int| 0 <= i < 3 ==> states@[i] != ReadbackSlotState::Free,
{
    proof {
        law_selected_slot_is_the_nearest_free_slot_forward(next_slot as int, states@);
    }
    let mut offset: usize = 0;
    while offset < READBACK_RING_SIZE
        invariant
            offset <= READBACK_RING_SIZE,
            next_slot < READBACK_RING_SIZE,
            first_free_from(next_slot as int, states@, 0) == first_free_from(
                next_slot as int,
                states@,
                offset as int,
            ),
        decreases READBACK_RING_SIZE - offset,
    {
        let index = (next_slot + offset) % READBACK_RING_SIZE;
        if states[index] == ReadbackSlotState::Free {
            proof {
                law_selected_slot_is_the_nearest_free_slot_forward(next_slot as int, states@);
            }
            return Some(index);
        }
        offset += 1;
    }
    None
}

/// The slot probed first in the next frame: the one after the slot just used.
pub fn next_slot_after(used: usize) -> (next: usize)
    requires
        used < READBACK_RING_SIZE,
    ensures
        next == (used + 1) % READBACK_RING_SIZE as int,
{
    (used + 1) % READBACK_RING_SIZE
}

/// State of a slot after one poll of the device: a completed mapping (read or
/// failed) frees the slot, anything else is unchanged. Returns whether the
/// slot's timestamps are to be read.
pub fn poll_slot(state: ReadbackSlotState) -> (result: (ReadbackSlotState, bool))
    ensures
        result.1 == (state == ReadbackSlotState::Ready),
        result.0 == match state {
            ReadbackSlotState::Ready | ReadbackSlotState::Failed => ReadbackSlotState::Free,
            other => other,
        },
{
    match state {
        ReadbackSlotState::Ready => (ReadbackSlotState::Free, true),
        ReadbackSlotState::Failed => (ReadbackSlotState::Free, false),
        other => (other, false),
    }
}

} // verus!
