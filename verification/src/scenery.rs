//! Flying-field scenery: visual classification, presets, the merged scenery
//! mesh, mesh merging, and the integer hash behind deterministic placement.

use vstd::prelude::*;

verus! {

/// Number of trees placed on the default flying field.
pub const DEFAULT_TREE_COUNT: usize = 50;
/// Seed of the default tree layout.
pub const DEFAULT_TREE_SEED: u64 = 42;
/// Triangle budget of the whole generated flying field.
pub const MAX_FLYING_FIELD_TRIANGLES: u32 = 8000;

/// Visual classification for a scenery object.
#[derive(Debug, Clone, Copy, PartialEq, Eq, Hash, Structural)]
pub enum SceneryVisualKind {
    Grass,
    Runway,
    TreeTrunk,
    TreeCanopy,
    Pole,
    Marker,
    Fence,
    Windsock,
}

/// A named scenery configuration.
#[derive(Debug, Clone, Copy, PartialEq, Eq, Structural)]
pub enum SceneryPreset {
    /// No scenery at all.
    NoScenery,
    FlyingField,
}

/// Merged scenery mesh ready for GPU upload: all geometry in one vertex/index
/// buffer pair, drawn in one call.
#[derive(Debug, Clone, PartialEq)]
pub struct SceneryMesh<V> {
    pub vertices: Vec<V>,
    pub indices: Vec<u32>,
}

impl<V> SceneryMesh<V> {
    /// Number of triangles in the merged mesh (`indices.len() / 3`).
    pub fn triangle_count(&self) -> (count: usize)
        ensures
            count == self.indices@.len() / 3,
    {
        self.indices.len() / 3
    }
}

/// Indices offset by `base`.
pub open spec fn offset_indices(indices: Seq<u32>, base: int) -> Seq<u32> {
    indices.map_values(|index: u32| (index + base) as u32)
}

/// Append a mesh to a merged mesh: its vertices follow the existing ones and
/// its indices are offset by the number of vertices already merged.
pub fn merge_mesh<V: Copy>(
    dst_vertices: &mut Vec<V>,
    dst_indices: &mut Vec<u32>,
    src_vertices: &[V],
    src_indices: &[u32],
)
    requires
        old(dst_vertices)@.len() <= u32::MAX,
        forall|k: int| 0 <= k < src_indices@.len() ==> #[trigger] src_indices@[k] + old(dst_vertices)@.len()
            <= u32::MAX,
    ensures
        final(dst_vertices)@ == old(dst_vertices)@ + src_vertices@,
        final(dst_indices)@ == old(dst_indices)@ + offset_indices(src_indices@, old(dst_vertices)@.len() as int),
{
    let base = dst_vertices.len() as u32;
    let ghost start_vertices = dst_vertices@;
    let ghost start_indices = dst_indices@;
    let mut v: usize = 0;
    while v < src_vertices.len()
        invariant
            v <= src_vertices@.len(),
            dst_vertices@ == start_vertices + src_vertices@.subrange(0, v as int),
        decreases src_vertices@.len() - v,
    {
        dst_vertices.push(src_vertices[v]);
        proof {
            assert(src_vertices@.subrange(0, v + 1) =~= src_vertices@.subrange(0, v as int).push(
                src_vertices@[v as int],
            ));
        }
        v += 1;
    }
    let mut k: usize = 0;
    while k < src_indices.len()
        invariant
            k <= src_indices@.len(),
            base == start_vertices.len(),
            forall|j: int| 0 <= j < src_indices@.len() ==> #[trigger] src_indices@[j] + start_vertices.len()
                <= u32::MAX,
            dst_indices@ == start_indices + offset_indices(src_indices@.subrange(0, k as int), base as int),
        decreases src_indices@.len() - k,
    {
        dst_indices.push(src_indices[k] + base);
        proof {
            assert(offset_indices(src_indices@.subrange(0, k + 1), base as int) =~= offset_indices(
                src_indices@.subrange(0, k as int),
                base as int,
            ).push((src_indices@[k as int] + base) as u32));
        }
        k += 1;
    }
    proof {
        assert(src_vertices@.subrange(0, src_vertices@.len() as int) =~= src_vertices@);
        assert(src_indices@.subrange(0, src_indices@.len() as int) =~= src_indices@);
    }
}

/// The 64-bit mixing function of the deterministic layout hash.
pub open spec fn spec_scramble(x: u64) -> u64 {
    let a = vstd::wrapping::u64_specs::wrapping_mul(x, 0x517cc1b727220a95);
    let b = a ^ (a >> 32u64);
    let c = vstd::wrapping::u64_specs::wrapping_mul(b, 0x6c62272e07bb0142);
    c ^ (c >> 32u64)
}

/// Mix a 64-bit value (multiply, fold the high half, twice).
pub fn scramble(x: u64) -> (mixed: u64)
    ensures
        mixed == spec_scramble(x),
{
    let mut x = x.wrapping_mul(0x517cc1b727220a95);
    x ^= x >> 32;
    x = x.wrapping_mul(0x6c62272e07bb0142);
    x ^= x >> 32;
    x
}

/// Multiplier of the placement generator's linear congruential step.
pub const PLACEMENT_LCG_MULTIPLIER: u64 = 6364136223846793005;

/// One step of the placement generator: multiply and add one, wrapping.
pub open spec fn spec_placement_step(state: u64) -> u64 {
    vstd::wrapping::u64_specs::wrapping_add(
        vstd::wrapping::u64_specs::wrapping_mul(state, PLACEMENT_LCG_MULTIPLIER),
        1,
    )
}

/// Advance the placement generator's state (also used to seed it).
pub fn next_placement_state(state: u64) -> (next: u64)
    ensures
        next == spec_placement_step(state),
{
    state.wrapping_mul(PLACEMENT_LCG_MULTIPLIER).wrapping_add(1)
}

/// The pair of layout hashes drawn for one candidate position and the state
/// after drawing them: the hash of the current state, then the hash of the
/// next one.
pub fn draw_position_hashes(state: u64) -> (drawn: (u64, u64, u64))
    ensures
        drawn.0 == spec_scramble(state),
        drawn.1 == spec_scramble(spec_placement_step(state)),
        drawn.2 == spec_placement_step(spec_placement_step(state)),
{
    let hash_x = scramble(state);
    let state = next_placement_state(state);
    let hash_z = scramble(state);
    let state = next_placement_state(state);
    (hash_x, hash_z, state)
}

} // verus!
