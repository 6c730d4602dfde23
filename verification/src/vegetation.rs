//! Production vegetation: debug modes, presentation counters, the
//! seed-only random source that placement draws from, the
//! per-instance visibility decision with LOD hysteresis, and the per-frame
//! grouping of visible instances into (asset, LOD) draw batches.
//!
//! Batching is a stable counting sort: the visible instances of each batch
//! group are contiguous, keep their culling order, and the `(start, count)`
//! pair of every group is published next to them.

use vstd::prelude::*;
use vstd::string::StringSliceAdditionalSpecFns;

verus! {

/// Number of LOD classes.
pub const LOD_COUNT: usize = 3;
/// Render parts per LOD (bark + foliage).
pub const PART_COUNT: usize = 2;
/// Batch groups: one per (asset, LOD), three production assets.
pub const GROUP_COUNT: usize = 9;
/// Default vegetation seed.
pub const DEFAULT_VEGETATION_SEED: u64 = 42;

// ── Debug modes ────────────────────────────────────────────────────────────

/// Vegetation debug presentation mode.
#[derive(Debug, Clone, Copy, PartialEq, Eq, Default, Structural)]
pub enum VegetationDebugMode {
    /// Full lit production path (default).
    #[default]
    Final,
    /// Color-code LOD classes per instance.
    Lod,
    /// No visual change; periodically log visibility counters.
    Culling,
}

/// Shader-side code of a debug mode.
pub open spec fn debug_mode_code(mode: VegetationDebugMode) -> u32 {
    match mode {
        VegetationDebugMode::Final => 0,
        VegetationDebugMode::Lod => 1,
        VegetationDebugMode::Culling => 2,
    }
}

/// CLI/config label of a debug mode.
pub open spec fn debug_mode_label(mode: VegetationDebugMode) -> Seq<char> {
    match mode {
        VegetationDebugMode::Final => "final"@,
        VegetationDebugMode::Lod => "lod"@,
        VegetationDebugMode::Culling => "culling"@,
    }
}

/// Text equality, decided on the UTF-8 encodings.
pub(crate) fn same_text(a: &str, b: &str) -> (same: bool)
    ensures
        same == (a@ == b@),
{
    let a_bytes = a.as_bytes();
    let b_bytes = b.as_bytes();
    proof {
        vstd::utf8::encode_utf8_decode_utf8(a@);
        vstd::utf8::encode_utf8_decode_utf8(b@);
    }
    if a_bytes.len() != b_bytes.len() {
        return false;
    }
    let mut i: usize = 0;
    while i < a_bytes.len()
        invariant
            a_bytes@ == a.spec_bytes(),
            b_bytes@ == b.spec_bytes(),
            a_bytes@.len() == b_bytes@.len(),
            i <= a_bytes@.len(),
            forall|k: int| 0 <= k < i ==> a_bytes@[k] == b_bytes@[k],
        decreases a_bytes@.len() - i,
    {
        if a_bytes[i] != b_bytes[i] {
            return false;
        }
        i += 1;
    }
    proof {
        assert(a_bytes@ =~= b_bytes@);
    }
    true
}

impl VegetationDebugMode {
    /// Shader-side code: 0 final, 1 LOD, 2 culling.
    pub fn as_u32(self) -> (code: u32)
        ensures
            code == debug_mode_code(self),
    {
        match self {
            VegetationDebugMode::Final => 0,
            VegetationDebugMode::Lod => 1,
            VegetationDebugMode::Culling => 2,
        }
    }

    /// CLI/config label.
    pub fn label(self) -> (label: &'static str)
        ensures
            label@ == debug_mode_label(self),
    {
        match self {
            VegetationDebugMode::Final => "final",
            VegetationDebugMode::Lod => "lod",
            VegetationDebugMode::Culling => "culling",
        }
    }

    /// Parse a CLI/config label: the mode whose label it is, if any.
    pub fn from_label(label: &str) -> (mode: Option<Self>)
        ensures
            match mode {
                Some(m) => debug_mode_label(m) == label@,
                None => forall|m: VegetationDebugMode| debug_mode_label(m) != label@,
            },
    {
        if same_text(label, "final") {
            Some(VegetationDebugMode::Final)
        } else if same_text(label, "lod") {
            Some(VegetationDebugMode::Lod)
        } else if same_text(label, "culling") {
            Some(VegetationDebugMode::Culling)
        } else {
            proof {
                assert forall|m: VegetationDebugMode| debug_mode_label(m) != label@ by {
                    match m {
                        VegetationDebugMode::Final => {},
                        VegetationDebugMode::Lod => {},
                        VegetationDebugMode::Culling => {},
                    }
                }
            }
            None
        }
    }
}

/// Law: parsing the label of a mode gives the mode back (labels are distinct).
pub proof fn law_debug_labels_are_distinct(first: VegetationDebugMode, second: VegetationDebugMode)
    ensures
        debug_mode_label(first) == debug_mode_label(second) ==> first == second,
{
    reveal_strlit("final");
    reveal_strlit("lod");
    reveal_strlit("culling");
    if debug_mode_label(first) == debug_mode_label(second) {
        match (first, second) {
            (VegetationDebugMode::Final, VegetationDebugMode::Lod) => {
                assert(debug_mode_label(first).len() != debug_mode_label(second).len());
            },
            (VegetationDebugMode::Lod, VegetationDebugMode::Final) => {
                assert(debug_mode_label(first).len() != debug_mode_label(second).len());
            },
            (VegetationDebugMode::Final, VegetationDebugMode::Culling) => {
                assert(debug_mode_label(first).len() != debug_mode_label(second).len());
            },
            (VegetationDebugMode::Culling, VegetationDebugMode::Final) => {
                assert(debug_mode_label(first).len() != debug_mode_label(second).len());
            },
            (VegetationDebugMode::Lod, VegetationDebugMode::Culling) => {
                assert(debug_mode_label(first).len() != debug_mode_label(second).len());
            },
            (VegetationDebugMode::Culling, VegetationDebugMode::Lod) => {
                assert(debug_mode_label(first).len() != debug_mode_label(second).len());
            },
            _ => {},
        }
    }
}

// ── LOD hysteresis ─────────────────────────────────────────────────────────

/// Where an instance's camera distance lies relative to the hysteresis
/// thresholds of the LOD policy (each threshold scaled by one plus or minus
/// the hysteresis band).
#[derive(Debug, Clone, Copy, PartialEq, Eq, Structural)]
pub struct LodBandPosition {
    /// Farther than the LOD0 exit threshold.
    pub beyond_lod0_exit: bool,
    /// Nearer than the LOD0 entry threshold.
    pub within_lod0_enter: bool,
    /// Farther than the LOD1 exit threshold.
    pub beyond_lod1_exit: bool,
    /// Nearer than the LOD1 entry threshold.
    pub within_lod1_enter: bool,
}

/// The LOD class after one visibility update.
pub open spec fn spec_next_lod(current: u8, position: LodBandPosition) -> u8 {
    if current == 0 {
        if position.beyond_lod0_exit {
            1
        } else {
            0
        }
    } else if current == 1 {
        if position.within_lod0_enter {
            0
        } else if position.beyond_lod1_exit {
            2
        } else {
            1
        }
    } else {
        if position.within_lod1_enter {
            1
        } else {
            2
        }
    }
}

/// Nominal LOD class by thresholds, without hysteresis (first frame only).
pub fn initial_lod(below_lod0_max: bool, below_lod1_max: bool) -> (lod: u8)
    ensures
        lod == if below_lod0_max {
            0u8
        } else if below_lod1_max {
            1u8
        } else {
            2u8
        },
{
    if below_lod0_max {
        0
    } else if below_lod1_max {
        1
    } else {
        2
    }
}

/// Hysteresis-aware LOD transition: an instance keeps its class unless its
/// distance leaves the class band; entering a cheaper class needs the exit
/// threshold, returning to a richer class needs the entry threshold.
pub fn next_lod(current: u8, position: LodBandPosition) -> (lod: u8)
    ensures
        lod == spec_next_lod(current, position),
        lod <= 2,
{
    match current {
        0 => {
            if position.beyond_lod0_exit {
                1
            } else {
                0
            }
        },
        1 => {
            if position.within_lod0_enter {
                0
            } else if position.beyond_lod1_exit {
                2
            } else {
                1
            }
        },
        _ => {
            if position.within_lod1_enter {
                1
            } else {
                2
            }
        },
    }
}

/// Law: one update moves an instance by at most one LOD class, and an
/// instance whose distance stays inside its band keeps its class.
pub proof fn law_lod_transitions_step_by_at_most_one(current: u8, position: LodBandPosition)
    requires
        current <= 2,
    ensures
        -1 <= spec_next_lod(current, position) - current <= 1,
        (current == 0 && !position.beyond_lod0_exit) ==> spec_next_lod(current, position) == 0,
        (current == 1 && !position.within_lod0_enter && !position.beyond_lod1_exit) ==> spec_next_lod(
            current,
            position,
        ) == 1,
        (current == 2 && !position.within_lod1_enter) ==> spec_next_lod(current, position) == 2,
{
}

// ── Counters ───────────────────────────────────────────────────────────────

/// Per-frame vegetation visibility counters, presentation-only.
#[derive(Debug, Clone, Copy, PartialEq, Eq, Default)]
pub struct VegetationFrameStats {
    pub total: u32,
    pub visible: u32,
    pub culled_frustum: u32,
    pub culled_distance: u32,
    pub lod_counts: [u32; 3],
    /// Scene-pass draw calls (active groups × parts).
    pub scene_draw_calls: u32,
    /// Shadow-pass draw calls (active LOD0/1 groups × parts).
    pub shadow_draw_calls: u32,
}

impl VegetationFrameStats {
    /// Total culled (frustum + distance) for reporting.
    pub fn culled_total(&self) -> (culled: u32)
        requires
            self.culled_frustum + self.culled_distance <= u32::MAX,
        ensures
            culled == self.culled_frustum + self.culled_distance,
    {
        self.culled_frustum + self.culled_distance
    }
}

// ── Deterministic generator ────────────────────────────────────────────────

/// SplitMix64 increment.
pub const SPLITMIX_GAMMA: u64 = 0x9e37_79b9_7f4a_7c15;

/// SplitMix64 output function of a state.
pub open spec fn splitmix_output(state: u64) -> u64 {
    let z1 = vstd::wrapping::u64_specs::wrapping_mul(state ^ (state >> 30u64), 0xbf58_476d_1ce4_e5b9);
    let z2 = vstd::wrapping::u64_specs::wrapping_mul(z1 ^ (z1 >> 27u64), 0x94d0_49bb_1331_11eb);
    z2 ^ (z2 >> 31u64)
}

/// Deterministic PRNG (SplitMix64). Pure, seed-based, no external state.
#[derive(Debug, Clone, Copy)]
pub struct DeterministicRng {
    state: u64,
}

impl DeterministicRng {
    /// The generator's current state.
    pub closed spec fn state(self) -> u64 {
        self.state
    }

    /// A generator whose state is the seed.
    pub fn new(seed: u64) -> (rng: Self)
        ensures
            rng.state() == seed,
    {
        DeterministicRng { state: seed }
    }

    /// Advance the state by the SplitMix64 increment and return the mixed state.
    pub fn next_u64(&mut self) -> (value: u64)
        ensures
            final(self).state() == vstd::wrapping::u64_specs::wrapping_add(old(self).state(), SPLITMIX_GAMMA),
            value == splitmix_output(final(self).state()),
    {
        self.state = self.state.wrapping_add(SPLITMIX_GAMMA);
        let mut z = self.state;
        z = (z ^ (z >> 30)).wrapping_mul(0xbf58_476d_1ce4_e5b9);
        z = (z ^ (z >> 27)).wrapping_mul(0x94d0_49bb_1331_11eb);
        z ^ (z >> 31)
    }
}

/// State of a generator seeded with `seed` after `calls` calls of `next_u64`.
pub open spec fn rng_state_after(seed: u64, calls: nat) -> u64
    decreases calls,
{
    if calls == 0 {
        seed
    } else {
        vstd::wrapping::u64_specs::wrapping_add(rng_state_after(seed, (calls - 1) as nat), SPLITMIX_GAMMA)
    }
}

/// Value returned by call number `call` (counting from zero) of `next_u64` on
/// a generator seeded with `seed`.
pub open spec fn rng_output(seed: u64, call: nat) -> u64 {
    splitmix_output(rng_state_after(seed, call + 1))
}

/// The sequence is a function of the seed: a generator that `new(seed)`
/// made and that has been called `calls` times holds
/// `rng_state_after(seed, calls)`, and one more `next_u64` (as its contract
/// states it) moves it to `rng_state_after(seed, calls + 1)` and returns
/// `rng_output(seed, calls)`. Two generators built from one seed therefore
/// return the same value at every call.
pub proof fn law_rng_sequence_is_a_function_of_the_seed(
    seed: u64,
    calls: nat,
    before: DeterministicRng,
    after: DeterministicRng,
    value: u64,
)
    requires
        before.state() == rng_state_after(seed, calls),
        after.state() == vstd::wrapping::u64_specs::wrapping_add(before.state(), SPLITMIX_GAMMA),
        value == splitmix_output(after.state()),
    ensures
        rng_state_after(seed, 0) == seed,
        after.state() == rng_state_after(seed, calls + 1),
        value == rng_output(seed, calls),
{
}

/// Seeding with `seed + gamma` (wrapping) gives the sequence of `seed` with
/// its first value dropped: SplitMix64 advances its state by the fixed gamma
/// per call and reads its output from the state alone.
pub proof fn law_rng_seed_shift_skips_one_call(seed: u64, calls: nat)
    ensures
        rng_state_after(vstd::wrapping::u64_specs::wrapping_add(seed, SPLITMIX_GAMMA), calls)
            == rng_state_after(seed, calls + 1),
        rng_output(vstd::wrapping::u64_specs::wrapping_add(seed, SPLITMIX_GAMMA), calls) == rng_output(
            seed,
            calls + 1,
        ),
{
    lemma_rng_shifted_state(seed, calls);
    lemma_rng_shifted_state(seed, calls + 1);
}

proof fn lemma_rng_shifted_state(seed: u64, calls: nat)
    ensures
        rng_state_after(vstd::wrapping::u64_specs::wrapping_add(seed, SPLITMIX_GAMMA), calls)
            == rng_state_after(seed, calls + 1),
    decreases calls,
{
    let shifted = vstd::wrapping::u64_specs::wrapping_add(seed, SPLITMIX_GAMMA);
    assert(rng_state_after(seed, 0) == seed);
    if calls > 0 {
        lemma_rng_shifted_state(seed, (calls - 1) as nat);
        assert(rng_state_after(shifted, calls) == vstd::wrapping::u64_specs::wrapping_add(
            rng_state_after(shifted, (calls - 1) as nat),
            SPLITMIX_GAMMA,
        ));
        assert(rng_state_after(seed, calls + 1) == vstd::wrapping::u64_specs::wrapping_add(
            rng_state_after(seed, calls),
            SPLITMIX_GAMMA,
        ));
    } else {
        assert(rng_state_after(seed, 1) == vstd::wrapping::u64_specs::wrapping_add(
            rng_state_after(seed, 0),
            SPLITMIX_GAMMA,
        ));
    }
}

// ── Batching ───────────────────────────────────────────────────────────────

/// Number of entries among the first `n` of `groups` that belong to group `g`.
pub open spec fn group_count(groups: Seq<usize>, g: int, n: int) -> nat
    decreases n,
{
    if n <= 0 {
        0
    } else {
        group_count(groups, g, n - 1) + if groups[n - 1] == g {
            1nat
        } else {
            0nat
        }
    }
}

/// Number of entries among the first `n` of `groups` whose group is below `g`.
pub open spec fn groups_below(groups: Seq<usize>, g: int, n: int) -> nat
    decreases n,
{
    if n <= 0 {
        0
    } else {
        groups_below(groups, g, n - 1) + if groups[n - 1] < g {
            1nat
        } else {
            0nat
        }
    }
}

/// Batch layout: `ranges[2g]` is where group `g` starts and `ranges[2g + 1]`
/// how many visible instances it holds; `sorted` lists, for each group in
/// turn, its instances in the order they were culled.
pub open spec fn is_batch_layout<T>(items: Seq<T>, groups: Seq<usize>, sorted: Seq<T>, ranges: Seq<u32>) -> bool {
    let n = items.len() as int;
    &&& sorted.len() == items.len()
    &&& ranges.len() == 2 * GROUP_COUNT
    &&& forall|g: int|
        0 <= g < GROUP_COUNT ==> #[trigger] ranges[2 * g] == groups_below(groups, g, n) && ranges[2 * g
            + 1] == group_count(groups, g, n)
    &&& forall|i: int| 0 <= i < n ==> sorted[batch_slot(groups, i, n)] == #[trigger] items[i]
}

/// Where the `k`-th visible instance lands: after every instance of an earlier
/// group, and after the instances of its own group that precede it.
pub open spec fn batch_slot(groups: Seq<usize>, k: int, n: int) -> int {
    (groups_below(groups, groups[k] as int, n) + group_count(groups, groups[k] as int, k)) as int
}

proof fn lemma_counts_step(groups: Seq<usize>, g: int, n: int)
    requires
        n >= 1,
    ensures
        group_count(groups, g, n) == group_count(groups, g, n - 1) + if groups[n - 1] == g { 1nat } else { 0nat },
        groups_below(groups, g, n) == groups_below(groups, g, n - 1) + if groups[n - 1] < g { 1nat } else { 0nat },
{
}

proof fn lemma_counts_bound(groups: Seq<usize>, g: int, n: int)
    requires
        n >= 0,
    ensures
        group_count(groups, g, n) <= n,
        groups_below(groups, g, n) <= n,
        groups_below(groups, g, n) + group_count(groups, g, n) == groups_below(groups, g + 1, n),
        group_count(groups, g, n) + groups_below(groups, g, n) <= n,
    decreases n,
{
    if n > 0 {
        lemma_counts_bound(groups, g, n - 1);
    }
}

proof fn lemma_below_monotone(groups: Seq<usize>, g: int, h: int, n: int)
    requires
        n >= 0,
        g <= h,
    ensures
        groups_below(groups, g, n) <= groups_below(groups, h, n),
    decreases n,
{
    if n > 0 {
        lemma_below_monotone(groups, g, h, n - 1);
    }
}

proof fn lemma_below_zero(groups: Seq<usize>, n: int)
    requires
        n >= 0,
    ensures
        groups_below(groups, 0, n) == 0,
    decreases n,
{
    if n > 0 {
        lemma_below_zero(groups, n - 1);
    }
}

proof fn lemma_below_all(groups: Seq<usize>, n: int)
    requires
        0 <= n <= groups.len(),
        forall|i: int| 0 <= i < n ==> groups[i] < GROUP_COUNT,
    ensures
        groups_below(groups, GROUP_COUNT as int, n) == n,
    decreases n,
{
    if n > 0 {
        lemma_below_all(groups, n - 1);
    }
}

/// Group the visible instances into contiguous batches by group (stable
/// counting sort) and publish each group's `(start, count)` range.
#[verifier::spinoff_prover]
#[verifier::rlimit(30)]
pub fn batch_by_group<T: Copy>(items: &[T], groups: &[usize]) -> (result: (Vec<T>, [u32; 18]))
    requires
        items@.len() == groups@.len(),
        items@.len() <= u32::MAX,
        forall|i: int| 0 <= i < groups@.len() ==> #[trigger] groups@[i] < GROUP_COUNT,
    ensures
        is_batch_layout(items@, groups@, result.0@, result.1@),
{
    let n = items.len();
    let ghost gs = groups@;
    // Count each group.
    let mut counts: [u32; 9] = [0; 9];
    let mut i: usize = 0;
    while i < n
        invariant
            n == items@.len(),
            n == gs.len(),
            gs == groups@,
            n <= u32::MAX,
            i <= n,
            forall|k: int| 0 <= k < n ==> #[trigger] gs[k] < GROUP_COUNT,
            forall|g: int| 0 <= g < GROUP_COUNT ==> #[trigger] counts@[g] == group_count(gs, g, i as int),
        decreases n - i,
    {
        let g = groups[i];
        proof {
            lemma_counts_bound(gs, g as int, i as int);
            assert forall|h: int| 0 <= h < GROUP_COUNT implies #[trigger] group_count(gs, h, i + 1)
                == group_count(gs, h, i as int) + if gs[i as int] == h { 1nat } else { 0nat } by {
                lemma_counts_step(gs, h, i + 1);
            }
        }
        counts[g] = counts[g] + 1;
        i += 1;
    }
    // Prefix sums -> per-group ranges.
    let mut ranges: [u32; 18] = [0; 18];
    let mut base: u32 = 0;
    proof {
        lemma_below_zero(gs, n as int);
    }
    let mut g: usize = 0;
    while g < GROUP_COUNT
        invariant
            n == gs.len(),
            n <= u32::MAX,
            g <= GROUP_COUNT,
            forall|k: int| 0 <= k < n ==> #[trigger] gs[k] < GROUP_COUNT,
            forall|h: int| 0 <= h < GROUP_COUNT ==> #[trigger] counts@[h] == group_count(gs, h, n as int),
            base == groups_below(gs, g as int, n as int),
            forall|h: int|
                0 <= h < g ==> #[trigger] ranges@[2 * h] == groups_below(gs, h, n as int) && ranges@[2 * h
                    + 1] == group_count(gs, h, n as int),
        decreases GROUP_COUNT - g,
    {
        proof {
            lemma_counts_bound(gs, g as int, n as int);
        }
        let ghost prev_ranges = ranges@;
        ranges[2 * g] = base;
        ranges[2 * g + 1] = counts[g];
        proof {
            assert(ranges@[2 * g as int] == groups_below(gs, g as int, n as int));
            assert(ranges@[2 * g as int + 1] == group_count(gs, g as int, n as int));
            assert forall|h: int| 0 <= h < g + 1 implies #[trigger] ranges@[2 * h] == groups_below(gs, h, n as int)
                && ranges@[2 * h + 1] == group_count(gs, h, n as int) by {
                if h < g {
                    assert(ranges@[2 * h] == prev_ranges[2 * h]);
                    assert(ranges@[2 * h + 1] == prev_ranges[2 * h + 1]);
                }
            }
        }
        base = base + counts[g];
        g += 1;
    }
    // Scatter each instance to its group's cursor.
    let mut sorted: Vec<T> = Vec::new();
    let mut fill: usize = 0;
    while fill < n
        invariant
            fill <= n,
            n == items@.len(),
            sorted@.len() == fill,
        decreases n - fill,
    {
        sorted.push(items[fill]);
        fill += 1;
    }
    let mut cursors: [u32; 9] = [0; 9];
    let mut c: usize = 0;
    while c < GROUP_COUNT
        invariant
            c <= GROUP_COUNT,
            forall|h: int| 0 <= h < GROUP_COUNT ==> (#[trigger] ranges@[2 * h]) == groups_below(gs, h, n as int),
            forall|h: int| 0 <= h < c ==> #[trigger] cursors@[h] == ranges@[2 * h],
        decreases GROUP_COUNT - c,
    {
        cursors[c] = ranges[2 * c];
        c += 1;
    }
    let mut i: usize = 0;
    while i < n
        invariant
            n == items@.len(),
            n == gs.len(),
            gs == groups@,
            n <= u32::MAX,
            i <= n,
            sorted@.len() == n,
            forall|k: int| 0 <= k < n ==> #[trigger] gs[k] < GROUP_COUNT,
            forall|h: int|
                0 <= h < GROUP_COUNT ==> #[trigger] cursors@[h] == groups_below(gs, h, n as int) + group_count(
                    gs,
                    h,
                    i as int,
                ),
            forall|k: int| 0 <= k < i ==> sorted@[batch_slot(gs, k, n as int)] == #[trigger] items@[k],
            forall|k: int| #![trigger gs[k]]
                0 <= k < i ==> groups_below(gs, gs[k] as int, n as int) + group_count(gs, gs[k] as int, k)
                    < groups_below(gs, gs[k] as int, n as int) + group_count(gs, gs[k] as int, i as int),
        decreases n - i,
    {
        let g = groups[i];
        let slot = cursors[g];
        proof {
            lemma_counts_bound(gs, g as int, n as int);
            lemma_counts_bound(gs, g as int + 1, n as int);
            lemma_below_monotone(gs, g as int + 1, GROUP_COUNT as int, n as int);
            lemma_below_all(gs, n as int);
            lemma_group_count_prefix(gs, g as int, i as int + 1, n as int);
            lemma_counts_step(gs, g as int, i as int + 1);
            assert(slot < n);
            assert(slot == groups_below(gs, g as int, n as int) + group_count(gs, g as int, i as int));
        }
        let ghost prev = sorted@;
        sorted.set(slot as usize, items[i]);
        cursors[g] = slot + 1;
        proof {
            assert forall|h: int| 0 <= h < GROUP_COUNT implies #[trigger] cursors@[h] == groups_below(
                gs,
                h,
                n as int,
            ) + group_count(gs, h, i as int + 1) by {
                lemma_counts_step(gs, h, i as int + 1);
            }
            assert forall|k: int| #![trigger gs[k]]
                0 <= k < i + 1 implies groups_below(gs, gs[k] as int, n as int) + group_count(
                    gs,
                    gs[k] as int,
                    k,
                ) < groups_below(gs, gs[k] as int, n as int) + group_count(gs, gs[k] as int, i as int + 1) by {
                lemma_counts_step(gs, gs[k] as int, i as int + 1);
            }
            assert forall|k: int| 0 <= k < i + 1 implies sorted@[batch_slot(gs, k, n as int)] == #[trigger] items@[k] by {
                if k < i {
                    if gs[k] != g {
                        lemma_distinct_groups_distinct_slots(gs, gs[k] as int, g as int, k, i as int, n as int);
                    }
                    lemma_slot_in_range(gs, k, n as int);
                    assert(batch_slot(gs, k, n as int) != slot);
                    assert(prev[batch_slot(gs, k, n as int)] == items@[k]);
                } else {
                    assert(batch_slot(gs, k, n as int) == slot);
                }
            }
        }
        i += 1;
    }
    (sorted, ranges)
}

/// Every instance's slot lies inside the sorted output.
proof fn lemma_slot_in_range(groups: Seq<usize>, k: int, n: int)
    requires
        0 <= k < n,
        groups.len() == n,
        forall|i: int| 0 <= i < n ==> #[trigger] groups[i] < GROUP_COUNT,
    ensures
        0 <= batch_slot(groups, k, n) < n,
{
    let g = groups[k] as int;
    lemma_group_count_prefix(groups, g, k + 1, n);
    lemma_counts_step(groups, g, k + 1);
    lemma_counts_bound(groups, g, n);
    lemma_below_monotone(groups, g + 1, GROUP_COUNT as int, n);
    lemma_below_all(groups, n);
}

proof fn lemma_group_count_prefix(groups: Seq<usize>, g: int, m: int, n: int)
    requires
        0 <= m <= n,
    ensures
        group_count(groups, g, m) <= group_count(groups, g, n),
    decreases n - m,
{
    if m < n {
        lemma_group_count_prefix(groups, g, m, n - 1);
    }
}

/// Slots of different groups never collide: each group's slots stay below
/// the start of every later group.
proof fn lemma_distinct_groups_distinct_slots(groups: Seq<usize>, g: int, h: int, k: int, i: int, n: int)
    requires
        0 <= k < i < n,
        groups.len() == n,
        g != h,
        0 <= g < GROUP_COUNT,
        0 <= h < GROUP_COUNT,
        groups[k] == g,
        groups[i] == h,
    ensures
        groups_below(groups, g, n) + group_count(groups, g, k) != groups_below(groups, h, n)
            + group_count(groups, h, i),
{
    lemma_group_count_prefix(groups, g, k, n);
    lemma_group_count_prefix(groups, h, i, n);
    lemma_counts_bound(groups, g, n);
    lemma_counts_bound(groups, h, n);
    lemma_group_count_prefix(groups, g, k + 1, n);
    lemma_group_count_prefix(groups, h, i + 1, n);
    lemma_counts_step(groups, g, k + 1);
    lemma_counts_step(groups, h, i + 1);
    if g < h {
        lemma_below_monotone(groups, g + 1, h, n);
    } else {
        lemma_below_monotone(groups, h + 1, g, n);
    }
}

/// Law: the published batch ranges tile the visible list. The first group
/// starts at 0, each group starts where the previous one ends, and the last
/// one ends at the number of visible instances.
pub proof fn law_batch_ranges_tile_the_visible_list<T>(
    items: Seq<T>,
    groups: Seq<usize>,
    sorted: Seq<T>,
    ranges: Seq<u32>,
)
    requires
        items.len() == groups.len(),
        forall|i: int| 0 <= i < groups.len() ==> #[trigger] groups[i] < GROUP_COUNT,
        is_batch_layout(items, groups, sorted, ranges),
    ensures
        ranges[0] == 0,
        forall|g: int| 0 <= g < GROUP_COUNT - 1 ==> #[trigger] ranges[2 * g] + ranges[2 * g + 1] == ranges[2 * (g + 1)],
        ranges[2 * (GROUP_COUNT - 1)] + ranges[2 * (GROUP_COUNT - 1) + 1] == sorted.len(),
{
    let n = items.len() as int;
    lemma_below_zero(groups, n);
    assert(ranges[2 * 0int] == groups_below(groups, 0, n));
    assert forall|g: int| 0 <= g < GROUP_COUNT - 1 implies #[trigger] ranges[2 * g] + ranges[2 * g + 1]
        == ranges[2 * (g + 1)] by {
        lemma_counts_bound(groups, g, n);
        assert(ranges[2 * (g + 1)] == groups_below(groups, g + 1, n));
    }
    lemma_counts_bound(groups, GROUP_COUNT - 1, n);
    lemma_below_all(groups, n);
    assert(ranges[2 * (GROUP_COUNT - 1)] == groups_below(groups, GROUP_COUNT - 1, n));
}

/// Scene and shadow draw calls of a batch layout: every non-empty group is
/// drawn once per part in the scene pass; only LOD0/LOD1 groups cast shadows.
pub open spec fn active_groups(ranges: Seq<u32>, upto: int, shadow_only: bool) -> nat
    decreases upto,
{
    if upto <= 0 {
        0
    } else {
        active_groups(ranges, upto - 1, shadow_only) + if ranges[2 * (upto - 1) + 1] > 0 && (!shadow_only
            || (upto - 1) % LOD_COUNT as int <= 1) {
            1nat
        } else {
            0nat
        }
    }
}

proof fn lemma_active_groups_bound(ranges: Seq<u32>, upto: int, shadow_only: bool)
    requires
        upto >= 0,
    ensures
        active_groups(ranges, upto, shadow_only) <= upto,
    decreases upto,
{
    if upto > 0 {
        lemma_active_groups_bound(ranges, upto - 1, shadow_only);
    }
}

/// Scene-pass and shadow-pass draw calls for a batch layout.
pub fn draw_calls(batch_ranges: &[u32; 18]) -> (calls: (u32, u32))
    ensures
        calls.0 == active_groups(batch_ranges@, GROUP_COUNT as int, false) * PART_COUNT,
        calls.1 == active_groups(batch_ranges@, GROUP_COUNT as int, true) * PART_COUNT,
{
    let mut active: u32 = 0;
    let mut shadow_active: u32 = 0;
    let mut group: usize = 0;
    while group < GROUP_COUNT
        invariant
            group <= GROUP_COUNT,
            active == active_groups(batch_ranges@, group as int, false),
            shadow_active == active_groups(batch_ranges@, group as int, true),
        decreases GROUP_COUNT - group,
    {
        proof {
            lemma_active_groups_bound(batch_ranges@, group as int, false);
            lemma_active_groups_bound(batch_ranges@, group as int, true);
        }
        let lod = group % LOD_COUNT;
        if batch_ranges[group * 2 + 1] > 0 {
            active += 1;
            if lod <= 1 {
                shadow_active += 1;
            }
        }
        group += 1;
    }
    proof {
        lemma_active_groups_bound(batch_ranges@, GROUP_COUNT as int, false);
        lemma_active_groups_bound(batch_ranges@, GROUP_COUNT as int, true);
    }
    (active * PART_COUNT as u32, shadow_active * PART_COUNT as u32)
}


// ── Per-frame visibility summary ───────────────────────────────────────────

/// What one visibility update decided for one placed instance.
#[derive(Debug, Clone, Copy, PartialEq, Eq, Structural)]
pub enum InstanceVisibility {
    /// Farther than the distance-cull range.
    CulledByDistance,
    /// Within range but outside the view frustum.
    CulledByFrustum,
    /// Drawn at the given LOD class.
    Visible { lod: u8 },
}

/// Outcome of one instance in a visibility update. The distance test comes
/// first, then the frustum test; only an instance that passes both takes a
/// hysteresis LOD step from its current class (a culled instance keeps it).
pub open spec fn spec_classify_instance(
    beyond_cull_distance: bool,
    intersects_frustum: bool,
    current_lod: u8,
    position: LodBandPosition,
) -> InstanceVisibility {
    if beyond_cull_distance {
        InstanceVisibility::CulledByDistance
    } else if !intersects_frustum {
        InstanceVisibility::CulledByFrustum
    } else {
        InstanceVisibility::Visible { lod: spec_next_lod(current_lod, position) }
    }
}

/// Classify one instance from its distance and frustum tests and its LOD
/// band position.
pub fn classify_instance(
    beyond_cull_distance: bool,
    intersects_frustum: bool,
    current_lod: u8,
    position: LodBandPosition,
) -> (outcome: InstanceVisibility)
    ensures
        outcome == spec_classify_instance(beyond_cull_distance, intersects_frustum, current_lod, position),
        outcome matches InstanceVisibility::Visible { lod } ==> lod < LOD_COUNT,
{
    if beyond_cull_distance {
        InstanceVisibility::CulledByDistance
    } else if !intersects_frustum {
        InstanceVisibility::CulledByFrustum
    } else {
        InstanceVisibility::Visible { lod: next_lod(current_lod, position) }
    }
}

/// Batch group of an (asset, LOD) pair.
pub fn group_index(asset_index: usize, lod: u8) -> (group: usize)
    requires
        asset_index < GROUP_COUNT / LOD_COUNT,
        lod < LOD_COUNT,
    ensures
        group == asset_index * LOD_COUNT + lod,
        group < GROUP_COUNT,
{
    asset_index * LOD_COUNT + lod as usize
}

/// Instances among the first `n` culled by distance.
pub open spec fn count_distance_culled(outcomes: Seq<InstanceVisibility>, n: int) -> nat
    decreases n,
{
    if n <= 0 {
        0
    } else {
        count_distance_culled(outcomes, n - 1) + if outcomes[n - 1] is CulledByDistance {
            1nat
        } else {
            0nat
        }
    }
}

/// Instances among the first `n` culled by the frustum.
pub open spec fn count_frustum_culled(outcomes: Seq<InstanceVisibility>, n: int) -> nat
    decreases n,
{
    if n <= 0 {
        0
    } else {
        count_frustum_culled(outcomes, n - 1) + if outcomes[n - 1] is CulledByFrustum {
            1nat
        } else {
            0nat
        }
    }
}

/// Instances among the first `n` drawn at LOD class `lod`.
pub open spec fn count_at_lod(outcomes: Seq<InstanceVisibility>, lod: int, n: int) -> nat
    decreases n,
{
    if n <= 0 {
        0
    } else {
        count_at_lod(outcomes, lod, n - 1) + if outcomes[n - 1] matches InstanceVisibility::Visible { lod: l }
            && l == lod {
            1nat
        } else {
            0nat
        }
    }
}

/// Instances among the first `n` that are drawn.
pub open spec fn count_visible(outcomes: Seq<InstanceVisibility>, n: int) -> nat
    decreases n,
{
    if n <= 0 {
        0
    } else {
        count_visible(outcomes, n - 1) + if outcomes[n - 1] is Visible {
            1nat
        } else {
            0nat
        }
    }
}

proof fn lemma_visibility_counts_partition(outcomes: Seq<InstanceVisibility>, n: int)
    requires
        0 <= n <= outcomes.len(),
        forall|i: int| 0 <= i < outcomes.len() ==> (#[trigger] outcomes[i] matches InstanceVisibility::Visible { lod }
            ==> lod < LOD_COUNT),
    ensures
        count_visible(outcomes, n) + count_frustum_culled(outcomes, n) + count_distance_culled(outcomes, n) == n,
        count_visible(outcomes, n) == count_at_lod(outcomes, 0, n) + count_at_lod(outcomes, 1, n) + count_at_lod(
            outcomes,
            2,
            n,
        ),
    decreases n,
{
    if n > 0 {
        lemma_visibility_counts_partition(outcomes, n - 1);
        let _ = outcomes[n - 1];
    }
}

/// The frame counters of one visibility update: how many instances were
/// placed, drawn, culled by distance and by the frustum, drawn at each LOD
/// class, and the scene and shadow draw calls of the published batches.
pub fn frame_stats(outcomes: &[InstanceVisibility], batch_ranges: &[u32; 18]) -> (stats: VegetationFrameStats)
    requires
        outcomes@.len() <= u32::MAX,
        forall|i: int| 0 <= i < outcomes@.len() ==> (#[trigger] outcomes@[i] matches InstanceVisibility::Visible {
            lod,
        } ==> lod < LOD_COUNT),
    ensures
        stats.total == outcomes@.len(),
        stats.visible == count_visible(outcomes@, outcomes@.len() as int),
        stats.culled_frustum == count_frustum_culled(outcomes@, outcomes@.len() as int),
        stats.culled_distance == count_distance_culled(outcomes@, outcomes@.len() as int),
        forall|lod: int| 0 <= lod < LOD_COUNT ==> #[trigger] stats.lod_counts@[lod] == count_at_lod(
            outcomes@,
            lod,
            outcomes@.len() as int,
        ),
        stats.scene_draw_calls == active_groups(batch_ranges@, GROUP_COUNT as int, false) * PART_COUNT,
        stats.shadow_draw_calls == active_groups(batch_ranges@, GROUP_COUNT as int, true) * PART_COUNT,
        stats.visible + stats.culled_frustum + stats.culled_distance == stats.total,
{
    let n = outcomes.len();
    let mut visible: u32 = 0;
    let mut culled_frustum: u32 = 0;
    let mut culled_distance: u32 = 0;
    let mut lod_counts: [u32; 3] = [0; 3];
    let mut i: usize = 0;
    while i < n
        invariant
            n == outcomes@.len(),
            n <= u32::MAX,
            i <= n,
            forall|k: int| 0 <= k < outcomes@.len() ==> (#[trigger] outcomes@[k] matches InstanceVisibility::Visible {
                lod,
            } ==> lod < LOD_COUNT),
            visible == count_visible(outcomes@, i as int),
            culled_frustum == count_frustum_culled(outcomes@, i as int),
            culled_distance == count_distance_culled(outcomes@, i as int),
            forall|lod: int| 0 <= lod < LOD_COUNT ==> #[trigger] lod_counts@[lod] == count_at_lod(outcomes@, lod, i as int),
        decreases n - i,
    {
        proof {
            lemma_visibility_counts_partition(outcomes@, i as int);
        }
        let outcome = outcomes[i];
        let ghost before = lod_counts@;
        match outcome {
            InstanceVisibility::CulledByDistance => {
                culled_distance = culled_distance + 1;
            },
            InstanceVisibility::CulledByFrustum => {
                culled_frustum = culled_frustum + 1;
            },
            InstanceVisibility::Visible { lod } => {
                visible = visible + 1;
                lod_counts[lod as usize] = lod_counts[lod as usize] + 1;
            },
        }
        proof {
            assert forall|lod: int| 0 <= lod < LOD_COUNT implies #[trigger] lod_counts@[lod] == count_at_lod(
                outcomes@,
                lod,
                i + 1,
            ) by {
                assert(before[lod] == count_at_lod(outcomes@, lod, i as int));
            }
        }
        i += 1;
    }
    proof {
        lemma_visibility_counts_partition(outcomes@, n as int);
    }
    let (scene_draw_calls, shadow_draw_calls) = draw_calls(batch_ranges);
    VegetationFrameStats {
        total: n as u32,
        visible,
        culled_frustum,
        culled_distance,
        lod_counts,
        scene_draw_calls,
        shadow_draw_calls,
    }
}

} // verus!
