//! Static render-pass dependency graph.
//!
//! The graph owns metadata and a deterministic schedule only. Physical GPU
//! resources remain explicitly owned by the renderer, and graph compilation
//! happens once during initialization.
//!
//! A compiled schedule is the greedy topological order of the declared passes:
//! at every step the earliest-declared pass whose producers have all been
//! scheduled runs next, so passes without a dependency between them keep their
//! declaration order.

use vstd::prelude::*;

use crate::search::{
    first_index, first_repeat, lemma_distinct_indices_cover, lemma_distinct_indices_miss,
    lemma_first_index, lemma_first_index_is, lemma_first_index_none, lemma_no_repeat,
    repeat_pred,
};

verus! {

/// The passes of the production frame.
#[derive(Debug, Clone, Copy, PartialEq, Eq, Hash, Structural)]
pub enum PassId {
    ShadowNear,
    ShadowMid,
    ShadowFar,
    Scene,
    Postprocess,
    /// Temporal history resolve, profiled like every other pass; the
    /// production graph does not schedule it yet.
    TemporalResolve,
}

/// Dense index of a pass.
pub open spec fn pass_rank(pass: PassId) -> nat {
    match pass {
        PassId::ShadowNear => 0,
        PassId::ShadowMid => 1,
        PassId::ShadowFar => 2,
        PassId::Scene => 3,
        PassId::Postprocess => 4,
        PassId::TemporalResolve => 5,
    }
}

/// Debug label of a pass.
pub open spec fn pass_label(pass: PassId) -> Seq<char> {
    match pass {
        PassId::ShadowNear => "G3E near cascade shadow depth pass"@,
        PassId::ShadowMid => "G3E mid cascade shadow depth pass"@,
        PassId::ShadowFar => "G3E far cascade shadow depth pass"@,
        PassId::Scene => "G1C scene pass"@,
        PassId::Postprocess => "G3B HDR postprocess pass"@,
        PassId::TemporalResolve => "RV2 temporal resolve pass"@,
    }
}

/// Stable snake-case identifier of a pass in the runtime audit.
pub open spec fn pass_audit_id(pass: PassId) -> Seq<char> {
    match pass {
        PassId::ShadowNear => "shadow_near"@,
        PassId::ShadowMid => "shadow_mid"@,
        PassId::ShadowFar => "shadow_far"@,
        PassId::Scene => "scene"@,
        PassId::Postprocess => "postprocess"@,
        PassId::TemporalResolve => "temporal_resolve"@,
    }
}

impl PassId {
    /// Number of production passes.
    pub const COUNT: usize = 6;

    /// Every pass, in index order.
    pub const ALL: [PassId; 6] = [
        PassId::ShadowNear,
        PassId::ShadowMid,
        PassId::ShadowFar,
        PassId::Scene,
        PassId::Postprocess,
        PassId::TemporalResolve,
    ];

    /// Identifier of this pass in the runtime audit.
    pub fn audit_id(self) -> (id: &'static str)
        ensures
            id@ == pass_audit_id(self),
    {
        match self {
            PassId::ShadowNear => "shadow_near",
            PassId::ShadowMid => "shadow_mid",
            PassId::ShadowFar => "shadow_far",
            PassId::Scene => "scene",
            PassId::Postprocess => "postprocess",
            PassId::TemporalResolve => "temporal_resolve",
        }
    }

    /// Dense, stable index of this pass.
    pub fn index(self) -> (index: usize)
        ensures
            index == pass_rank(self),
            index < Self::COUNT,
    {
        match self {
            PassId::ShadowNear => 0,
            PassId::ShadowMid => 1,
            PassId::ShadowFar => 2,
            PassId::Scene => 3,
            PassId::Postprocess => 4,
            PassId::TemporalResolve => 5,
        }
    }

    /// Debug label used for GPU markers and profiling output.
    pub fn label(self) -> (label: &'static str)
        ensures
            label@ == pass_label(self),
    {
        match self {
            PassId::ShadowNear => "G3E near cascade shadow depth pass",
            PassId::ShadowMid => "G3E mid cascade shadow depth pass",
            PassId::ShadowFar => "G3E far cascade shadow depth pass",
            PassId::Scene => "G1C scene pass",
            PassId::Postprocess => "G3B HDR postprocess pass",
            PassId::TemporalResolve => "RV2 temporal resolve pass",
        }
    }
}

/// Handle of a declared resource: its declaration index.
#[derive(Debug, Clone, Copy, PartialEq, Eq, Hash, Structural)]
pub struct ResourceId(pub usize);

/// Lifetime class of a declared resource.
#[derive(Debug, Clone, Copy, PartialEq, Eq, Structural)]
pub enum ResourceClass {
    Persistent,
    ResizeDependent,
    Transient,
}

/// One declared resource.
#[derive(Debug, Clone, Copy, PartialEq, Eq, Structural)]
pub struct ResourceDecl {
    pub class: ResourceClass,
    pub imported: bool,
}

/// One declared pass.
#[derive(Debug)]
pub struct PassDecl {
    id: PassId,
    reads: Vec<ResourceId>,
    writes: Vec<ResourceId>,
    explicit_dependencies: Vec<PassId>,
}

/// Mathematical model of a declared pass.
pub struct PassModel {
    pub id: PassId,
    pub reads: Seq<ResourceId>,
    pub writes: Seq<ResourceId>,
    pub deps: Seq<PassId>,
}

impl PassDecl {
    pub closed spec fn model(self) -> PassModel {
        PassModel {
            id: self.id,
            reads: self.reads@,
            writes: self.writes@,
            deps: self.explicit_dependencies@,
        }
    }
}

/// Mathematical model of a builder: its resources and passes in declaration order.
pub struct GraphModel {
    pub resources: Seq<ResourceDecl>,
    pub passes: Seq<PassModel>,
}

/// Reasons a graph declaration is rejected.
#[derive(Debug, Clone, PartialEq, Eq, Structural)]
pub enum GraphError {
    DuplicatePass(PassId),
    UnknownResource { pass: PassId, resource: ResourceId },
    ConflictingAccess { pass: PassId, resource: ResourceId },
    MultipleWriters { resource: ResourceId },
    ReadBeforeWrite { resource: ResourceId },
    UnknownPassDependency { pass: PassId, dependency: PassId },
    Cycle,
}

// ── Declaration-time validation ────────────────────────────────────────────

/// Well-formed declarations: distinct pass IDs and in-range resource handles.
pub open spec fn graph_wf(m: GraphModel) -> bool {
    &&& forall|i: int, j: int|
        0 <= i < j < m.passes.len() ==> (#[trigger] m.passes[i]).id != (#[trigger] m.passes[j]).id
    &&& forall|i: int, k: int|
        0 <= i < m.passes.len() && 0 <= k < m.passes[i].reads.len() ==> (
        #[trigger] m.passes[i].reads[k]).0 < m.resources.len()
    &&& forall|i: int, k: int|
        0 <= i < m.passes.len() && 0 <= k < m.passes[i].writes.len() ==> (
        #[trigger] m.passes[i].writes[k]).0 < m.resources.len()
}

/// Position `k` of `accesses` names a resource that was never declared.
pub open spec fn unknown_pred(accesses: Seq<ResourceId>, resource_count: nat) -> spec_fn(int) -> bool {
    |k: int| accesses[k].0 >= resource_count
}

/// Why `add_pass` would reject a pass, checked in the order the builder checks.
pub open spec fn add_pass_error(
    m: GraphModel,
    id: PassId,
    reads: Seq<ResourceId>,
    writes: Seq<ResourceId>,
) -> Option<GraphError> {
    let accesses = reads + writes;
    if exists|i: int| 0 <= i < m.passes.len() && (#[trigger] m.passes[i]).id == id {
        Some(GraphError::DuplicatePass(id))
    } else {
        match first_index(0, accesses.len() as int, unknown_pred(accesses, m.resources.len())) {
            Some(k) => Some(GraphError::UnknownResource { pass: id, resource: accesses[k] }),
            None => match first_repeat(accesses) {
                Some(k) => Some(GraphError::ConflictingAccess { pass: id, resource: accesses[k] }),
                None => None,
            },
        }
    }
}

// ── Compile-time validation ────────────────────────────────────────────────

/// Writes of the first `i` passes, in declaration order.
pub open spec fn writes_upto(passes: Seq<PassModel>, i: int) -> Seq<ResourceId>
    decreases i,
{
    if i <= 0 {
        Seq::empty()
    } else {
        writes_upto(passes, i - 1) + passes[i - 1].writes
    }
}

/// Every write of every pass, in declaration order.
pub open spec fn all_writes(passes: Seq<PassModel>) -> Seq<ResourceId> {
    writes_upto(passes, passes.len() as int)
}

/// Some pass writes `resource`.
pub open spec fn has_writer(passes: Seq<PassModel>, resource: ResourceId) -> bool {
    exists|u: int| 0 <= u < passes.len() && (#[trigger] passes[u]).writes.contains(resource)
}

/// A read with no writer of a non-imported resource.
pub open spec fn read_unsatisfied(m: GraphModel, resource: ResourceId) -> bool {
    !has_writer(m.passes, resource) && !m.resources[resource.0 as int].imported
}

/// An explicit dependency naming no declared pass.
pub open spec fn dependency_unknown(passes: Seq<PassModel>, dependency: PassId) -> bool {
    forall|u: int| 0 <= u < passes.len() ==> (#[trigger] passes[u]).id != dependency
}

pub open spec fn unsatisfied_read_pred(m: GraphModel, i: int) -> spec_fn(int) -> bool {
    |j: int| read_unsatisfied(m, m.passes[i].reads[j])
}

pub open spec fn unknown_dependency_pred(m: GraphModel, i: int) -> spec_fn(int) -> bool {
    |j: int| dependency_unknown(m.passes, m.passes[i].deps[j])
}

/// The first problem with pass `i`'s inputs: reads first, then dependencies.
pub open spec fn pass_input_error(m: GraphModel, i: int) -> Option<GraphError> {
    let pass = m.passes[i];
    match first_index(0, pass.reads.len() as int, unsatisfied_read_pred(m, i)) {
        Some(j) => Some(GraphError::ReadBeforeWrite { resource: pass.reads[j] }),
        None => match first_index(0, pass.deps.len() as int, unknown_dependency_pred(m, i)) {
            Some(j) => Some(GraphError::UnknownPassDependency { pass: pass.id, dependency: pass.deps[j] }),
            None => None,
        },
    }
}

pub open spec fn input_error_pred(m: GraphModel) -> spec_fn(int) -> bool {
    |i: int| pass_input_error(m, i) is Some
}

/// The error `compile` reports before scheduling, if any: a resource with two
/// writers first, then the first pass with an unsatisfiable input.
pub open spec fn validation_error(m: GraphModel) -> Option<GraphError> {
    match first_repeat(all_writes(m.passes)) {
        Some(k) => Some(GraphError::MultipleWriters { resource: all_writes(m.passes)[k] }),
        None => match first_index(0, m.passes.len() as int, input_error_pred(m)) {
            Some(i) => pass_input_error(m, i),
            None => None,
        },
    }
}

// ── Scheduling ─────────────────────────────────────────────────────────────

/// Pass `v` must run after pass `u`: it reads something `u` writes, or it
/// names `u` as an explicit dependency.
pub open spec fn depends_on(passes: Seq<PassModel>, u: int, v: int) -> bool {
    (exists|j: int|
        0 <= j < passes[v].reads.len() && passes[u].writes.contains(#[trigger] passes[v].reads[j]))
        || passes[v].deps.contains(passes[u].id)
}

/// Pass `v` may run once the passes in `placed` have run.
pub open spec fn ready(passes: Seq<PassModel>, placed: Seq<int>, v: int) -> bool {
    &&& 0 <= v < passes.len()
    &&& !placed.contains(v)
    &&& forall|u: int| 0 <= u < passes.len() && #[trigger] depends_on(passes, u, v) ==> placed.contains(u)
}

/// `order` lists every pass index once and runs each pass after the passes it depends on.
pub open spec fn is_topological_order(passes: Seq<PassModel>, order: Seq<int>) -> bool {
    &&& order.len() == passes.len()
    &&& order.no_duplicates()
    &&& forall|k: int| 0 <= k < order.len() ==> 0 <= #[trigger] order[k] < passes.len()
    &&& forall|a: int, b: int|
        0 <= a < order.len() && 0 <= b < order.len() && #[trigger] depends_on(passes, order[a], order[b])
            ==> a < b
}

/// Each entry of `order` is the earliest-declared pass that is ready at its step.
pub open spec fn is_greedy(passes: Seq<PassModel>, order: Seq<int>) -> bool {
    forall|k: int|
        0 <= k < order.len() ==> {
            &&& ready(passes, order.take(k), #[trigger] order[k])
            &&& forall|v: int| 0 <= v < order[k] ==> !ready(passes, order.take(k), v)
        }
}

/// The pass IDs of a schedule of pass indices.
pub open spec fn scheduled_ids(passes: Seq<PassModel>, order: Seq<int>) -> Seq<PassId> {
    order.map_values(|k: int| passes[k].id)
}

/// Some read of pass `v` among its first `bound` reads is written by pass `u`.
pub open spec fn reads_from_upto(passes: Seq<PassModel>, u: int, v: int, bound: int) -> bool {
    exists|j: int|
        0 <= j < bound && passes[u].writes.contains(#[trigger] passes[v].reads[j])
}

/// Pass `u` is among the first `bound` explicit dependencies of pass `v`.
pub open spec fn names_upto(passes: Seq<PassModel>, u: int, v: int, bound: int) -> bool {
    exists|j: int| 0 <= j < bound && #[trigger] passes[v].deps[j] == passes[u].id
}

/// `table[x]` is the unique writer of resource `x`, if it has one.
pub open spec fn writer_table(passes: Seq<PassModel>, resource_count: nat, table: Seq<Option<usize>>) -> bool {
    &&& table.len() == resource_count
    &&& forall|x: int|
        0 <= x < resource_count ==> match #[trigger] table[x] {
            Some(u) => {
                &&& u < passes.len()
                &&& passes[u as int].writes.contains(ResourceId(x as usize))
                &&& forall|u2: int|
                    0 <= u2 < passes.len() && (#[trigger] passes[u2]).writes.contains(
                        ResourceId(x as usize),
                    ) ==> u2 == u
            },
            None => !has_writer(passes, ResourceId(x as usize)),
        }
}

/// `edges[u][v]` holds exactly when pass `v` depends on pass `u`.
pub open spec fn edge_table(passes: Seq<PassModel>, edges: Seq<Vec<bool>>) -> bool {
    &&& edges.len() == passes.len()
    &&& forall|u: int| 0 <= u < passes.len() ==> (#[trigger] edges[u])@.len() == passes.len()
    &&& forall|u: int, v: int|
        0 <= u < passes.len() && 0 <= v < passes.len() ==> (#[trigger] edges[u]@[v]
            == depends_on(passes, u, v))
}

/// Number of unscheduled predecessors of `v` among the first `m` rows of `edges`.
pub open spec fn pending_predecessors(edges: Seq<Vec<bool>>, emitted: Seq<bool>, v: int, m: int) -> nat
    decreases m,
{
    if m <= 0 {
        0
    } else {
        pending_predecessors(edges, emitted, v, m - 1) + if edges[m - 1]@[v] && !emitted[m - 1] {
            1nat
        } else {
            0nat
        }
    }
}

proof fn lemma_pending_bound(edges: Seq<Vec<bool>>, emitted: Seq<bool>, v: int, m: int)
    requires
        m >= 0,
    ensures
        pending_predecessors(edges, emitted, v, m) <= m,
    decreases m,
{
    if m > 0 {
        lemma_pending_bound(edges, emitted, v, m - 1);
    }
}

proof fn lemma_pending_zero(edges: Seq<Vec<bool>>, emitted: Seq<bool>, v: int, m: int)
    requires
        m >= 0,
    ensures
        pending_predecessors(edges, emitted, v, m) == 0 <==> forall|u: int|
            0 <= u < m && #[trigger] edges[u]@[v] ==> emitted[u],
    decreases m,
{
    if m > 0 {
        lemma_pending_zero(edges, emitted, v, m - 1);
    }
}

proof fn lemma_pending_emit(edges: Seq<Vec<bool>>, emitted: Seq<bool>, w: int, v: int, m: int)
    requires
        0 <= w < emitted.len(),
        !emitted[w],
        0 <= m <= emitted.len(),
    ensures
        pending_predecessors(edges, emitted.update(w, true), v, m) + (if w < m && edges[w]@[v] {
            1nat
        } else {
            0nat
        }) == pending_predecessors(edges, emitted, v, m),
    decreases m,
{
    if m > 0 {
        lemma_pending_emit(edges, emitted, w, v, m - 1);
    }
}

/// With writes free of repeats, each written resource has exactly one writer.
proof fn lemma_writes_upto_prefix(passes: Seq<PassModel>, i: int, i2: int)
    requires
        0 <= i <= i2 <= passes.len(),
    ensures
        writes_upto(passes, i2).len() >= writes_upto(passes, i).len(),
        writes_upto(passes, i2).take(writes_upto(passes, i).len() as int) == writes_upto(passes, i),
    decreases i2 - i,
{
    if i < i2 {
        lemma_writes_upto_prefix(passes, i, i2 - 1);
        let a = writes_upto(passes, i2 - 1);
        let b = passes[i2 - 1].writes;
        assert((a + b).take(a.len() as int) =~= a);
        assert((a + b).take(writes_upto(passes, i).len() as int) =~= a.take(
            writes_upto(passes, i).len() as int,
        ));
    }
}

proof fn lemma_writes_upto_contains(passes: Seq<PassModel>, i: int, r: ResourceId)
    requires
        0 <= i <= passes.len(),
    ensures
        writes_upto(passes, i).contains(r) <==> exists|u: int|
            0 <= u < i && (#[trigger] passes[u]).writes.contains(r),
    decreases i,
{
    if i > 0 {
        lemma_writes_upto_contains(passes, i - 1, r);
        let a = writes_upto(passes, i - 1);
        let b = passes[i - 1].writes;
        if (a + b).contains(r) {
            let k = choose|k: int| 0 <= k < (a + b).len() && (a + b)[k] == r;
            if k < a.len() {
                assert(a[k] == r);
                assert(a.contains(r));
            } else {
                assert(b[k - a.len()] == r);
                assert(b.contains(r));
            }
        }
        if exists|u: int| 0 <= u < i && (#[trigger] passes[u]).writes.contains(r) {
            let u = choose|u: int| 0 <= u < i && (#[trigger] passes[u]).writes.contains(r);
            if u < i - 1 {
                let k = choose|k: int| 0 <= k < a.len() && a[k] == r;
                assert((a + b)[k] == r);
            } else {
                let k = choose|k: int| 0 <= k < b.len() && b[k] == r;
                assert((a + b)[a.len() + k] == r);
            }
        }
    }
}

/// A stuck greedy schedule proves that no topological order exists.
proof fn lemma_stuck_order_is_placed(passes: Seq<PassModel>, placed: Seq<int>, order: Seq<int>, j: int)
    requires
        is_topological_order(passes, order),
        forall|v: int| 0 <= v < passes.len() ==> order.contains(v),
        forall|v: int| !ready(passes, placed, v),
        0 <= j < order.len(),
    ensures
        placed.contains(order[j]),
    decreases j,
{
    let v = order[j];
    if !placed.contains(v) {
        assert(!ready(passes, placed, v));
        let u = choose|u: int|
            0 <= u < passes.len() && #[trigger] depends_on(passes, u, v) && !placed.contains(u);
        assert(order.contains(u));
        let a = choose|a: int| 0 <= a < order.len() && order[a] == u;
        assert(depends_on(passes, order[a], order[j]));
        lemma_stuck_order_is_placed(passes, placed, order, a);
    }
}

/// A complete greedy schedule of distinct indices is a topological order.
proof fn lemma_greedy_is_topological(passes: Seq<PassModel>, order: Seq<int>)
    requires
        order.len() == passes.len(),
        order.no_duplicates(),
        is_greedy(passes, order),
    ensures
        is_topological_order(passes, order),
{
    assert forall|k: int| 0 <= k < order.len() implies 0 <= #[trigger] order[k] < passes.len() by {
        assert(ready(passes, order.take(k), order[k]));
    }
    assert forall|a: int, b: int|
        0 <= a < order.len() && 0 <= b < order.len() && #[trigger] depends_on(
            passes,
            order[a],
            order[b],
        ) implies a < b by {
        assert(ready(passes, order.take(b), order[b]));
        assert(0 <= order[a] < passes.len());
        assert(order.take(b).contains(order[a]));
        let c = choose|c: int| 0 <= c < order.take(b).len() && order.take(b)[c] == order[a];
        assert(order[c] == order[a]);
    }
}

/// Laws of the schedule: a complete greedy schedule is unique.
pub proof fn law_greedy_schedule_is_unique(
    passes: Seq<PassModel>,
    first: Seq<int>,
    second: Seq<int>,
)
    requires
        first.len() == second.len(),
        is_greedy(passes, first),
        is_greedy(passes, second),
    ensures
        first == second,
{
    assert forall|k: int| 0 <= k < first.len() implies first[k] == second[k] by {
        lemma_greedy_prefix_agree(passes, first, second, k);
    }
    assert(first =~= second);
}

proof fn lemma_greedy_prefix_agree(passes: Seq<PassModel>, first: Seq<int>, second: Seq<int>, k: int)
    requires
        first.len() == second.len(),
        is_greedy(passes, first),
        is_greedy(passes, second),
        0 <= k < first.len(),
    ensures
        first.take(k) == second.take(k),
        first[k] == second[k],
    decreases k,
{
    if k > 0 {
        lemma_greedy_prefix_agree(passes, first, second, k - 1);
        assert(first.take(k) =~= first.take(k - 1).push(first[k - 1]));
        assert(second.take(k) =~= second.take(k - 1).push(second[k - 1]));
    } else {
        assert(first.take(0) =~= second.take(0));
    }
    assert(ready(passes, first.take(k), first[k]));
    assert(ready(passes, second.take(k), second[k]));
    if first[k] < second[k] {
        assert(!ready(passes, second.take(k), first[k]));
    } else if second[k] < first[k] {
        assert(!ready(passes, first.take(k), second[k]));
    }
}

/// Laws of the schedule: passes with no dependency between any of them run in
/// declaration order.
pub proof fn law_independent_passes_keep_declaration_order(passes: Seq<PassModel>, order: Seq<int>)
    requires
        forall|u: int, v: int| 0 <= u < passes.len() && 0 <= v < passes.len() ==> !#[trigger] depends_on(passes, u, v),
        order.len() == passes.len(),
        is_greedy(passes, order),
    ensures
        forall|k: int| 0 <= k < order.len() ==> #[trigger] order[k] == k,
{
    let identity = Seq::new(passes.len(), |k: int| k);
    assert forall|k: int| 0 <= k < identity.len() implies {
        &&& ready(passes, identity.take(k), #[trigger] identity[k])
        &&& forall|v: int| 0 <= v < identity[k] ==> !ready(passes, identity.take(k), v)
    } by {
        if identity.take(k).contains(k) {
            let c = choose|c: int| 0 <= c < identity.take(k).len() && identity.take(k)[c] == k;
        }
        assert forall|v: int| 0 <= v < identity[k] implies !ready(passes, identity.take(k), v) by {
            assert(identity.take(k)[v] == v);
        }
    }
    law_greedy_schedule_is_unique(passes, order, identity);
}


proof fn lemma_push_no_dup<A>(s: Seq<A>, x: A)
    requires
        s.no_duplicates(),
        !s.contains(x),
    ensures
        s.push(x).no_duplicates(),
{
    assert forall|i: int, j: int|
        0 <= i < s.push(x).len() && 0 <= j < s.push(x).len() && i != j implies s.push(x)[i]
        != s.push(x)[j] by {
        if i == s.len() {
            assert(s[j] == s.push(x)[j]);
        } else if j == s.len() {
            assert(s[i] == s.push(x)[i]);
        }
    }
}

proof fn lemma_concat_not_contains<A>(a: Seq<A>, b: Seq<A>, x: A)
    requires
        !a.contains(x),
        !b.contains(x),
    ensures
        !(a + b).contains(x),
{
    if (a + b).contains(x) {
        let k = choose|k: int| 0 <= k < (a + b).len() && (a + b)[k] == x;
        if k < a.len() {
            assert(a[k] == x);
        } else {
            assert(b[k - a.len()] == x);
        }
    }
}

proof fn lemma_prefix_free_of_repeats<A>(s: Seq<A>, k: int)
    requires
        0 <= k <= s.len(),
        s.take(k).no_duplicates(),
    ensures
        forall|j: int| 0 <= j < k ==> !#[trigger] repeat_pred(s)(j),
{
    assert forall|j: int| 0 <= j < k implies !#[trigger] repeat_pred(s)(j) by {
        if s.take(j).contains(s[j]) {
            let i = choose|i: int| 0 <= i < s.take(j).len() && s.take(j)[i] == s[j];
            assert(s.take(k)[i] == s.take(k)[j]);
        }
    }
}

/// Per-resource state of the writer scan after the first `j` writes of pass `i`.
pub open spec fn writer_scan(passes: Seq<PassModel>, entry: Option<usize>, x: int, i: int, j: int) -> bool {
    let r = ResourceId(x as usize);
    match entry {
        None => (forall|u: int| 0 <= u < i ==> !(#[trigger] passes[u]).writes.contains(r))
            && !passes[i].writes.take(j).contains(r),
        Some(u) => {
            &&& u <= i
            &&& (u < i ==> passes[u as int].writes.contains(r) && !passes[i].writes.take(j).contains(r))
            &&& (u == i ==> passes[i].writes.take(j).contains(r))
            &&& forall|u2: int|
                0 <= u2 < i && (#[trigger] passes[u2]).writes.contains(r) ==> u2 == u
        },
    }
}

proof fn lemma_ready_iff(
    passes: Seq<PassModel>,
    edges: Seq<Vec<bool>>,
    emitted: Seq<bool>,
    placed: Seq<int>,
    c: int,
)
    requires
        edge_table(passes, edges),
        emitted.len() == passes.len(),
        forall|i: int| 0 <= i < passes.len() ==> #[trigger] emitted[i] == placed.contains(i),
        0 <= c < passes.len(),
    ensures
        ready(passes, placed, c) <==> !emitted[c] && pending_predecessors(
            edges,
            emitted,
            c,
            passes.len() as int,
        ) == 0,
{
    lemma_pending_zero(edges, emitted, c, passes.len() as int);
    if !emitted[c] && pending_predecessors(edges, emitted, c, passes.len() as int) == 0 {
        assert forall|u: int|
            0 <= u < passes.len() && #[trigger] depends_on(passes, u, c) implies placed.contains(u) by {
            assert(edges[u]@[c]);
        }
    }
    if ready(passes, placed, c) {
        assert forall|u: int| 0 <= u < passes.len() && #[trigger] edges[u]@[c] implies emitted[u] by {
            assert(depends_on(passes, u, c));
        }
    }
}

proof fn lemma_greedy_push(passes: Seq<PassModel>, placed: Seq<int>, c: int)
    requires
        is_greedy(passes, placed),
        ready(passes, placed, c),
        forall|v: int| 0 <= v < c ==> !ready(passes, placed, v),
    ensures
        is_greedy(passes, placed.push(c)),
{
    let next = placed.push(c);
    assert forall|k: int| 0 <= k < next.len() implies {
        &&& ready(passes, next.take(k), #[trigger] next[k])
        &&& forall|v: int| 0 <= v < next[k] ==> !ready(passes, next.take(k), v)
    } by {
        if k < placed.len() {
            assert(next.take(k) =~= placed.take(k));
            assert(next[k] == placed[k]);
        } else {
            assert(next.take(k) =~= placed);
        }
    }
}

// ── Builder ────────────────────────────────────────────────────────────────

/// Declares resources and passes, then compiles them into a schedule.
#[derive(Debug)]
pub struct RenderGraphBuilder {
    resources: Vec<ResourceDecl>,
    passes: Vec<PassDecl>,
}

impl View for RenderGraphBuilder {
    type V = GraphModel;

    closed spec fn view(&self) -> GraphModel {
        GraphModel {
            resources: self.resources@,
            passes: self.passes@.map_values(|p: PassDecl| p.model()),
        }
    }
}

impl RenderGraphBuilder {
    /// The builder's declarations are well formed.
    pub open spec fn wf(&self) -> bool {
        graph_wf(self@)
    }

    /// An empty builder.
    pub fn new() -> (builder: Self)
        ensures
            builder.wf(),
            builder@.resources.len() == 0,
            builder@.passes.len() == 0,
    {
        let builder = RenderGraphBuilder { resources: Vec::new(), passes: Vec::new() };
        assert(builder@.passes =~= Seq::<PassModel>::empty());
        builder
    }

    /// Declare a resource; its handle is its declaration index.
    pub fn add_resource(&mut self, class: ResourceClass, imported: bool) -> (id: ResourceId)
        requires
            old(self).wf(),
            old(self)@.resources.len() < usize::MAX,
        ensures
            final(self).wf(),
            id.0 == old(self)@.resources.len(),
            final(self)@.resources == old(self)@.resources.push(ResourceDecl { class, imported }),
            final(self)@.passes == old(self)@.passes,
    {
        let id = ResourceId(self.resources.len());
        self.resources.push(ResourceDecl { class, imported });
        proof {
            assert(self@.passes =~= old(self)@.passes);
        }
        id
    }

    /// Declare a pass with its reads, writes and explicit dependencies.
    ///
    /// Rejects a repeated pass ID, an undeclared resource, and a resource
    /// accessed twice by the same pass; a rejected pass leaves the builder
    /// unchanged.
    pub fn add_pass(
        &mut self,
        id: PassId,
        reads: &[ResourceId],
        writes: &[ResourceId],
        explicit_dependencies: &[PassId],
    ) -> (result: Result<(), GraphError>)
        requires
            old(self).wf(),
            reads@.len() + writes@.len() <= usize::MAX,
        ensures
            final(self).wf(),
            match add_pass_error(old(self)@, id, reads@, writes@) {
                Some(error) => result == Err::<(), GraphError>(error) && final(self)@ == old(self)@,
                None => {
                    &&& result == Ok::<(), GraphError>(())
                    &&& final(self)@.resources == old(self)@.resources
                    &&& final(self)@.passes == old(self)@.passes.push(
                        PassModel {
                            id,
                            reads: reads@,
                            writes: writes@,
                            deps: explicit_dependencies@,
                        },
                    )
                },
            },
    {
        let ghost m = self@;
        let ghost accesses = reads@ + writes@;
        let mut p: usize = 0;
        while p < self.passes.len()
            invariant
                self@ == m,
                graph_wf(m),
                0 <= p <= m.passes.len(),
                forall|i: int| 0 <= i < p ==> (#[trigger] m.passes[i]).id != id,
            decreases m.passes.len() - p,
        {
            if self.passes[p].id == id {
                assert(m.passes[p as int].id == id);
                return Err(GraphError::DuplicatePass(id));
            }
            p += 1;
        }
        let total = reads.len() + writes.len();
        let mut k: usize = 0;
        while k < total
            invariant
                self@ == m,
                graph_wf(m),
                forall|i: int| 0 <= i < m.passes.len() ==> (#[trigger] m.passes[i]).id != id,
                accesses == reads@ + writes@,
                total == accesses.len(),
                0 <= k <= total,
                forall|j: int| 0 <= j < k ==> !#[trigger] unknown_pred(accesses, m.resources.len())(j),
            decreases total - k,
        {
            let resource = if k < reads.len() { reads[k] } else { writes[k - reads.len()] };
            assert(resource == accesses[k as int]);
            if resource.0 >= self.resources.len() {
                proof {
                    lemma_first_index_is(0, total as int, unknown_pred(accesses, m.resources.len()), k as int);
                }
                return Err(GraphError::UnknownResource { pass: id, resource });
            }
            k += 1;
        }
        proof {
            lemma_first_index_none(0, total as int, unknown_pred(accesses, m.resources.len()));
        }
        let mut k: usize = 0;
        while k < total
            invariant
                self@ == m,
                graph_wf(m),
                forall|i: int| 0 <= i < m.passes.len() ==> (#[trigger] m.passes[i]).id != id,
                accesses == reads@ + writes@,
                total == accesses.len(),
                0 <= k <= total,
                forall|j: int| 0 <= j < k ==> !#[trigger] repeat_pred(accesses)(j),
                forall|j: int| 0 <= j < total ==> !#[trigger] unknown_pred(accesses, m.resources.len())(j),
                first_index(0, total as int, unknown_pred(accesses, m.resources.len())) == None::<int>,
            decreases total - k,
        {
            let resource = if k < reads.len() { reads[k] } else { writes[k - reads.len()] };
            assert(resource == accesses[k as int]);
            let mut earlier: usize = 0;
            while earlier < k
                invariant
                    self@ == m,
                    graph_wf(m),
                    forall|i: int| 0 <= i < m.passes.len() ==> (#[trigger] m.passes[i]).id != id,
                    forall|j: int| 0 <= j < total ==> !#[trigger] unknown_pred(accesses, m.resources.len())(j),
                first_index(0, total as int, unknown_pred(accesses, m.resources.len())) == None::<int>,
                    forall|j: int| 0 <= j < k ==> !#[trigger] repeat_pred(accesses)(j),
                    accesses == reads@ + writes@,
                    total == accesses.len(),
                    0 <= earlier <= k < total,
                    resource == accesses[k as int],
                    forall|e: int| 0 <= e < earlier ==> accesses[e] != resource,
                decreases k - earlier,
            {
                let other = if earlier < reads.len() {
                    reads[earlier]
                } else {
                    writes[earlier - reads.len()]
                };
                assert(other == accesses[earlier as int]);
                if other == resource {
                    proof {
                        assert(accesses.take(k as int)[earlier as int] == resource);
                        assert(repeat_pred(accesses)(k as int));
                        lemma_first_index_is(0, total as int, repeat_pred(accesses), k as int);
                    }
                    return Err(GraphError::ConflictingAccess { pass: id, resource });
                }
                earlier += 1;
            }
            proof {
                if accesses.take(k as int).contains(resource) {
                    let e = choose|e: int|
                        0 <= e < accesses.take(k as int).len() && accesses.take(k as int)[e]
                            == resource;
                    assert(accesses[e] == resource);
                }
            }
            k += 1;
        }
        proof {
            lemma_first_index_none(0, total as int, repeat_pred(accesses));
        }
        let decl = PassDecl {
            id,
            reads: vstd::slice::slice_to_vec(reads),
            writes: vstd::slice::slice_to_vec(writes),
            explicit_dependencies: vstd::slice::slice_to_vec(explicit_dependencies),
        };
        self.passes.push(decl);
        proof {
            let new_model = PassModel {
                id,
                reads: reads@,
                writes: writes@,
                deps: explicit_dependencies@,
            };
            assert(self@.passes =~= m.passes.push(new_model));
            assert forall|i: int, k: int|
                0 <= i < self@.passes.len() && 0 <= k < self@.passes[i].reads.len() implies (
                #[trigger] self@.passes[i].reads[k]).0 < self@.resources.len() by {
                if i == m.passes.len() {
                    assert(accesses[k] == reads@[k]);
                    assert(!unknown_pred(accesses, m.resources.len())(k));
                }
            }
            assert forall|i: int, k: int|
                0 <= i < self@.passes.len() && 0 <= k < self@.passes[i].writes.len() implies (
                #[trigger] self@.passes[i].writes[k]).0 < self@.resources.len() by {
                if i == m.passes.len() {
                    assert(accesses[reads@.len() + k] == writes@[k]);
                    assert(!unknown_pred(accesses, m.resources.len())(reads@.len() + k));
                }
            }
        }
        Ok(())
    }
}


impl RenderGraphBuilder {
    /// The unique writer of each resource, or the first resource written twice.
    fn scan_writers(&self) -> (result: Result<Vec<Option<usize>>, GraphError>)
        requires
            self.wf(),
        ensures
            match first_repeat(all_writes(self@.passes)) {
                Some(k) => result == Err::<Vec<Option<usize>>, GraphError>(
                    GraphError::MultipleWriters { resource: all_writes(self@.passes)[k] },
                ),
                None => result matches Ok(table) && writer_table(
                    self@.passes,
                    self@.resources.len(),
                    table@,
                ),
            },
    {
        let ghost m = self@;
        let ghost ps = m.passes;
        let n = self.passes.len();
        let resource_count = self.resources.len();
        let mut writer_by_resource: Vec<Option<usize>> = Vec::new();
        let mut x: usize = 0;
        while x < resource_count
            invariant
                x <= resource_count,
                writer_by_resource@.len() == x,
                forall|y: int| 0 <= y < x ==> #[trigger] writer_by_resource@[y] == None::<usize>,
            decreases resource_count - x,
        {
            writer_by_resource.push(None);
            x += 1;
        }
        let mut pass_index: usize = 0;
        while pass_index < n
            invariant
                self@ == m,
                graph_wf(m),
                ps == m.passes,
                n == ps.len(),
                resource_count == m.resources.len(),
                writer_by_resource@.len() == resource_count,
                0 <= pass_index <= n,
                writes_upto(ps, pass_index as int).no_duplicates(),
                forall|x: int|
                    0 <= x < resource_count ==> writer_scan(
                        ps,
                        #[trigger] writer_by_resource@[x],
                        x,
                        pass_index as int,
                        0,
                    ),
            decreases n - pass_index,
        {
            let write_count = self.passes[pass_index].writes.len();
            let ghost writes = ps[pass_index as int].writes;
            let ghost done = writes_upto(ps, pass_index as int);
            proof {
                assert(done + writes.take(0) =~= done);
                assert forall|x: int| 0 <= x < resource_count implies writer_scan(
                    ps,
                    #[trigger] writer_by_resource@[x],
                    x,
                    pass_index as int,
                    0,
                ) by {}
            }
            let mut j: usize = 0;
            while j < write_count
                invariant
                    self@ == m,
                    graph_wf(m),
                    ps == m.passes,
                    n == ps.len(),
                    resource_count == m.resources.len(),
                    writer_by_resource@.len() == resource_count,
                    0 <= pass_index < n,
                    writes == ps[pass_index as int].writes,
                    write_count == writes.len(),
                    done == writes_upto(ps, pass_index as int),
                    0 <= j <= write_count,
                    (done + writes.take(j as int)).no_duplicates(),
                    forall|x: int|
                        0 <= x < resource_count ==> writer_scan(
                            ps,
                            #[trigger] writer_by_resource@[x],
                            x,
                            pass_index as int,
                            j as int,
                        ),
                decreases write_count - j,
            {
                let resource = self.passes[pass_index].writes[j];
                assert(resource == writes[j as int]);
                assert(resource.0 < resource_count);
                proof {
                    lemma_writes_upto_contains(ps, pass_index as int, resource);
                }
                if writer_by_resource[resource.0].is_some() {
                    proof {
                        let all = all_writes(ps);
                        let k = done.len() + j;
                        lemma_writes_upto_prefix(ps, pass_index as int + 1, n as int);
                        assert(writes_upto(ps, pass_index as int + 1) == done + writes);
                        assert(all.take((done.len() + writes.len()) as int) == done + writes);
                        assert(all[k] == (done + writes)[k]);
                        assert(all[k] == resource);
                        assert(all.take(k) =~= done + writes.take(j as int));
                        let entry = writer_by_resource@[resource.0 as int];
                        assert(writer_scan(ps, entry, resource.0 as int, pass_index as int, j as int));
                        let u = entry->Some_0;
                        if (u as int) < pass_index {
                            assert(ps[u as int].writes.contains(resource));
                            let c = choose|c: int| 0 <= c < done.len() && done[c] == resource;
                            assert((done + writes.take(j as int))[c] == resource);
                        } else {
                            let c = choose|c: int|
                                0 <= c < writes.take(j as int).len() && writes.take(j as int)[c]
                                    == resource;
                            assert((done + writes.take(j as int))[done.len() + c] == resource);
                        }
                        assert(all.take(k).contains(all[k]));
                        assert(repeat_pred(all)(k));
                        lemma_prefix_free_of_repeats(all, k);
                        lemma_first_index_is(0, all.len() as int, repeat_pred(all), k);
                    }
                    return Err(GraphError::MultipleWriters { resource });
                }
                proof {
                    let entry = writer_by_resource@[resource.0 as int];
                    assert(writer_scan(ps, entry, resource.0 as int, pass_index as int, j as int));
                    lemma_concat_not_contains(done, writes.take(j as int), resource);
                    lemma_push_no_dup(done + writes.take(j as int), resource);
                    assert(done + writes.take(j as int + 1) =~= (done + writes.take(j as int)).push(
                        resource,
                    ));
                    assert(writes.take(j as int + 1) =~= writes.take(j as int).push(resource));
                }
                writer_by_resource.set(resource.0, Some(pass_index));
                proof {
                    assert forall|x: int| 0 <= x < resource_count implies writer_scan(
                        ps,
                        #[trigger] writer_by_resource@[x],
                        x,
                        pass_index as int,
                        j as int + 1,
                    ) by {
                        let r = ResourceId(x as usize);
                        let prev = writes.take(j as int);
                        let next = writes.take(j as int + 1);
                        assert(next =~= prev.push(resource));
                        if x != resource.0 {
                            assert(r != resource);
                            if next.contains(r) {
                                let c = choose|c: int| 0 <= c < next.len() && next[c] == r;
                                assert(prev[c] == r);
                            }
                            if prev.contains(r) {
                                let c = choose|c: int| 0 <= c < prev.len() && prev[c] == r;
                                assert(next[c] == r);
                            }
                        } else {
                            assert(next[j as int] == r);
                        }
                    }
                }
                j += 1;
            }
            proof {
                assert(writes.take(write_count as int) =~= writes);
                assert(writes_upto(ps, pass_index as int + 1) == done + writes);
                assert forall|x: int| 0 <= x < resource_count implies writer_scan(
                    ps,
                    #[trigger] writer_by_resource@[x],
                    x,
                    pass_index as int + 1,
                    0,
                ) by {
                    let r = ResourceId(x as usize);
                    assert(writer_scan(ps, writer_by_resource@[x], x, pass_index as int, write_count as int));
                    match writer_by_resource@[x] {
                        None => {
                            assert forall|u: int| 0 <= u < pass_index + 1 implies !(
                            #[trigger] ps[u]).writes.contains(r) by {
                                if u == pass_index {
                                }
                            }
                        },
                        Some(owner) => {
                            assert forall|u2: int|
                                0 <= u2 < pass_index + 1 && (#[trigger] ps[u2]).writes.contains(
                                    r,
                                ) implies u2 == owner by {}
                        },
                    }
                }
            }
            pass_index += 1;
        }
        proof {
            lemma_no_repeat(all_writes(ps));
            assert forall|x: int| 0 <= x < resource_count implies match #[trigger] writer_by_resource@[x] {
                Some(u) => {
                    &&& u < ps.len()
                    &&& ps[u as int].writes.contains(ResourceId(x as usize))
                    &&& forall|u2: int|
                        0 <= u2 < ps.len() && (#[trigger] ps[u2]).writes.contains(
                            ResourceId(x as usize),
                        ) ==> u2 == u
                },
                None => !has_writer(ps, ResourceId(x as usize)),
            } by {
                assert(writer_scan(ps, writer_by_resource@[x], x, n as int, 0));
                assert(ps[n as int].writes.take(0).len() == 0);
            }
        }
        Ok(writer_by_resource)
    }
}


/// Record the edge `u -> v`.
fn mark_edge(edges: &mut Vec<Vec<bool>>, u: usize, v: usize)
    requires
        u < old(edges)@.len(),
        v < old(edges)@[u as int]@.len(),
    ensures
        final(edges)@.len() == old(edges)@.len(),
        forall|a: int| 0 <= a < old(edges)@.len() && a != u ==> #[trigger] final(edges)@[a] == old(edges)@[a],
        final(edges)@[u as int]@ == old(edges)@[u as int]@.update(v as int, true),
{
    edges[u][v] = true;
}


/// Row-by-row state of the edge table while pass `v`'s inputs are being scanned.
pub open spec fn edges_so_far(
    passes: Seq<PassModel>,
    edges: Seq<Vec<bool>>,
    v: int,
    reads_done: int,
    deps_done: int,
) -> bool {
    &&& edges.len() == passes.len()
    &&& forall|u: int| 0 <= u < passes.len() ==> (#[trigger] edges[u])@.len() == passes.len()
    &&& forall|u: int, w: int|
        0 <= u < passes.len() && 0 <= w < passes.len() ==> (#[trigger] edges[u]@[w] == if w < v {
            depends_on(passes, u, w)
        } else if w == v {
            reads_from_upto(passes, u, v, reads_done) || names_upto(passes, u, v, deps_done)
        } else {
            false
        })
}

impl RenderGraphBuilder {
    /// The dependency edges between passes, or the first unsatisfiable input.
    fn build_edges(&self, writer_by_resource: &Vec<Option<usize>>) -> (result: Result<
        Vec<Vec<bool>>,
        GraphError,
    >)
        requires
            self.wf(),
            first_repeat(all_writes(self@.passes)) == None::<int>,
            writer_table(self@.passes, self@.resources.len(), writer_by_resource@),
        ensures
            match first_index(0, self@.passes.len() as int, input_error_pred(self@)) {
                Some(i) => result matches Err(e) && pass_input_error(self@, i) == Some(e),
                None => result matches Ok(edges) && edge_table(self@.passes, edges@),
            },
    {
        let ghost m = self@;
        let ghost ps = m.passes;
        let n = self.passes.len();
        let mut edges: Vec<Vec<bool>> = Vec::new();
        let mut u: usize = 0;
        while u < n
            invariant
                u <= n,
                edges@.len() == u,
                forall|a: int| 0 <= a < u ==> (#[trigger] edges@[a])@ == Seq::new(n as nat, |w: int| false),
            decreases n - u,
        {
            let mut row: Vec<bool> = Vec::new();
            let mut w: usize = 0;
            while w < n
                invariant
                    w <= n,
                    row@ == Seq::new(w as nat, |i: int| false),
                decreases n - w,
            {
                row.push(false);
                proof {
                    assert(row@ =~= Seq::new(w as nat + 1, |i: int| false));
                }
                w += 1;
            }
            edges.push(row);
            u += 1;
        }
        let mut v: usize = 0;
        while v < n
            invariant
                self@ == m,
                graph_wf(m),
                ps == m.passes,
                n == ps.len(),
                writer_table(ps, m.resources.len(), writer_by_resource@),
                0 <= v <= n,
                edges_so_far(ps, edges@, v as int, 0, 0),
                forall|i: int| 0 <= i < v ==> !#[trigger] input_error_pred(m)(i),
            decreases n - v,
        {
            let read_count = self.passes[v].reads.len();
            let ghost reads = ps[v as int].reads;
            let mut j: usize = 0;
            while j < read_count
                invariant
                    self@ == m,
                    graph_wf(m),
                    ps == m.passes,
                    n == ps.len(),
                    writer_table(ps, m.resources.len(), writer_by_resource@),
                    0 <= v < n,
                    reads == ps[v as int].reads,
                    read_count == reads.len(),
                    0 <= j <= read_count,
                    edges_so_far(ps, edges@, v as int, j as int, 0),
                    forall|i: int| 0 <= i < v ==> !#[trigger] input_error_pred(m)(i),
                    forall|k: int| 0 <= k < j ==> !#[trigger] unsatisfied_read_pred(m, v as int)(k),
                decreases read_count - j,
            {
                let resource = self.passes[v].reads[j];
                assert(resource == reads[j as int]);
                assert(resource.0 < m.resources.len());
                let entry = writer_by_resource[resource.0];
                match entry {
                    Some(writer) => {
                        proof {
                            assert(writer_by_resource@[resource.0 as int] == Some(writer));
                            assert(has_writer(ps, resource));
                        }
                        mark_edge(&mut edges, writer, v);
                        proof {
                            assert forall|a: int, w: int|
                                0 <= a < n && 0 <= w < n implies (#[trigger] edges@[a]@[w] == if w < v {
                                    depends_on(ps, a, w)
                                } else if w == v {
                                    reads_from_upto(ps, a, v as int, j as int + 1) || names_upto(ps, a, v as int, 0)
                                } else {
                                    false
                                }) by {
                                if w == v {
                                    if a == writer {
                                        assert(ps[a].writes.contains(ps[v as int].reads[j as int]));
                                    } else if reads_from_upto(ps, a, v as int, j as int + 1) {
                                        let k = choose|k: int|
                                            0 <= k < j + 1 && ps[a].writes.contains(
                                                #[trigger] ps[v as int].reads[k],
                                            );
                                        if k == j {
                                            assert(ps[a].writes.contains(resource));
                                        }
                                    }
                                }
                            }
                            assert(!unsatisfied_read_pred(m, v as int)(j as int));
                        }
                    },
                    None => {
                        if !self.resources[resource.0].imported {
                            proof {
                                assert(writer_by_resource@[resource.0 as int] == None::<usize>);
                                assert(unsatisfied_read_pred(m, v as int)(j as int));
                                lemma_first_index_is(
                                    0,
                                    read_count as int,
                                    unsatisfied_read_pred(m, v as int),
                                    j as int,
                                );
                                assert(input_error_pred(m)(v as int));
                                lemma_first_index_is(0, n as int, input_error_pred(m), v as int);
                            }
                            return Err(GraphError::ReadBeforeWrite { resource });
                        }
                        proof {
                            assert(writer_by_resource@[resource.0 as int] == None::<usize>);
                            assert forall|a: int, w: int|
                                0 <= a < n && 0 <= w < n implies (#[trigger] edges@[a]@[w] == if w < v {
                                    depends_on(ps, a, w)
                                } else if w == v {
                                    reads_from_upto(ps, a, v as int, j as int + 1) || names_upto(ps, a, v as int, 0)
                                } else {
                                    false
                                }) by {
                                if w == v && reads_from_upto(ps, a, v as int, j as int + 1) {
                                    let k = choose|k: int|
                                        0 <= k < j + 1 && ps[a].writes.contains(
                                            #[trigger] ps[v as int].reads[k],
                                        );
                                    if k == j {
                                        assert(has_writer(ps, resource));
                                    }
                                }
                            }
                            assert(!unsatisfied_read_pred(m, v as int)(j as int));
                        }
                    },
                }
                j += 1;
            }
            proof {
                lemma_first_index_none(0, read_count as int, unsatisfied_read_pred(m, v as int));
            }
            let dependency_count = self.passes[v].explicit_dependencies.len();
            let ghost deps = ps[v as int].deps;
            let mut j: usize = 0;
            while j < dependency_count
                invariant
                    self@ == m,
                    graph_wf(m),
                    ps == m.passes,
                    n == ps.len(),
                    0 <= v < n,
                    deps == ps[v as int].deps,
                    dependency_count == deps.len(),
                    0 <= j <= dependency_count,
                    edges_so_far(ps, edges@, v as int, ps[v as int].reads.len() as int, j as int),
                    forall|i: int| 0 <= i < v ==> !#[trigger] input_error_pred(m)(i),
                    first_index(0, ps[v as int].reads.len() as int, unsatisfied_read_pred(m, v as int))
                        == None::<int>,
                    forall|k: int| 0 <= k < j ==> !#[trigger] unknown_dependency_pred(m, v as int)(k),
                decreases dependency_count - j,
            {
                let dependency = self.passes[v].explicit_dependencies[j];
                assert(dependency == deps[j as int]);
                let mut position: usize = 0;
                let mut found = false;
                while !found && position < n
                    invariant
                        self@ == m,
                        ps == m.passes,
                        n == ps.len(),
                        position <= n,
                        found ==> position < n && ps[position as int].id == dependency,
                        !found ==> forall|u: int| 0 <= u < position ==> (#[trigger] ps[u]).id != dependency,
                    decreases n - position + if found { 0int } else { 1int },
                {
                    if self.passes[position].id == dependency {
                        found = true;
                    } else {
                        position += 1;
                    }
                }
                if !found {
                    proof {
                        assert(dependency_unknown(ps, dependency));
                        assert(unknown_dependency_pred(m, v as int)(j as int));
                        lemma_first_index_is(
                            0,
                            dependency_count as int,
                            unknown_dependency_pred(m, v as int),
                            j as int,
                        );
                        assert(input_error_pred(m)(v as int));
                        lemma_first_index_is(0, n as int, input_error_pred(m), v as int);
                    }
                    return Err(
                        GraphError::UnknownPassDependency { pass: self.passes[v].id, dependency },
                    );
                }
                mark_edge(&mut edges, position, v);
                proof {
                    assert forall|a: int, w: int|
                        0 <= a < n && 0 <= w < n implies (#[trigger] edges@[a]@[w] == if w < v {
                            depends_on(ps, a, w)
                        } else if w == v {
                            reads_from_upto(ps, a, v as int, ps[v as int].reads.len() as int)
                                || names_upto(ps, a, v as int, j as int + 1)
                        } else {
                            false
                        }) by {
                        if w == v {
                            if a == position {
                                assert(ps[v as int].deps[j as int] == ps[a].id);
                            } else if names_upto(ps, a, v as int, j as int + 1) {
                                let k = choose|k: int|
                                    0 <= k < j + 1 && #[trigger] ps[v as int].deps[k] == ps[a].id;
                                if k == j {
                                    assert(ps[a].id == ps[position as int].id);
                                }
                            }
                        }
                    }
                    assert(!unknown_dependency_pred(m, v as int)(j as int));
                }
                j += 1;
            }
            proof {
                lemma_first_index_none(0, dependency_count as int, unknown_dependency_pred(m, v as int));
                assert(!input_error_pred(m)(v as int));
                assert forall|a: int, w: int|
                    0 <= a < n && 0 <= w < n implies (#[trigger] edges@[a]@[w] == if w < v + 1 {
                        depends_on(ps, a, w)
                    } else if w == v + 1 {
                        reads_from_upto(ps, a, v as int + 1, 0) || names_upto(ps, a, v as int + 1, 0)
                    } else {
                        false
                    }) by {
                    if w == v {
                        if ps[v as int].deps.contains(ps[a].id) {
                            let k = choose|k: int|
                                0 <= k < ps[v as int].deps.len() && ps[v as int].deps[k] == ps[a].id;
                            assert(names_upto(ps, a, v as int, dependency_count as int));
                        }
                        if names_upto(ps, a, v as int, dependency_count as int) {
                            let k = choose|k: int|
                                0 <= k < dependency_count && #[trigger] ps[v as int].deps[k] == ps[a].id;
                            assert(ps[v as int].deps.contains(ps[a].id));
                        }
                    }
                }
            }
            v += 1;
        }
        proof {
            lemma_first_index_none(0, n as int, input_error_pred(m));
        }
        Ok(edges)
    }
}


/// Number of predecessors of every pass.
fn initial_indegrees(edges: &Vec<Vec<bool>>, n: usize, Ghost(none_emitted): Ghost<Seq<bool>>) -> (indegree: Vec<usize>)
    requires
        edges@.len() == n,
        forall|u: int| 0 <= u < n ==> (#[trigger] edges@[u])@.len() == n,
        none_emitted.len() == n,
        forall|i: int| 0 <= i < n ==> !#[trigger] none_emitted[i],
    ensures
        indegree@.len() == n,
        forall|t: int|
            0 <= t < n ==> #[trigger] indegree@[t] == pending_predecessors(
                edges@,
                none_emitted,
                t,
                n as int,
            ),
{
    let mut indegree: Vec<usize> = Vec::new();
    let mut t: usize = 0;
    while t < n
        invariant
            t <= n,
            indegree@.len() == t,
            forall|i: int| 0 <= i < t ==> #[trigger] indegree@[i] == 0,
        decreases n - t,
    {
        indegree.push(0);
        t += 1;
    }
    let mut u: usize = 0;
    while u < n
        invariant
            edges@.len() == n,
            forall|a: int| 0 <= a < n ==> (#[trigger] edges@[a])@.len() == n,
            none_emitted.len() == n,
            forall|i: int| 0 <= i < n ==> !#[trigger] none_emitted[i],
            u <= n,
            indegree@.len() == n,
            forall|i: int|
                0 <= i < n ==> #[trigger] indegree@[i] == pending_predecessors(
                    edges@,
                    none_emitted,
                    i,
                    u as int,
                ),
        decreases n - u,
    {
        let mut target: usize = 0;
        while target < n
            invariant
                edges@.len() == n,
                forall|a: int| 0 <= a < n ==> (#[trigger] edges@[a])@.len() == n,
                none_emitted.len() == n,
                forall|i: int| 0 <= i < n ==> !#[trigger] none_emitted[i],
                u < n,
                target <= n,
                indegree@.len() == n,
                forall|i: int|
                    0 <= i < n ==> #[trigger] indegree@[i] == pending_predecessors(
                        edges@,
                        none_emitted,
                        i,
                        if i < target { u as int + 1 } else { u as int },
                    ),
            decreases n - target,
        {
            proof {
                lemma_pending_bound(edges@, none_emitted, target as int, u as int);
            }
            if edges[u][target] {
                indegree[target] = indegree[target] + 1;
            }
            target += 1;
        }
        u += 1;
    }
    indegree
}


/// A compiled graph: the execution order of its passes and its resources.
#[derive(Debug)]
pub struct CompiledGraph {
    execution_order: Vec<PassId>,
    resources: Vec<ResourceDecl>,
}

/// Mathematical model of a compiled graph.
pub struct CompiledModel {
    pub order: Seq<PassId>,
    pub resources: Seq<ResourceDecl>,
}

impl View for CompiledGraph {
    type V = CompiledModel;

    closed spec fn view(&self) -> CompiledModel {
        CompiledModel { order: self.execution_order@, resources: self.resources@ }
    }
}

/// `order` is the schedule of `m`: the greedy topological order of its passes.
pub open spec fn schedules(m: GraphModel, order: Seq<PassId>) -> bool {
    exists|placed: Seq<int>|
        #![trigger is_greedy(m.passes, placed)]
        is_topological_order(m.passes, placed) && is_greedy(m.passes, placed) && scheduled_ids(
            m.passes,
            placed,
        ) == order
}

/// Number of declared resources of a class.
pub open spec fn class_count(resources: Seq<ResourceDecl>, class: ResourceClass) -> nat
    decreases resources.len(),
{
    if resources.len() == 0 {
        0
    } else {
        class_count(resources.drop_last(), class) + if resources.last().class == class {
            1nat
        } else {
            0nat
        }
    }
}

proof fn lemma_class_count_bound(resources: Seq<ResourceDecl>, class: ResourceClass)
    ensures
        class_count(resources, class) <= resources.len(),
    decreases resources.len(),
{
    if resources.len() > 0 {
        lemma_class_count_bound(resources.drop_last(), class);
    }
}

impl CompiledGraph {
    /// Passes in execution order.
    pub fn execution_order(&self) -> (order: &[PassId])
        ensures
            order@ == self@.order,
    {
        self.execution_order.as_slice()
    }

    /// Number of resources per class: persistent, resize-dependent, transient.
    pub fn resource_class_counts(&self) -> (counts: [usize; 3])
        ensures
            counts[0] == class_count(self@.resources, ResourceClass::Persistent),
            counts[1] == class_count(self@.resources, ResourceClass::ResizeDependent),
            counts[2] == class_count(self@.resources, ResourceClass::Transient),
    {
        let mut counts: [usize; 3] = [0, 0, 0];
        let mut i: usize = 0;
        while i < self.resources.len()
            invariant
                i <= self.resources@.len(),
                counts[0] == class_count(self.resources@.take(i as int), ResourceClass::Persistent),
                counts[1] == class_count(self.resources@.take(i as int), ResourceClass::ResizeDependent),
                counts[2] == class_count(self.resources@.take(i as int), ResourceClass::Transient),
            decreases self.resources@.len() - i,
        {
            let ghost before = self.resources@.take(i as int);
            let ghost after = self.resources@.take(i as int + 1);
            proof {
                assert(after.drop_last() =~= before);
                lemma_class_count_bound(before, ResourceClass::Persistent);
                lemma_class_count_bound(before, ResourceClass::ResizeDependent);
                lemma_class_count_bound(before, ResourceClass::Transient);
            }
            match self.resources[i].class {
                ResourceClass::Persistent => counts[0] = counts[0] + 1,
                ResourceClass::ResizeDependent => counts[1] = counts[1] + 1,
                ResourceClass::Transient => counts[2] = counts[2] + 1,
            }
            i += 1;
        }
        proof {
            assert(self.resources@.take(self.resources@.len() as int) =~= self.resources@);
        }
        counts
    }

    /// Class of a declared resource.
    pub fn resource_class(&self, resource: ResourceId) -> (class: ResourceClass)
        requires
            resource.0 < self@.resources.len(),
        ensures
            class == self@.resources[resource.0 as int].class,
    {
        self.resources[resource.0].class
    }
}

impl RenderGraphBuilder {
    /// Greedy topological scheduling over a validated edge table.
    fn schedule(&self, edges: &Vec<Vec<bool>>) -> (result: Result<Vec<PassId>, GraphError>)
        requires
            self.wf(),
            edge_table(self@.passes, edges@),
        ensures
            match result {
                Ok(order) => schedules(self@, order@),
                Err(error) => error == GraphError::Cycle && forall|order: Seq<int>|
                    !#[trigger] is_topological_order(self@.passes, order),
            },
    {
        let ghost m = self@;
        let ghost ps = m.passes;
        let n = self.passes.len();
        let mut emitted: Vec<bool> = Vec::new();
        let mut i: usize = 0;
        while i < n
            invariant
                i <= n,
                emitted@.len() == i,
                forall|k: int| 0 <= k < i ==> !#[trigger] emitted@[k],
            decreases n - i,
        {
            emitted.push(false);
            i += 1;
        }
        let mut indegree = initial_indegrees(edges, n, Ghost(emitted@));
        let mut execution_order: Vec<PassId> = Vec::new();
        let ghost mut placed: Seq<int> = Seq::empty();
        let mut step: usize = 0;
        proof {
            assert forall|k: int| 0 <= k < n implies #[trigger] emitted@[k] == placed.contains(k) by {}
            assert(execution_order@ =~= scheduled_ids(ps, placed));
        }
        while step < n
            invariant
                self@ == m,
                graph_wf(m),
                ps == m.passes,
                n == ps.len(),
                edge_table(ps, edges@),
                step <= n,
                placed.len() == step,
                placed.no_duplicates(),
                forall|k: int| 0 <= k < placed.len() ==> 0 <= #[trigger] placed[k] < n,
                is_greedy(ps, placed),
                execution_order@ == scheduled_ids(ps, placed),
                emitted@.len() == n,
                forall|k: int| 0 <= k < n ==> #[trigger] emitted@[k] == placed.contains(k),
                indegree@.len() == n,
                forall|t: int|
                    0 <= t < n ==> #[trigger] indegree@[t] == pending_predecessors(
                        edges@,
                        emitted@,
                        t,
                        n as int,
                    ),
            decreases n - step,
        {
            let mut candidate: usize = 0;
            let mut found = false;
            while !found && candidate < n
                invariant
                    emitted@.len() == n,
                    indegree@.len() == n,
                    candidate <= n,
                    found ==> candidate < n && !emitted@[candidate as int] && indegree@[candidate as int] == 0,
                    forall|c: int|
                        0 <= c < candidate ==> #[trigger] emitted@[c] || indegree@[c] != 0,
                decreases n - candidate + if found { 0int } else { 1int },
            {
                if !emitted[candidate] && indegree[candidate] == 0 {
                    found = true;
                } else {
                    candidate += 1;
                }
            }
            if !found {
                proof {
                    assert forall|v: int| !ready(ps, placed, v) by {
                        if 0 <= v < n {
                            lemma_ready_iff(ps, edges@, emitted@, placed, v);
                        }
                    }
                    lemma_distinct_indices_miss(placed, n as int);
                    let missing = choose|v: int| 0 <= v < n && !placed.contains(v);
                    assert forall|order: Seq<int>| !#[trigger] is_topological_order(ps, order) by {
                        if is_topological_order(ps, order) {
                            lemma_distinct_indices_cover(order, n as int);
                            assert(order.contains(missing));
                            let j = choose|j: int| 0 <= j < order.len() && order[j] == missing;
                            lemma_stuck_order_is_placed(ps, placed, order, j);
                        }
                    }
                }
                return Err(GraphError::Cycle);
            }
            proof {
                lemma_ready_iff(ps, edges@, emitted@, placed, candidate as int);
                assert forall|v: int| 0 <= v < candidate implies !ready(ps, placed, v) by {
                    lemma_ready_iff(ps, edges@, emitted@, placed, v);
                }
                lemma_greedy_push(ps, placed, candidate as int);
                lemma_push_no_dup(placed, candidate as int);
            }
            let ghost old_emitted = emitted@;
            let ghost old_placed = placed;
            emitted.set(candidate, true);
            execution_order.push(self.passes[candidate].id);
            proof {
                placed = placed.push(candidate as int);
                assert(execution_order@ =~= scheduled_ids(ps, placed));
                assert forall|k: int| 0 <= k < n implies #[trigger] emitted@[k] == placed.contains(k) by {
                    if k != candidate {
                        if placed.contains(k) {
                            let c = choose|c: int| 0 <= c < placed.len() && placed[c] == k;
                            assert(old_placed[c] == k);
                        }
                        if old_emitted[k] {
                            assert(old_placed.contains(k));
                            let c = choose|c: int| 0 <= c < old_placed.len() && old_placed[c] == k;
                            assert(placed[c] == k);
                        }
                    } else {
                        assert(placed[placed.len() - 1] == k);
                    }
                }
            }
            let mut target: usize = 0;
            while target < n
                invariant
                    edge_table(ps, edges@),
                    n == ps.len(),
                    candidate < n,
                    old_emitted.len() == n,
                    !old_emitted[candidate as int],
                    emitted@ == old_emitted.update(candidate as int, true),
                    target <= n,
                    indegree@.len() == n,
                    forall|t: int|
                        0 <= t < n ==> #[trigger] indegree@[t] == pending_predecessors(
                            edges@,
                            if t < target { emitted@ } else { old_emitted },
                            t,
                            n as int,
                        ),
                decreases n - target,
            {
                proof {
                    lemma_pending_emit(edges@, old_emitted, candidate as int, target as int, n as int);
                }
                if edges[candidate][target] {
                    indegree[target] = indegree[target] - 1;
                }
                target += 1;
            }
            step += 1;
        }
        proof {
            lemma_greedy_is_topological(ps, placed);
        }
        Ok(execution_order)
    }

    /// Compile the declarations into a schedule.
    ///
    /// Rejects, in this order, a resource with more than one writer, then the
    /// first pass (in declaration order) that reads a resource nobody writes
    /// and that is not imported, or that names an undeclared dependency, and
    /// finally a dependency cycle. Otherwise every pass runs exactly once,
    /// after the passes it depends on, and among the passes ready at a step
    /// the earliest-declared one runs first.
    pub fn compile(self) -> (result: Result<CompiledGraph, GraphError>)
        requires
            self.wf(),
        ensures
            match validation_error(self@) {
                Some(error) => result == Err::<CompiledGraph, GraphError>(error),
                None => match result {
                    Ok(graph) => graph@.resources == self@.resources && schedules(
                        self@,
                        graph@.order,
                    ),
                    Err(error) => error == GraphError::Cycle && forall|order: Seq<int>|
                        !#[trigger] is_topological_order(self@.passes, order),
                },
            },
    {
        let writer_by_resource = match self.scan_writers() {
            Ok(table) => table,
            Err(error) => return Err(error),
        };
        let edges = match self.build_edges(&writer_by_resource) {
            Ok(edges) => edges,
            Err(error) => return Err(error),
        };
        let execution_order = match self.schedule(&edges) {
            Ok(order) => order,
            Err(error) => return Err(error),
        };
        Ok(CompiledGraph { execution_order, resources: self.resources })
    }
}



proof fn lemma_clean_pass(m: GraphModel, id: PassId, reads: Seq<ResourceId>, writes: Seq<ResourceId>)
    requires
        forall|i: int| 0 <= i < m.passes.len() ==> (#[trigger] m.passes[i]).id != id,
        forall|k: int| 0 <= k < (reads + writes).len() ==> (#[trigger] (reads + writes)[k]).0 < m.resources.len(),
        (reads + writes).no_duplicates(),
    ensures
        add_pass_error(m, id, reads, writes) == None::<GraphError>,
{
    let accesses = reads + writes;
    assert forall|k: int| 0 <= k < accesses.len() implies !#[trigger] unknown_pred(accesses, m.resources.len())(k) by {
        assert(accesses[k].0 < m.resources.len());
    }
    lemma_first_index_none(0, accesses.len() as int, unknown_pred(accesses, m.resources.len()));
    lemma_no_repeat(accesses);
}

/// Declarations of the production graph.
pub open spec fn production_model() -> GraphModel {
    GraphModel {
        resources: seq![
            ResourceDecl { class: ResourceClass::Persistent, imported: false },
            ResourceDecl { class: ResourceClass::Persistent, imported: false },
            ResourceDecl { class: ResourceClass::Persistent, imported: false },
            ResourceDecl { class: ResourceClass::ResizeDependent, imported: false },
            ResourceDecl { class: ResourceClass::ResizeDependent, imported: false },
            ResourceDecl { class: ResourceClass::Transient, imported: false },
        ],
        passes: seq![
            PassModel { id: PassId::ShadowNear, reads: seq![], writes: seq![ResourceId(0)], deps: seq![] },
            PassModel {
                id: PassId::ShadowMid,
                reads: seq![],
                writes: seq![ResourceId(1)],
                deps: seq![PassId::ShadowNear],
            },
            PassModel {
                id: PassId::ShadowFar,
                reads: seq![],
                writes: seq![ResourceId(2)],
                deps: seq![PassId::ShadowMid],
            },
            PassModel {
                id: PassId::Scene,
                reads: seq![ResourceId(0), ResourceId(1), ResourceId(2)],
                writes: seq![ResourceId(3), ResourceId(4)],
                deps: seq![PassId::ShadowFar],
            },
            PassModel {
                id: PassId::Postprocess,
                reads: seq![ResourceId(3)],
                writes: seq![ResourceId(5)],
                deps: seq![PassId::Scene],
            },
        ],
    }
}

proof fn lemma_production_schedule(m: GraphModel)
    requires
        m.resources == production_model().resources,
        m.passes =~~= production_model().passes,
    ensures
        validation_error(m) == None::<GraphError>,
        is_topological_order(m.passes, seq![0int, 1, 2, 3, 4]),
        forall|order: Seq<PassId>| schedules(m, order) ==> order == production_order(),
{
    let ps = m.passes;
    let identity = seq![0int, 1, 2, 3, 4];
    // Writes: one writer per resource.
    reveal_with_fuel(writes_upto, 6);
    let all = all_writes(ps);
    assert(all =~= seq![ResourceId(0), ResourceId(1), ResourceId(2), ResourceId(3), ResourceId(4), ResourceId(5)]);
    lemma_no_repeat(all);
    // Every read has a writer and every dependency is declared.
    assert forall|i: int| 0 <= i < ps.len() implies !#[trigger] input_error_pred(m)(i) by {
        assert forall|j: int| 0 <= j < ps[i].reads.len() implies !#[trigger] unsatisfied_read_pred(m, i)(j) by {
            let r = ps[i].reads[j];
            let w = r.0 as int;
            assert(ps[w].writes[0] == r);
            assert(ps[w].writes.contains(r));
        }
        lemma_first_index_none(0, ps[i].reads.len() as int, unsatisfied_read_pred(m, i));
        assert forall|j: int| 0 <= j < ps[i].deps.len() implies !#[trigger] unknown_dependency_pred(m, i)(j) by {
            assert(ps[i - 1].id == ps[i].deps[j]);
        }
        lemma_first_index_none(0, ps[i].deps.len() as int, unknown_dependency_pred(m, i));
    }
    lemma_first_index_none(0, ps.len() as int, input_error_pred(m));
    // Each pass depends only on earlier passes.
    assert forall|u: int, v: int| 0 <= u < 5 && 0 <= v < 5 && #[trigger] depends_on(ps, u, v) implies u < v by {
        if exists|j: int| 0 <= j < ps[v].reads.len() && ps[u].writes.contains(#[trigger] ps[v].reads[j]) {
            let j = choose|j: int| 0 <= j < ps[v].reads.len() && ps[u].writes.contains(#[trigger] ps[v].reads[j]);
            let k = choose|k: int| 0 <= k < ps[u].writes.len() && ps[u].writes[k] == ps[v].reads[j];
        } else {
            let k = choose|k: int| 0 <= k < ps[v].deps.len() && ps[v].deps[k] == ps[u].id;
        }
    }
    assert forall|k: int| 0 <= k < identity.len() implies {
        &&& ready(ps, identity.take(k), #[trigger] identity[k])
        &&& forall|v: int| 0 <= v < identity[k] ==> !ready(ps, identity.take(k), v)
    } by {
        assert forall|u: int| 0 <= u < ps.len() && #[trigger] depends_on(ps, u, k) implies identity.take(k).contains(u) by {
            assert(identity.take(k)[u] == u);
        }
        if identity.take(k).contains(k) {
            let c = choose|c: int| 0 <= c < identity.take(k).len() && identity.take(k)[c] == k;
        }
        assert forall|v: int| 0 <= v < identity[k] implies !ready(ps, identity.take(k), v) by {
            assert(identity.take(k)[v] == v);
        }
    }
    assert(identity.no_duplicates());
    lemma_greedy_is_topological(ps, identity);
    assert forall|order: Seq<PassId>| schedules(m, order) implies order == production_order() by {
        let placed = choose|placed: Seq<int>|
            #![trigger is_greedy(m.passes, placed)]
            is_topological_order(m.passes, placed) && is_greedy(m.passes, placed) && scheduled_ids(
                m.passes,
                placed,
            ) == order;
        law_greedy_schedule_is_unique(ps, placed, identity);
        assert(order =~= production_order());
    }
}

/// The production frame order.
pub open spec fn production_order() -> Seq<PassId> {
    seq![
        PassId::ShadowNear,
        PassId::ShadowMid,
        PassId::ShadowFar,
        PassId::Scene,
        PassId::Postprocess,
    ]
}

/// The production graph: three chained shadow cascades feeding the scene
/// pass, whose HDR target feeds the postprocess pass.
pub fn build_v2_render_graph() -> (result: Result<CompiledGraph, GraphError>)
    ensures
        result matches Ok(graph) && graph@.order == production_order() && graph@.resources
            == seq![
            ResourceDecl { class: ResourceClass::Persistent, imported: false },
            ResourceDecl { class: ResourceClass::Persistent, imported: false },
            ResourceDecl { class: ResourceClass::Persistent, imported: false },
            ResourceDecl { class: ResourceClass::ResizeDependent, imported: false },
            ResourceDecl { class: ResourceClass::ResizeDependent, imported: false },
            ResourceDecl { class: ResourceClass::Transient, imported: false },
        ],
{
    let mut builder = RenderGraphBuilder::new();
    let shadow_near = builder.add_resource(ResourceClass::Persistent, false);
    let shadow_mid = builder.add_resource(ResourceClass::Persistent, false);
    let shadow_far = builder.add_resource(ResourceClass::Persistent, false);
    let hdr_scene = builder.add_resource(ResourceClass::ResizeDependent, false);
    let depth = builder.add_resource(ResourceClass::ResizeDependent, false);
    let surface_output = builder.add_resource(ResourceClass::Transient, false);
    let ghost resources = builder@.resources;
    let no_resources: [ResourceId; 0] = [];
    let no_passes: [PassId; 0] = [];
    let shadow_near_writes = [shadow_near];
    proof {
        lemma_clean_pass(builder@, PassId::ShadowNear, no_resources@, shadow_near_writes@);
    }
    let added = builder.add_pass(PassId::ShadowNear, &no_resources, &shadow_near_writes, &no_passes);
    if let Err(error) = added {
        return Err(error);
    }
    let shadow_mid_writes = [shadow_mid];
    let shadow_mid_deps = [PassId::ShadowNear];
    proof {
        lemma_clean_pass(builder@, PassId::ShadowMid, no_resources@, shadow_mid_writes@);
    }
    let added = builder.add_pass(PassId::ShadowMid, &no_resources, &shadow_mid_writes, &shadow_mid_deps);
    if let Err(error) = added {
        return Err(error);
    }
    let shadow_far_writes = [shadow_far];
    let shadow_far_deps = [PassId::ShadowMid];
    proof {
        lemma_clean_pass(builder@, PassId::ShadowFar, no_resources@, shadow_far_writes@);
    }
    let added = builder.add_pass(PassId::ShadowFar, &no_resources, &shadow_far_writes, &shadow_far_deps);
    if let Err(error) = added {
        return Err(error);
    }
    let scene_reads = [shadow_near, shadow_mid, shadow_far];
    let scene_writes = [hdr_scene, depth];
    let scene_deps = [PassId::ShadowFar];
    proof {
        lemma_clean_pass(builder@, PassId::Scene, scene_reads@, scene_writes@);
    }
    let added = builder.add_pass(PassId::Scene, &scene_reads, &scene_writes, &scene_deps);
    if let Err(error) = added {
        return Err(error);
    }
    let post_reads = [hdr_scene];
    let post_writes = [surface_output];
    let post_deps = [PassId::Scene];
    proof {
        lemma_clean_pass(builder@, PassId::Postprocess, post_reads@, post_writes@);
    }
    let added = builder.add_pass(PassId::Postprocess, &post_reads, &post_writes, &post_deps);
    if let Err(error) = added {
        return Err(error);
    }
    proof {
        assert(no_resources@ =~= Seq::<ResourceId>::empty());
        assert(no_passes@ =~= Seq::<PassId>::empty());
        assert(shadow_near_writes@ =~= seq![ResourceId(0)]);
        assert(shadow_mid_writes@ =~= seq![ResourceId(1)]);
        assert(shadow_far_writes@ =~= seq![ResourceId(2)]);
        assert(shadow_mid_deps@ =~= seq![PassId::ShadowNear]);
        assert(shadow_far_deps@ =~= seq![PassId::ShadowMid]);
        assert(scene_reads@ =~= seq![ResourceId(0), ResourceId(1), ResourceId(2)]);
        assert(scene_writes@ =~= seq![ResourceId(3), ResourceId(4)]);
        assert(scene_deps@ =~= seq![PassId::ShadowFar]);
        assert(post_reads@ =~= seq![ResourceId(3)]);
        assert(post_writes@ =~= seq![ResourceId(5)]);
        assert(post_deps@ =~= seq![PassId::Scene]);
        assert(builder@.resources =~= production_model().resources);
        assert(builder@.passes =~~= production_model().passes);
        lemma_production_schedule(builder@);
    }
    builder.compile()
}

} // verus!
