//! First-match search over an integer range, the vocabulary in which the
//! error precedence of the validating builders is stated.

use vstd::prelude::*;

verus! {

/// The smallest `k` in `[lo, hi)` satisfying `pred`, if any.
pub open spec fn first_index(lo: int, hi: int, pred: spec_fn(int) -> bool) -> Option<int>
    decreases hi - lo,
{
    if lo >= hi {
        None
    } else if pred(lo) {
        Some(lo)
    } else {
        first_index(lo + 1, hi, pred)
    }
}

/// Position `k` of `s` holds a value already present in `s[0..k]`.
pub open spec fn repeat_pred<A>(s: Seq<A>) -> spec_fn(int) -> bool {
    |k: int| s.take(k).contains(s[k])
}

/// The first position of `s` whose value occurred earlier, if any.
pub open spec fn first_repeat<A>(s: Seq<A>) -> Option<int> {
    first_index(0, s.len() as int, repeat_pred(s))
}

/// Characterization of `first_index`: it is the least witness, or there is none.
pub proof fn lemma_first_index(lo: int, hi: int, pred: spec_fn(int) -> bool)
    ensures
        match first_index(lo, hi, pred) {
            Some(k) => lo <= k < hi && pred(k) && forall|j: int| lo <= j < k ==> !#[trigger] pred(j),
            None => forall|j: int| lo <= j < hi ==> !#[trigger] pred(j),
        },
    decreases hi - lo,
{
    if lo < hi && !pred(lo) {
        lemma_first_index(lo + 1, hi, pred);
        assert forall|j: int| lo <= j < hi && j < (match first_index(lo, hi, pred) {
            Some(k) => k,
            None => hi,
        }) implies !#[trigger] pred(j) by {
            if j > lo {
            }
        }
    }
}

/// `first_index` returns a given least witness.
pub proof fn lemma_first_index_is(lo: int, hi: int, pred: spec_fn(int) -> bool, k: int)
    requires
        lo <= k < hi,
        pred(k),
        forall|j: int| lo <= j < k ==> !#[trigger] pred(j),
    ensures
        first_index(lo, hi, pred) == Some(k),
{
    lemma_first_index(lo, hi, pred);
}

/// `first_index` finds nothing when no index qualifies.
pub proof fn lemma_first_index_none(lo: int, hi: int, pred: spec_fn(int) -> bool)
    requires
        forall|j: int| lo <= j < hi ==> !#[trigger] pred(j),
    ensures
        first_index(lo, hi, pred) == None::<int>,
{
    lemma_first_index(lo, hi, pred);
}

/// A duplicate-free sequence has no repeated position.
pub proof fn lemma_no_repeat<A>(s: Seq<A>)
    requires
        s.no_duplicates(),
    ensures
        first_repeat(s) == None::<int>,
{
    assert forall|k: int| 0 <= k < s.len() implies !(#[trigger] repeat_pred(s)(k)) by {
        if s.take(k).contains(s[k]) {
            let i = choose|i: int| 0 <= i < s.take(k).len() && s.take(k)[i] == s[k];
            assert(s[i] == s[k]);
        }
    }
    lemma_first_index_none(0, s.len() as int, repeat_pred(s));
}

/// A sequence of `n` distinct indices below `n` contains every index below `n`.
pub proof fn lemma_distinct_indices_cover(s: Seq<int>, n: int)
    requires
        s.no_duplicates(),
        s.len() == n,
        forall|k: int| 0 <= k < s.len() ==> 0 <= #[trigger] s[k] < n,
    ensures
        forall|v: int| 0 <= v < n ==> s.contains(v),
{
    assert forall|v: int| 0 <= v < n implies s.contains(v) by {
        if !s.contains(v) {
            s.unique_seq_to_set();
            vstd::set_lib::lemma_int_range(0, n);
            assert(s.to_set().subset_of(vstd::set_lib::set_int_range(0, n)));
            s.to_set().lemma_subset_not_in_lt(vstd::set_lib::set_int_range(0, n), v);
        }
    }
}

/// Fewer than `n` distinct indices below `n` miss at least one index.
pub proof fn lemma_distinct_indices_miss(s: Seq<int>, n: int)
    requires
        s.no_duplicates(),
        s.len() < n,
        forall|k: int| 0 <= k < s.len() ==> 0 <= #[trigger] s[k] < n,
    ensures
        exists|v: int| 0 <= v < n && !s.contains(v),
{
    if forall|v: int| 0 <= v < n ==> s.contains(v) {
        s.unique_seq_to_set();
        vstd::set_lib::lemma_int_range(0, n);
        assert(vstd::set_lib::set_int_range(0, n).subset_of(s.to_set()));
        vstd::set_lib::lemma_len_subset(vstd::set_lib::set_int_range(0, n), s.to_set());
    }
}

} // verus!
