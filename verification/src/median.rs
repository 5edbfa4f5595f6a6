//! Aggregation of trials by their median.
//!
//! The median of a non-empty run of trials is the element at index
//! `(n - 1) / 2` of the run sorted in ascending order: the middle one for an
//! odd count, the lower of the two middle ones for an even count. No two
//! middle values are ever averaged.

use vstd::prelude::*;
use vstd::relations::{sorted_by, total_ordering};
use vstd::seq_lib::{lemma_sorted_unique, to_multiset_build, to_multiset_insert};

verus! {

/// `<=` on trial values, as a relation.
pub open spec fn at_most() -> spec_fn(u128, u128) -> bool {
    |a: u128, b: u128| a <= b
}

/// No element is larger than one that follows it.
pub open spec fn ascending(s: Seq<u128>) -> bool {
    forall|i: int, j: int| 0 <= i <= j < s.len() ==> s[i] <= s[j]
}

/// `t` holds the elements of `s`, each as often as `s` does, in ascending order.
pub open spec fn sorting_of(t: Seq<u128>, s: Seq<u128>) -> bool {
    ascending(t) && t.to_multiset() == s.to_multiset()
}

/// The trials in ascending order.
pub open spec fn sorted_trials(s: Seq<u128>) -> Seq<u128> {
    s.sort_by(at_most())
}

/// The median of a non-empty run of trials.
pub open spec fn median_spec(s: Seq<u128>) -> u128
    recommends
        s.len() > 0,
{
    sorted_trials(s)[(s.len() - 1) / 2]
}

/// Trial values of 64 bits, read as values of 128 bits.
pub open spec fn widened(s: Seq<u64>) -> Seq<u128> {
    Seq::new(s.len(), |i: int| s[i] as u128)
}

/// `sorted_trials` really sorts: it keeps every element and puts them in
/// ascending order.
pub proof fn lemma_sorted_trials(s: Seq<u128>)
    ensures
        sorting_of(sorted_trials(s), s),
        sorted_trials(s).len() == s.len(),
{
    broadcast use vstd::seq_lib::group_to_multiset_ensures;

    assert(total_ordering(at_most()));
    s.lemma_sort_by_ensures(at_most());
    let t = sorted_trials(s);
    assert(sorted_by(t, at_most()));
    assert forall|i: int, j: int| 0 <= i <= j < t.len() implies t[i] <= t[j] by {
        if i < j {
            assert(at_most()(t[i], t[j]));
        }
    }
    assert(t.to_multiset().len() == s.to_multiset().len());
}

/// A run of trials has one ascending order only.
pub proof fn lemma_sorting_unique(t: Seq<u128>, s: Seq<u128>)
    requires
        sorting_of(t, s),
    ensures
        t == sorted_trials(s),
{
    lemma_sorted_trials(s);
    let u = sorted_trials(s);
    assert(total_ordering(at_most()));
    assert(sorted_by(t, at_most())) by {
        assert forall|i: int, j: int| 0 <= i < j < t.len() implies #[trigger] at_most()(
            t[i],
            t[j],
        ) by {
            assert(t[i] <= t[j]);
        }
    }
    assert(sorted_by(u, at_most())) by {
        assert forall|i: int, j: int| 0 <= i < j < u.len() implies #[trigger] at_most()(
            u[i],
            u[j],
        ) by {
            assert(u[i] <= u[j]);
        }
    }
    lemma_sorted_unique(t, u, at_most());
}

/// Of trials that already stand in ascending order the median is the element
/// in the middle when their count is odd, and the lower of the two in the
/// middle when it is even.
pub proof fn lemma_median_of_ascending(s: Seq<u128>)
    requires
        s.len() > 0,
        ascending(s),
    ensures
        median_spec(s) == s[(s.len() - 1) / 2],
        s.len() % 2 == 1 ==> median_spec(s) == s[s.len() as int / 2],
        s.len() % 2 == 0 ==> median_spec(s) == s[s.len() / 2 - 1],
{
    lemma_sorting_unique(s, s);
}

/// The median does not depend on the order in which the trials were run.
pub proof fn lemma_median_ignores_order(s: Seq<u128>, t: Seq<u128>)
    requires
        s.len() > 0,
        s.to_multiset() == t.to_multiset(),
    ensures
        median_spec(s) == median_spec(t),
{
    lemma_sorted_trials(s);
    lemma_sorting_unique(sorted_trials(s), t);
    vstd::seq_lib::to_multiset_len(s);
    vstd::seq_lib::to_multiset_len(t);
}

/// The median is one of the trials.
pub proof fn lemma_median_is_a_trial(s: Seq<u128>)
    requires
        s.len() > 0,
    ensures
        s.contains(median_spec(s)),
{
    broadcast use vstd::seq_lib::group_to_multiset_ensures;

    lemma_sorted_trials(s);
    let t = sorted_trials(s);
    let m = t[(s.len() - 1) / 2];
    assert(t.contains(m));
    assert(t.to_multiset().count(m) > 0);
}

/// Sorts the trials in ascending order.
pub fn sort_trials(v: &Vec<u128>) -> (sorted: Vec<u128>)
    ensures
        sorted@ == sorted_trials(v@),
        sorting_of(sorted@, v@),
{
    let mut out: Vec<u128> = Vec::new();
    let mut i: usize = 0;
    assert(v@.subrange(0, 0) =~= out@);
    while i < v.len()
        invariant
            i <= v.len(),
            ascending(out@),
            out@.to_multiset() == v@.subrange(0, i as int).to_multiset(),
        decreases v.len() - i,
    {
        let x: u128 = v[i];
        let mut p: usize = 0;
        while p < out.len() && out[p] <= x
            invariant
                p <= out.len(),
                forall|k: int| 0 <= k < p ==> out@[k] <= x,
            decreases out.len() - p,
        {
            p += 1;
        }
        let ghost before = out@;
        out.insert(p, x);
        proof {
            to_multiset_insert(before, p as int, x);
            to_multiset_build(v@.subrange(0, i as int), x);
            assert(v@.subrange(0, i + 1) =~= v@.subrange(0, i as int).push(x));
            assert forall|a: int, b: int| 0 <= a <= b < out@.len() implies out@[a] <= out@[b] by {
                if b < p {
                    assert(out@[a] == before[a] && out@[b] == before[b]);
                } else if b == p {
                    if a < p {
                        assert(out@[a] == before[a]);
                    }
                } else {
                    assert(out@[b] == before[b - 1]);
                    assert(before[p as int] <= before[b - 1]);
                    if a < p {
                        assert(out@[a] == before[a]);
                    } else if a > p {
                        assert(out@[a] == before[a - 1]);
                    }
                }
            }
        }
        i += 1;
    }
    proof {
        assert(v@.subrange(0, v.len() as int) =~= v@);
        lemma_sorting_unique(out@, v@);
    }
    out
}

/// The median of the trials in `v`.
pub fn median(v: &Vec<u128>) -> (m: u128)
    requires
        v.len() > 0,
    ensures
        m == median_spec(v@),
{
    let sorted = sort_trials(v);
    proof {
        lemma_sorted_trials(v@);
    }
    sorted[(sorted.len() - 1) / 2]
}

/// Runs `f` once per trial and returns the median of what it reported, in
/// nanoseconds.
pub fn median_ns<F: Fn() -> u64>(f: F, trials: u32) -> (m: u64)
    requires
        trials > 0,
        call_requires(f, ()),
    ensures
        exists|runs: Seq<u64>|
            {
                &&& runs.len() == trials
                &&& forall|i: int| 0 <= i < runs.len() ==> call_ensures(f, (), #[trigger] runs[i])
                &&& m == median_spec(widened(runs))
            },
{
    let mut v: Vec<u128> = Vec::new();
    let ghost mut runs: Seq<u64> = Seq::empty();
    let mut i: u32 = 0;
    while i < trials
        invariant
            i <= trials,
            call_requires(f, ()),
            runs.len() == i,
            v@ == widened(runs),
            forall|k: int| 0 <= k < runs.len() ==> call_ensures(f, (), #[trigger] runs[k]),
        decreases trials - i,
    {
        let r: u64 = f();
        proof {
            let next = runs.push(r);
            assert(widened(next) =~= v@.push(r as u128));
            runs = next;
        }
        v.push(r as u128);
        i += 1;
    }
    let m = median(&v);
    proof {
        lemma_median_is_a_trial(v@);
        let k = v@.index_of(m);
        assert(v@[k] == runs[k] as u128);
    }
    m as u64
}

/// Runs `f` once per trial and returns the median of what it reported, in
/// thousandths of a MiB per second.
pub fn median_rate<F: Fn() -> u128>(f: F, trials: u32) -> (m: u128)
    requires
        trials > 0,
        call_requires(f, ()),
    ensures
        exists|runs: Seq<u128>|
            {
                &&& runs.len() == trials
                &&& forall|i: int| 0 <= i < runs.len() ==> call_ensures(f, (), #[trigger] runs[i])
                &&& m == median_spec(runs)
            },
{
    let mut v: Vec<u128> = Vec::new();
    let mut i: u32 = 0;
    while i < trials
        invariant
            i <= trials,
            call_requires(f, ()),
            v@.len() == i,
            forall|k: int| 0 <= k < v@.len() ==> call_ensures(f, (), #[trigger] v@[k]),
        decreases trials - i,
    {
        let r: u128 = f();
        v.push(r);
        i += 1;
    }
    median(&v)
}

} // verus!
