//! Result rows and the order in which tables list them.

use crate::selector::{ImplKind, Pattern};
use vstd::prelude::*;
use vstd::seq_lib::to_multiset_build;

verus! {

/// One measurement: which backend hashed how many bytes of which pattern, and
/// what the metric came to. In a throughput row the value counts thousandths
/// of a MiB per second, in a latency row nanoseconds per call.
#[derive(Clone, Copy, Debug, PartialEq, Eq, Structural)]
pub struct Row {
    pub kind: ImplKind,
    pub size: usize,
    pub pattern: Pattern,
    pub value: u128,
}

/// The two metrics that a row can carry.
#[derive(Clone, Copy, Debug, PartialEq, Eq, Structural)]
pub enum Metric {
    Throughput,
    Latency,
}

/// `a` may stand before `b` in a table: rows go by the name of the pattern,
/// then by size, then by the name of the backend.
pub open spec fn key_le(a: Row, b: Row) -> bool {
    let pa = a.pattern.name_rank();
    let pb = b.pattern.name_rank();
    let ka = a.kind.name_rank();
    let kb = b.kind.name_rank();
    pa < pb || (pa == pb && (a.size < b.size || (a.size == b.size && ka <= kb)))
}

/// `a` and `b` measure the same backend on the same input.
pub open spec fn same_key(a: Row, b: Row) -> bool {
    a.pattern == b.pattern && a.size == b.size && a.kind == b.kind
}

/// The rows that measure what `k` measures.
pub open spec fn with_key(k: Row) -> spec_fn(Row) -> bool {
    |r: Row| same_key(r, k)
}

/// No row stands before one that must precede it.
pub open spec fn ordered(s: Seq<Row>) -> bool {
    forall|i: int, j: int| 0 <= i <= j < s.len() ==> key_le(s[i], s[j])
}

/// `s`, already in order, with `r` put behind the last row that may stand
/// before it.
pub open spec fn insert_row(s: Seq<Row>, r: Row) -> Seq<Row>
    decreases s.len(),
{
    if s.len() > 0 && !key_le(s.last(), r) {
        insert_row(s.drop_last(), r).push(s.last())
    } else {
        s.push(r)
    }
}

/// The rows in table order. Rows that measure the same thing keep the order
/// in which they were recorded.
pub open spec fn sorted_rows(s: Seq<Row>) -> Seq<Row>
    decreases s.len(),
{
    if s.len() == 0 {
        s
    } else {
        insert_row(sorted_rows(s.drop_last()), s.last())
    }
}

/// The table order is total: of two rows one may stand before the other, and
/// both ways round only where they measure the same thing.
pub proof fn lemma_key_le_total(a: Row, b: Row)
    ensures
        key_le(a, b) || key_le(b, a),
        key_le(a, b) && key_le(b, a) <==> same_key(a, b),
{
    crate::selector::lemma_pattern_rank_orders_names(a.pattern, b.pattern);
    crate::selector::lemma_impl_rank_orders_names(a.kind, b.kind);
}

/// The table order is transitive.
pub proof fn lemma_key_le_transitive(a: Row, b: Row, c: Row)
    requires
        key_le(a, b),
        key_le(b, c),
    ensures
        key_le(a, c),
{
}

proof fn lemma_insert_row(s: Seq<Row>, r: Row)
    requires
        ordered(s),
    ensures
        ordered(insert_row(s, r)),
        insert_row(s, r).len() == s.len() + 1,
        insert_row(s, r).to_multiset() == s.to_multiset().insert(r),
        forall|i: int|
            0 <= i < insert_row(s, r).len() ==> #[trigger] insert_row(s, r)[i] == r || s.contains(
                insert_row(s, r)[i],
            ),
    decreases s.len(),
{
    let t = insert_row(s, r);
    if s.len() > 0 && !key_le(s.last(), r) {
        let front = s.drop_last();
        let last = s.last();
        let u = insert_row(front, r);
        assert(ordered(front)) by {
            assert forall|i: int, j: int| 0 <= i <= j < front.len() implies key_le(
                front[i],
                front[j],
            ) by {
                assert(front[i] == s[i] && front[j] == s[j]);
            }
        }
        lemma_insert_row(front, r);
        assert(s =~= front.push(last));
        to_multiset_build(front, last);
        to_multiset_build(u, last);
        assert(t.to_multiset() =~= s.to_multiset().insert(r));
        assert forall|i: int| 0 <= i < t.len() implies #[trigger] t[i] == r || s.contains(
            t[i],
        ) by {
            if i < u.len() {
                assert(t[i] == u[i]);
                if u[i] != r {
                    let j = choose|j: int| 0 <= j < front.len() && front[j] == u[i];
                    assert(s[j] == t[i]);
                }
            } else {
                assert(s[s.len() - 1] == t[i]);
            }
        }
        assert forall|i: int, j: int| 0 <= i <= j < t.len() implies key_le(t[i], t[j]) by {
            if j < u.len() {
                assert(t[i] == u[i] && t[j] == u[j]);
            } else if i < u.len() {
                assert(t[i] == u[i]);
                if u[i] == r {
                    lemma_key_le_total(r, last);
                } else {
                    let k = choose|k: int| 0 <= k < front.len() && front[k] == u[i];
                    assert(key_le(s[k], s[s.len() - 1]));
                }
            } else {
                lemma_key_le_total(last, last);
            }
        }
    } else {
        to_multiset_build(s, r);
        assert forall|i: int| 0 <= i < t.len() implies #[trigger] t[i] == r || s.contains(
            t[i],
        ) by {
            if i < s.len() {
                assert(s[i] == t[i]);
            }
        }
        assert forall|i: int, j: int| 0 <= i <= j < t.len() implies key_le(t[i], t[j]) by {
            if j < s.len() {
                assert(t[i] == s[i] && t[j] == s[j]);
            } else if i < s.len() {
                assert(t[i] == s[i]);
                assert(key_le(s[i], s[s.len() - 1]));
                lemma_key_le_transitive(s[i], s.last(), r);
            } else {
                lemma_key_le_total(r, r);
            }
        }
    }
}

proof fn lemma_insert_row_filter(s: Seq<Row>, r: Row, k: Row)
    ensures
        insert_row(s, r).filter(with_key(k)) == if same_key(r, k) {
            s.filter(with_key(k)).push(r)
        } else {
            s.filter(with_key(k))
        },
    decreases s.len(),
{
    reveal(Seq::filter);
    let f = with_key(k);
    if s.len() > 0 && !key_le(s.last(), r) {
        let front = s.drop_last();
        let last = s.last();
        let u = insert_row(front, r);
        lemma_insert_row_filter(front, r, k);
        assert(u.push(last).drop_last() =~= u);
        lemma_key_le_total(last, r);
        assert(!(f(last) && f(r)));
    } else {
        assert(s.push(r).drop_last() =~= s);
    }
}

/// The table order puts every row where its key asks.
pub proof fn lemma_sorted_rows_ordered(s: Seq<Row>)
    ensures
        ordered(sorted_rows(s)),
        sorted_rows(s).len() == s.len(),
    decreases s.len(),
{
    if s.len() > 0 {
        lemma_sorted_rows_ordered(s.drop_last());
        lemma_insert_row(sorted_rows(s.drop_last()), s.last());
    }
}

/// The table order neither drops nor adds a row.
pub proof fn lemma_sorted_rows_keeps_rows(s: Seq<Row>)
    ensures
        sorted_rows(s).to_multiset() == s.to_multiset(),
    decreases s.len(),
{
    if s.len() > 0 {
        lemma_sorted_rows_ordered(s.drop_last());
        lemma_sorted_rows_keeps_rows(s.drop_last());
        lemma_insert_row(sorted_rows(s.drop_last()), s.last());
        assert(s =~= s.drop_last().push(s.last()));
        to_multiset_build(s.drop_last(), s.last());
    }
}

/// The table order is stable: the rows that measure the same thing come out
/// in the order in which they went in.
pub proof fn lemma_sorted_rows_stable(s: Seq<Row>, k: Row)
    ensures
        sorted_rows(s).filter(with_key(k)) == s.filter(with_key(k)),
    decreases s.len(),
{
    reveal(Seq::filter);
    if s.len() > 0 {
        lemma_sorted_rows_stable(s.drop_last(), k);
        lemma_insert_row_filter(sorted_rows(s.drop_last()), s.last(), k);
    }
}

proof fn lemma_filter_nonempty(s: Seq<Row>, k: Row)
    requires
        s.len() > 0,
        same_key(s.last(), k),
    ensures
        s.filter(with_key(k)) == s.drop_last().filter(with_key(k)).push(s.last()),
{
    reveal(Seq::filter);
}

proof fn lemma_filter_skips_last(s: Seq<Row>, k: Row)
    requires
        s.len() > 0,
        !same_key(s.last(), k),
    ensures
        s.filter(with_key(k)) == s.drop_last().filter(with_key(k)),
{
    reveal(Seq::filter);
}

proof fn lemma_last_keys_agree(t: Seq<Row>, u: Seq<Row>)
    requires
        ordered(u),
        t.len() > 0,
        t.filter(with_key(t.last())) == u.filter(with_key(t.last())),
    ensures
        u.len() > 0,
        key_le(t.last(), u.last()),
{
    let a = t.last();
    let f = with_key(a);
    lemma_filter_nonempty(t, a);
    let hits = u.filter(f);
    assert(hits.len() > 0);
    u.lemma_filter_pred(f, 0);
    let x = hits[0];
    assert(hits.contains(x));
    u.lemma_filter_contains_rev(f, x);
    let j = choose|j: int| 0 <= j < u.len() && u[j] == x;
    assert(key_le(u[j], u[u.len() - 1]));
    lemma_key_le_total(x, a);
}

proof fn lemma_ordered_and_stable_is_unique(t: Seq<Row>, u: Seq<Row>)
    requires
        ordered(t),
        ordered(u),
        forall|k: Row| t.filter(with_key(k)) == u.filter(with_key(k)),
    ensures
        t == u,
    decreases t.len() + u.len(),
{
    if t.len() == 0 && u.len() == 0 {
        assert(t =~= u);
    } else if t.len() == 0 {
        lemma_last_keys_agree(u, t);
    } else {
        lemma_last_keys_agree(t, u);
        lemma_last_keys_agree(u, t);
        let a = t.last();
        let b = u.last();
        lemma_key_le_total(a, b);
        let front = t.drop_last();
        let back = u.drop_last();
        lemma_filter_nonempty(t, a);
        lemma_filter_nonempty(u, a);
        assert(t.filter(with_key(a)).last() == a);
        assert(u.filter(with_key(a)).last() == b);
        assert forall|k: Row| front.filter(with_key(k)) == back.filter(with_key(k)) by {
            if same_key(a, k) {
                lemma_filter_nonempty(t, k);
                lemma_filter_nonempty(u, k);
                assert(front.filter(with_key(k)) =~= t.filter(with_key(k)).drop_last());
                assert(back.filter(with_key(k)) =~= u.filter(with_key(k)).drop_last());
            } else {
                lemma_filter_skips_last(t, k);
                lemma_filter_skips_last(u, k);
            }
        }
        assert(ordered(front)) by {
            assert forall|i: int, j: int| 0 <= i <= j < front.len() implies key_le(
                front[i],
                front[j],
            ) by {
                assert(front[i] == t[i] && front[j] == t[j]);
            }
        }
        assert(ordered(back)) by {
            assert forall|i: int, j: int| 0 <= i <= j < back.len() implies key_le(
                back[i],
                back[j],
            ) by {
                assert(back[i] == u[i] && back[j] == u[j]);
            }
        }
        lemma_ordered_and_stable_is_unique(front, back);
        assert(t =~= front.push(a));
        assert(u =~= back.push(b));
    }
}

/// The table order is the only arrangement of the rows that is both in order
/// and stable.
pub proof fn lemma_table_order_unique(t: Seq<Row>, s: Seq<Row>)
    requires
        ordered(t),
        forall|k: Row| t.filter(with_key(k)) == s.filter(with_key(k)),
    ensures
        t == sorted_rows(s),
{
    lemma_sorted_rows_ordered(s);
    assert forall|k: Row| t.filter(with_key(k)) == sorted_rows(s).filter(with_key(k)) by {
        lemma_sorted_rows_stable(s, k);
    }
    lemma_ordered_and_stable_is_unique(t, sorted_rows(s));
}

/// Tells whether `a` may stand before `b` in a table.
pub fn key_at_most(a: &Row, b: &Row) -> (le: bool)
    ensures
        le == key_le(*a, *b),
{
    let pa = a.pattern.rank();
    let pb = b.pattern.rank();
    pa < pb || (pa == pb && (a.size < b.size || (a.size == b.size && a.kind.rank()
        <= b.kind.rank())))
}

/// Puts the rows in table order.
pub fn sort_rows(rows: &[Row]) -> (sorted: Vec<Row>)
    ensures
        sorted@ == sorted_rows(rows@),
{
    let mut out: Vec<Row> = Vec::new();
    let mut i: usize = 0;
    assert(rows@.subrange(0, 0) =~= Seq::<Row>::empty());
    while i < rows.len()
        invariant
            i <= rows.len(),
            out@ == sorted_rows(rows@.subrange(0, i as int)),
        decreases rows.len() - i,
    {
        let r: Row = rows[i];
        let ghost before = out@;
        let mut p: usize = out.len();
        assert(before.subrange(0, p as int) =~= before);
        assert(before.subrange(p as int, before.len() as int) =~= Seq::<Row>::empty());
        while p > 0 && !key_at_most(&out[p - 1], &r)
            invariant
                p <= out.len(),
                out@ == before,
                insert_row(before, r) == insert_row(before.subrange(0, p as int), r)
                    + before.subrange(p as int, before.len() as int),
            decreases p,
        {
            proof {
                let head = before.subrange(0, p as int);
                assert(head.last() == before[p - 1]);
                assert(head.drop_last() =~= before.subrange(0, p - 1));
                assert(insert_row(head, r) == insert_row(before.subrange(0, p - 1), r).push(
                    before[p - 1],
                ));
                assert(insert_row(before.subrange(0, p - 1), r).push(before[p - 1])
                    + before.subrange(p as int, before.len() as int) =~= insert_row(
                    before.subrange(0, p - 1),
                    r,
                ) + before.subrange(p - 1, before.len() as int));
            }
            p -= 1;
        }
        out.insert(p, r);
        proof {
            let head = before.subrange(0, p as int);
            if p > 0 {
                assert(head.last() == before[p - 1]);
            }
            assert(insert_row(head, r) == head.push(r));
            assert(out@ =~= head.push(r) + before.subrange(p as int, before.len() as int));
            let next = rows@.subrange(0, i + 1);
            assert(next.drop_last() =~= rows@.subrange(0, i as int));
            assert(next.last() == r);
        }
        i += 1;
    }
    assert(rows@.subrange(0, rows.len() as int) =~= rows@);
    out
}

} // verus!
