//! Stable ascending sort of rationals by value.
use crate::geometry::{lemma_le_transitive, lemma_lt_le_transitive, Ratio};
use vstd::prelude::*;

verus! {

/// `x` placed into `s` before the first element of greater value.
pub open spec fn insert_by_value(s: Seq<Ratio>, x: Ratio) -> Seq<Ratio>
    decreases s.len(),
{
    if s.len() == 0 {
        seq![x]
    } else if x.lt(s[0]) {
        seq![x] + s
    } else {
        seq![s[0]] + insert_by_value(s.drop_first(), x)
    }
}

/// The stable sort of `s` by value: each element in turn is placed before
/// the first element already placed that has a greater value, so elements
/// of equal value keep their order.
pub open spec fn sort_by_value(s: Seq<Ratio>) -> Seq<Ratio>
    decreases s.len(),
{
    if s.len() == 0 {
        s
    } else {
        insert_by_value(sort_by_value(s.drop_last()), s.last())
    }
}

/// Every element is at most every later element, by value.
pub open spec fn ascending(s: Seq<Ratio>) -> bool {
    forall|i: int, j: int| 0 <= i < j < s.len() ==> (#[trigger] s[i]).le(#[trigger] s[j])
}

pub open spec fn all_wf(s: Seq<Ratio>) -> bool {
    forall|i: int| 0 <= i < s.len() ==> (#[trigger] s[i]).wf()
}

/// Inserting before the first greater element is inserting at that index.
proof fn lemma_insert_at_first_greater(s: Seq<Ratio>, x: Ratio, j: int)
    requires
        0 <= j <= s.len(),
        forall|k: int| 0 <= k < j ==> !x.lt(#[trigger] s[k]),
        j == s.len() || x.lt(s[j]),
    ensures
        insert_by_value(s, x) == s.insert(j, x),
    decreases s.len(),
{
    if s.len() == 0 {
        assert(s.insert(j, x) == seq![x]);
    } else if j == 0 {
        assert(s.insert(0, x) == seq![x] + s);
    } else {
        let t = s.drop_first();
        assert forall|k: int| 0 <= k < j - 1 implies !x.lt(#[trigger] t[k]) by {
            assert(t[k] == s[k + 1]);
        }
        lemma_insert_at_first_greater(t, x, j - 1);
        assert(s.insert(j, x) == seq![s[0]] + t.insert(j - 1, x));
    }
}

/// Insertion keeps the elements and adds `x`, and keeps an ascending
/// sequence ascending.
proof fn lemma_insert_keeps_order(s: Seq<Ratio>, x: Ratio)
    requires
        all_wf(s),
        x.wf(),
        ascending(s),
    ensures
        ascending(insert_by_value(s, x)),
        all_wf(insert_by_value(s, x)),
        insert_by_value(s, x).to_multiset() == s.to_multiset().insert(x),
    decreases s.len(),
{
    broadcast use vstd::seq_lib::group_to_multiset_ensures;

    if s.len() == 0 {
        assert(seq![x] == s.push(x));
    } else if x.lt(s[0]) {
        let r = seq![x] + s;
        assert forall|i: int, j: int| 0 <= i < j < r.len() implies (#[trigger] r[i]).le(
            #[trigger] r[j],
        ) by {
            if i == 0 {
                if j > 1 {
                    assert(s[0].le(s[j - 1]));
                    lemma_lt_le_transitive(x, s[0], s[j - 1]);
                }
            } else {
                assert(s[i - 1].le(s[j - 1]));
            }
        }
        assert(r == s.insert(0, x));
    } else {
        let t = s.drop_first();
        assert forall|i: int, j: int| 0 <= i < j < t.len() implies (#[trigger] t[i]).le(
            #[trigger] t[j],
        ) by {
            assert(s[i + 1].le(s[j + 1]));
        }
        lemma_insert_keeps_order(t, x);
        let u = insert_by_value(t, x);
        let r = seq![s[0]] + u;
        assert forall|j: int| 0 <= j < u.len() implies s[0].le(#[trigger] u[j]) by {
            assert(u.to_multiset().count(u[j]) > 0);
            assert(t.to_multiset().insert(x).count(u[j]) > 0);
            if u[j] != x {
                assert(t.to_multiset().count(u[j]) > 0);
                assert(t.contains(u[j]));
                let k = choose|k: int| 0 <= k < t.len() && t[k] == u[j];
                assert(s[0].le(s[k + 1]));
            }
        }
        assert forall|i: int, j: int| 0 <= i < j < r.len() implies (#[trigger] r[i]).le(
            #[trigger] r[j],
        ) by {
            if i == 0 {
                assert(s[0].le(u[j - 1]));
            } else {
                assert(u[i - 1].le(u[j - 1]));
            }
        }
        assert forall|j: int| 0 <= j < u.len() implies (#[trigger] u[j]).wf() by {
            assert(u.to_multiset().count(u[j]) > 0);
            assert(t.to_multiset().insert(x).count(u[j]) > 0);
            if u[j] != x {
                assert(t.to_multiset().count(u[j]) > 0);
                assert(t.contains(u[j]));
            }
        }
        assert(r.to_multiset() == u.to_multiset().insert(s[0])) by {
            assert(r == u.insert(0, s[0]));
        }
        assert(s == t.insert(0, s[0]));
    }
}

/// The sort is ascending and holds the same elements, each as often.
pub proof fn lemma_sort_by_value(s: Seq<Ratio>)
    requires
        all_wf(s),
    ensures
        ascending(sort_by_value(s)),
        all_wf(sort_by_value(s)),
        sort_by_value(s).to_multiset() == s.to_multiset(),
    decreases s.len(),
{
    broadcast use vstd::seq_lib::group_to_multiset_ensures;

    if s.len() > 0 {
        let p = s.drop_last();
        lemma_sort_by_value(p);
        lemma_insert_keeps_order(sort_by_value(p), s.last());
        assert(s == p.push(s.last()));
    }
}

/// The stable ascending sort of well-formed ratios by value.
pub fn sort_ratios(v: &Vec<Ratio>) -> (r: Vec<Ratio>)
    requires
        all_wf(v@),
    ensures
        r@ == sort_by_value(v@),
        all_wf(r@),
{
    let mut out: Vec<Ratio> = Vec::new();
    let mut i: usize = 0;
    while i < v.len()
        invariant
            i <= v@.len(),
            all_wf(v@),
            out@ == sort_by_value(v@.subrange(0, i as int)),
            all_wf(out@),
        decreases v@.len() - i,
    {
        let x = v[i];
        let mut j: usize = 0;
        while j < out.len() && !x.less_than(&out[j])
            invariant
                j <= out@.len(),
                x.wf(),
                all_wf(out@),
                forall|k: int| 0 <= k < j ==> !x.lt(#[trigger] out@[k]),
            decreases out@.len() - j,
        {
            j = j + 1;
        }
        proof {
            lemma_insert_at_first_greater(out@, x, j as int);
            let pre = v@.subrange(0, i as int + 1);
            assert(pre.drop_last() == v@.subrange(0, i as int));
            lemma_sort_by_value(v@.subrange(0, i as int));
            lemma_insert_keeps_order(out@, x);
        }
        out.insert(j, x);
        i = i + 1;
    }
    assert(v@.subrange(0, v@.len() as int) == v@);
    out
}

} // verus!
