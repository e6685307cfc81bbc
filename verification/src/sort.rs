//! Ascending insertion sort over fixed-point values, pinned to a recursive
//! specification, with the laws that make it the sort: the result is ordered
//! and holds exactly the input's elements.

use vstd::prelude::*;
use vstd::seq_lib::lemma_multiset_commutative;

verus! {

/// `v` inserted into `s` just before the longest suffix of greater elements.
pub open spec fn spec_insert_sorted(s: Seq<i64>, v: i64) -> Seq<i64>
    decreases s.len(),
{
    if s.len() == 0 {
        seq![v]
    } else if s.last() <= v {
        s.push(v)
    } else {
        spec_insert_sorted(s.drop_last(), v).push(s.last())
    }
}

/// Ascending insertion sort.
pub open spec fn spec_sort(s: Seq<i64>) -> Seq<i64>
    decreases s.len(),
{
    if s.len() == 0 {
        Seq::empty()
    } else {
        spec_insert_sorted(spec_sort(s.drop_last()), s.last())
    }
}

/// A sequence is sorted ascending.
pub open spec fn is_ascending(s: Seq<i64>) -> bool {
    forall|i: int, j: int| 0 <= i <= j < s.len() ==> s[i] <= s[j]
}

/// Where the insertion lands: before index `j`, the earliest position whose
/// suffix is entirely greater than `v`.
proof fn lemma_insert_sorted_at(s: Seq<i64>, v: i64, j: int)
    requires
        0 <= j <= s.len(),
        forall|k: int| j <= k < s.len() ==> s[k] > v,
        j > 0 ==> s[j - 1] <= v,
    ensures
        spec_insert_sorted(s, v) =~= s.subrange(0, j) + seq![v] + s.subrange(j, s.len() as int),
    decreases s.len(),
{
    if j == s.len() {
        if s.len() > 0 {
            assert(spec_insert_sorted(s, v) == s.push(v));
        }
    } else {
        assert(s.last() > v);
        lemma_insert_sorted_at(s.drop_last(), v, j);
        assert(s.drop_last().subrange(0, j) =~= s.subrange(0, j));
        assert(s.drop_last().subrange(j, s.len() - 1) =~= s.subrange(j, s.len() - 1));
    }
}

/// Inserting adds exactly one element.
pub proof fn lemma_insert_sorted_len(s: Seq<i64>, v: i64)
    ensures
        spec_insert_sorted(s, v).len() == s.len() + 1,
    decreases s.len(),
{
    if s.len() > 0 && s.last() > v {
        lemma_insert_sorted_len(s.drop_last(), v);
    }
}

/// Inserting keeps the elements: the result's multiset is the input's plus `v`.
pub proof fn lemma_insert_sorted_multiset(s: Seq<i64>, v: i64)
    ensures
        spec_insert_sorted(s, v).to_multiset() =~= s.to_multiset().insert(v),
    decreases s.len(),
{
    broadcast use vstd::seq_lib::group_to_multiset_ensures;

    if s.len() == 0 {
        assert(seq![v] =~= Seq::<i64>::empty().push(v));
    } else if s.last() <= v {
    } else {
        lemma_insert_sorted_multiset(s.drop_last(), v);
        assert(s.drop_last().push(s.last()) =~= s);
    }
}

/// Inserting into an ascending sequence keeps it ascending.
pub proof fn lemma_insert_sorted_ascending(s: Seq<i64>, v: i64)
    requires
        is_ascending(s),
    ensures
        is_ascending(spec_insert_sorted(s, v)),
    decreases s.len(),
{
    broadcast use vstd::seq_lib::group_to_multiset_ensures;

    if s.len() > 0 && s.last() > v {
        assert(is_ascending(s.drop_last()));
        lemma_insert_sorted_ascending(s.drop_last(), v);
        let t = spec_insert_sorted(s.drop_last(), v);
        lemma_insert_sorted_multiset(s.drop_last(), v);
        assert forall|i: int, j: int|
            0 <= i <= j < t.push(s.last()).len() implies t.push(s.last())[i] <= t.push(
            s.last(),
        )[j] by {
            if j == t.len() && i < j {
                assert(t.to_multiset().contains(t[i]));
                assert(t.to_multiset() =~= s.drop_last().to_multiset().insert(v));
                if t[i] != v {
                    assert(s.drop_last().to_multiset().contains(t[i]));
                    assert(s.drop_last().contains(t[i]));
                    let w = choose|w: int|
                        0 <= w < s.drop_last().len() && s.drop_last()[w] == t[i];
                    assert(s[w] <= s.last());
                }
            }
        }
    }
}

/// The sort's result is ascending and holds exactly the input's elements.
pub proof fn lemma_sort_ensures(s: Seq<i64>)
    ensures
        is_ascending(spec_sort(s)),
        spec_sort(s).to_multiset() =~= s.to_multiset(),
        spec_sort(s).len() == s.len(),
    decreases s.len(),
{
    broadcast use vstd::seq_lib::group_to_multiset_ensures;

    if s.len() == 0 {
    } else {
        lemma_sort_ensures(s.drop_last());
        lemma_insert_sorted_ascending(spec_sort(s.drop_last()), s.last());
        lemma_insert_sorted_multiset(spec_sort(s.drop_last()), s.last());
        assert(s.drop_last().push(s.last()) =~= s);
        lemma_insert_sorted_len(spec_sort(s.drop_last()), s.last());
    }
}

/// Insert `v` into the already-sorted `out` at its place.
fn insert_sorted(out: &mut Vec<i64>, v: i64)
    ensures
        final(out)@ == spec_insert_sorted(old(out)@, v),
{
    let ghost s = out@;
    let mut j: usize = out.len();
    while j > 0 && out[j - 1] > v
        invariant
            j <= out@.len(),
            out@ == s,
            forall|k: int| j <= k < s.len() ==> s[k] > v,
        decreases j,
    {
        j = j - 1;
    }
    out.insert(j, v);
    proof {
        lemma_insert_sorted_at(s, v, j as int);
        assert(s.insert(j as int, v) =~= s.subrange(0, j as int) + seq![v] + s.subrange(
            j as int,
            s.len() as int,
        ));
    }
}

/// Sort a sample ascending, by insertion.
pub fn sort_ascending(data: &Vec<i64>) -> (r: Vec<i64>)
    ensures
        r@ == spec_sort(data@),
{
    let mut out: Vec<i64> = Vec::new();
    let mut i: usize = 0;
    while i < data.len()
        invariant
            i <= data@.len(),
            out@ == spec_sort(data@.take(i as int)),
        decreases data@.len() - i,
    {
        insert_sorted(&mut out, data[i]);
        proof {
            assert(data@.take(i + 1).drop_last() =~= data@.take(i as int));
        }
        i = i + 1;
    }
    proof {
        assert(data@.take(data@.len() as int) =~= data@);
    }
    out
}

} // verus!
