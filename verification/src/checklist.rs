//! The checklist: the candidate pairs in the order in which they are
//! probed, highest priority first.

use vstd::prelude::*;
use crate::pair::{CandidatePair, PairView};
use crate::seqs::{lemma_views_insert, lemma_views_remove, lemma_views_take, views};

verus! {

/// Whether the pairs are in descending order of priority.
pub open spec fn is_sorted(s: Seq<PairView>) -> bool {
    forall|i: int, j: int| 0 <= i < j < s.len() ==> s[i].prio >= s[j].prio
}

/// Where a pair of priority `prio` is put into `s`: before the first pair
/// of lower priority, at the end if there is none.
pub open spec fn insert_pos(s: Seq<PairView>, prio: u64) -> int
    decreases s.len(),
{
    if s.len() == 0 {
        0
    } else if s[0].prio < prio {
        0
    } else {
        1 + insert_pos(s.drop_first(), prio)
    }
}

/// `s` with `p` put in before the first pair of lower priority.
pub open spec fn sorted_insert(s: Seq<PairView>, p: PairView) -> Seq<PairView> {
    s.insert(insert_pos(s, p.prio), p)
}

/// The pairs of `s` in descending order of priority, pairs of equal
/// priority in the order in which they stand in `s`.
pub open spec fn sort_pairs(s: Seq<PairView>) -> Seq<PairView>
    decreases s.len(),
{
    if s.len() == 0 {
        Seq::empty()
    } else {
        sorted_insert(sort_pairs(s.drop_last()), s.last())
    }
}

/// The first `max` pairs of `s`, all of them if there are no more.
pub open spec fn capped(s: Seq<PairView>, max: int) -> Seq<PairView> {
    if 0 <= max < s.len() {
        s.take(max)
    } else {
        s
    }
}

/// `insert_pos` lies within `s`; no pair before it has a lower priority,
/// and the pair at it, if any, has.
pub proof fn lemma_insert_pos(s: Seq<PairView>, prio: u64)
    ensures
        0 <= insert_pos(s, prio) <= s.len(),
        forall|j: int| 0 <= j < insert_pos(s, prio) ==> (#[trigger] s[j]).prio >= prio,
        insert_pos(s, prio) < s.len() ==> s[insert_pos(s, prio)].prio < prio,
    decreases s.len(),
{
    if s.len() == 0 {
    } else if s[0].prio < prio {
    } else {
        let rest = s.drop_first();
        lemma_insert_pos(rest, prio);
        let k = insert_pos(rest, prio);
        assert forall|j: int| 0 <= j < 1 + k implies (#[trigger] s[j]).prio >= prio by {
            if j > 0 {
                assert(s[j] == rest[j - 1]);
            }
        }
        if k < rest.len() {
            assert(s[1 + k] == rest[k]);
        }
    }
}

/// Putting a pair into a sorted list at `insert_pos` keeps it sorted.
pub proof fn lemma_sorted_insert_sorted(s: Seq<PairView>, p: PairView)
    requires
        is_sorted(s),
    ensures
        is_sorted(sorted_insert(s, p)),
{
    lemma_insert_pos(s, p.prio);
    let k = insert_pos(s, p.prio);
    let r = sorted_insert(s, p);
    assert forall|i: int, j: int| 0 <= i < j < r.len() implies r[i].prio >= r[j].prio by {
        if j < k {
            assert(r[i] == s[i] && r[j] == s[j]);
        } else if j == k {
            assert(r[i] == s[i]);
        } else if i < k {
            assert(r[i] == s[i] && r[j] == s[j - 1]);
        } else if i == k {
            assert(r[j] == s[j - 1]);
            assert(s[k].prio < p.prio);
            if j - 1 > k {
                assert(s[k].prio >= s[j - 1].prio);
            }
        } else {
            assert(r[i] == s[i - 1] && r[j] == s[j - 1]);
        }
    }
}

/// Sorting gives a sorted list of the same length.
pub proof fn lemma_sort_pairs_sorted(s: Seq<PairView>)
    ensures
        is_sorted(sort_pairs(s)),
        sort_pairs(s).len() == s.len(),
    decreases s.len(),
{
    if s.len() > 0 {
        lemma_sort_pairs_sorted(s.drop_last());
        lemma_insert_pos(sort_pairs(s.drop_last()), s.last().prio);
        lemma_sorted_insert_sorted(sort_pairs(s.drop_last()), s.last());
    }
}

/// Sorting neither adds nor loses a pair: each pair of the result stands
/// somewhere in `s`, and each pair of `s` somewhere in the result.
pub proof fn lemma_sort_pairs_same_pairs(s: Seq<PairView>)
    ensures
        forall|i: int|
            0 <= i < sort_pairs(s).len() ==> s.contains(#[trigger] sort_pairs(s)[i]),
        forall|i: int| 0 <= i < s.len() ==> sort_pairs(s).contains(#[trigger] s[i]),
    decreases s.len(),
{
    if s.len() > 0 {
        let init = s.drop_last();
        let t = sort_pairs(init);
        lemma_sort_pairs_same_pairs(init);
        lemma_insert_pos(t, s.last().prio);
        let k = insert_pos(t, s.last().prio);
        let r = sort_pairs(s);
        assert forall|i: int| 0 <= i < r.len() implies s.contains(#[trigger] r[i]) by {
            if i == k {
                assert(s[s.len() - 1] == r[i]);
            } else {
                let j = if i < k { i } else { i - 1 };
                assert(r[i] == t[j]);
                assert(init.contains(t[j]));
                let w = choose|w: int| 0 <= w < init.len() && init[w] == t[j];
                assert(s[w] == r[i]);
            }
        }
        assert forall|i: int| 0 <= i < s.len() implies r.contains(#[trigger] s[i]) by {
            if i == s.len() - 1 {
                assert(r[k] == s[i]);
            } else {
                assert(init[i] == s[i]);
                assert(t.contains(init[i]));
                let w = choose|w: int| 0 <= w < t.len() && t[w] == init[i];
                let j = if w < k { w } else { w + 1 };
                assert(r[j] == s[i]);
            }
        }
    }
}

/// A sorted list is its own sorting.
pub proof fn lemma_sort_pairs_of_sorted(s: Seq<PairView>)
    requires
        is_sorted(s),
    ensures
        sort_pairs(s) == s,
    decreases s.len(),
{
    if s.len() > 0 {
        let init = s.drop_last();
        assert(is_sorted(init)) by {
            assert forall|i: int, j: int| 0 <= i < j < init.len() implies init[i].prio
                >= init[j].prio by {
                assert(init[i] == s[i] && init[j] == s[j]);
            }
        }
        lemma_sort_pairs_of_sorted(init);
        lemma_insert_pos(init, s.last().prio);
        let k = insert_pos(init, s.last().prio);
        if k < init.len() {
            assert(init[k] == s[k]);
            assert(s[k].prio >= s[s.len() - 1].prio);
        }
        assert(sorted_insert(init, s.last()) =~= s);
    } else {
        assert(sort_pairs(s) =~= s);
    }
}

/// Finds where a pair of priority `prio` is put into the first `n` pairs.
fn find_insert_pos(v: &Vec<CandidatePair>, n: usize, prio: u64) -> (k: usize)
    requires
        n <= v@.len(),
    ensures
        k == insert_pos(views(v@).take(n as int), prio),
        k <= n,
{
    let ghost s = views(v@).take(n as int);
    let mut k: usize = 0;
    assert(s.skip(0) =~= s);
    while k < n && v[k].prio() >= prio
        invariant
            k <= n <= v@.len(),
            s == views(v@).take(n as int),
            insert_pos(s, prio) == k + insert_pos(s.skip(k as int), prio),
        decreases n - k,
    {
        assert(s.skip(k as int)[0] == s[k as int]);
        assert(s.skip(k as int).drop_first() =~= s.skip(k + 1));
        k += 1;
    }
    proof {
        if k < n {
            assert(s.skip(k as int)[0] == s[k as int]);
        }
    }
    k
}

/// Sorts the pairs by descending priority; pairs of equal priority keep
/// their order.
pub fn sort_checklist(v: &mut Vec<CandidatePair>)
    ensures
        views(final(v)@) == sort_pairs(views(old(v)@)),
{
    let ghost orig = views(v@);
    let n: usize = v.len();
    let mut i: usize = 0;
    proof {
        assert(orig.take(0) =~= Seq::<PairView>::empty());
        assert(orig.skip(0) =~= orig);
        assert(sort_pairs(orig.take(0)) + orig.skip(0) =~= orig);
    }
    while i < n
        invariant
            n == orig.len(),
            n == v@.len(),
            i <= n,
            views(v@) == sort_pairs(orig.take(i as int)) + orig.skip(i as int),
        decreases n - i,
    {
        let ghost before = views(v@);
        let ghost done = sort_pairs(orig.take(i as int));
        proof {
            lemma_sort_pairs_sorted(orig.take(i as int));
            assert(before.take(i as int) =~= done);
            assert(before[i as int] == orig[i as int]);
        }
        let prio = v[i].prio();
        let k = find_insert_pos(v, i, prio);
        let ghost vs = v@;
        let p = v.remove(i);
        proof {
            lemma_views_remove(vs, i as int);
        }
        let ghost vs2 = v@;
        v.insert(k, p);
        proof {
            lemma_views_insert(vs2, k as int, p);
            let t = orig.take(i + 1);
            assert(t.drop_last() =~= orig.take(i as int));
            assert(t.last() == orig[i as int]);
            assert(sort_pairs(t) == sorted_insert(done, orig[i as int]));
            assert(views(v@) =~= sort_pairs(t) + orig.skip(i + 1));
        }
        i += 1;
    }
    proof {
        assert(orig.take(n as int) =~= orig);
        assert(orig.skip(n as int) =~= Seq::<PairView>::empty());
        assert(views(v@) =~= sort_pairs(orig));
    }
}

/// Drops the last pairs until at most `max` are left.
pub fn cap_checklist(v: &mut Vec<CandidatePair>, max: usize)
    ensures
        views(final(v)@) == capped(views(old(v)@), max as int),
{
    if v.len() > max {
        let ghost vs = v@;
        v.truncate(max);
        proof {
            lemma_views_take(vs, max as int);
            assert(v@ =~= vs.take(max as int));
        }
    }
}

} // verus!
