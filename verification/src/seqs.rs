//! The view of a sequence, element by element.

use vstd::prelude::*;

verus! {

/// The views of the elements of `s`, in their order.
pub open spec fn views<T: View>(s: Seq<T>) -> Seq<T::V> {
    Seq::new(s.len(), |i: int| s[i]@)
}

pub proof fn lemma_views_push<T: View>(s: Seq<T>, x: T)
    ensures
        views(s.push(x)) == views(s).push(x@),
{
    assert(views(s.push(x)) =~= views(s).push(x@));
}

pub proof fn lemma_views_update<T: View>(s: Seq<T>, i: int, x: T)
    requires
        0 <= i < s.len(),
    ensures
        views(s.update(i, x)) == views(s).update(i, x@),
{
    assert(views(s.update(i, x)) =~= views(s).update(i, x@));
}

pub proof fn lemma_views_remove<T: View>(s: Seq<T>, i: int)
    requires
        0 <= i < s.len(),
    ensures
        views(s.remove(i)) == views(s).remove(i),
{
    assert(views(s.remove(i)) =~= views(s).remove(i));
}

pub proof fn lemma_views_insert<T: View>(s: Seq<T>, i: int, x: T)
    requires
        0 <= i <= s.len(),
    ensures
        views(s.insert(i, x)) == views(s).insert(i, x@),
{
    assert(views(s.insert(i, x)) =~= views(s).insert(i, x@));
}

pub proof fn lemma_views_take<T: View>(s: Seq<T>, n: int)
    requires
        0 <= n <= s.len(),
    ensures
        views(s.take(n)) == views(s).take(n),
        views(s.skip(n)) == views(s).skip(n),
{
    assert(views(s.take(n)) =~= views(s).take(n));
    assert(views(s.skip(n)) =~= views(s).skip(n));
}

pub proof fn lemma_views_empty<T: View>()
    ensures
        views(Seq::<T>::empty()) == Seq::<T::V>::empty(),
{
    assert(views(Seq::<T>::empty()) =~= Seq::<T::V>::empty());
}


/// The position of the first element of `s` that satisfies `f`, or the
/// length of `s` if none does.
pub open spec fn first_index<T>(s: Seq<T>, f: spec_fn(T) -> bool) -> int
    decreases s.len(),
{
    if s.len() == 0 {
        0
    } else if f(s[0]) {
        0
    } else {
        1 + first_index(s.drop_first(), f)
    }
}

/// `first_index` lies within `s`, no element before it satisfies `f`, and
/// the element at it, if any, does.
pub proof fn lemma_first_index<T>(s: Seq<T>, f: spec_fn(T) -> bool)
    ensures
        0 <= first_index(s, f) <= s.len(),
        forall|j: int| 0 <= j < first_index(s, f) ==> !f(#[trigger] s[j]),
        first_index(s, f) < s.len() ==> f(s[first_index(s, f)]),
    decreases s.len(),
{
    if s.len() == 0 {
    } else if f(s[0]) {
    } else {
        let rest = s.drop_first();
        lemma_first_index(rest, f);
        let k = first_index(rest, f);
        assert forall|j: int| 0 <= j < 1 + k implies !f(#[trigger] s[j]) by {
            if j > 0 {
                assert(s[j] == rest[j - 1]);
            }
        }
        if k < rest.len() {
            assert(s[1 + k] == rest[k]);
        }
    }
}

/// A position before which nothing satisfies `f`, and which is the end of
/// `s` or satisfies `f` itself, is the `first_index`.
pub proof fn lemma_first_index_is<T>(s: Seq<T>, f: spec_fn(T) -> bool, i: int)
    requires
        0 <= i <= s.len(),
        forall|j: int| 0 <= j < i ==> !f(#[trigger] s[j]),
        i < s.len() ==> f(s[i]),
    ensures
        first_index(s, f) == i,
{
    lemma_first_index(s, f);
    let k = first_index(s, f);
    if k < i {
        assert(!f(s[k]));
    }
}

/// The elements of `s` that satisfy `f`, in their order.
pub open spec fn keep<T>(s: Seq<T>, f: spec_fn(T) -> bool) -> Seq<T>
    decreases s.len(),
{
    if s.len() == 0 {
        Seq::empty()
    } else if f(s.last()) {
        keep(s.drop_last(), f).push(s.last())
    } else {
        keep(s.drop_last(), f)
    }
}

/// Each element of `keep(s, f)` satisfies `f` and stands in `s`; there are
/// no more of them than elements of `s`; and `keep` keeps the order: for
/// two elements of the result, the earlier stands earlier in `s`.
pub proof fn lemma_keep<T>(s: Seq<T>, f: spec_fn(T) -> bool)
    ensures
        keep(s, f).len() <= s.len(),
        forall|i: int| 0 <= i < keep(s, f).len() ==> f(#[trigger] keep(s, f)[i]),
        forall|i: int|
            0 <= i < keep(s, f).len() ==> exists|w: int|
                i <= w < s.len() && s[w] == #[trigger] keep(s, f)[i],
        forall|i: int, j: int|
            0 <= i < j < keep(s, f).len() ==> exists|w: int, x: int|
                0 <= w < x < s.len() && s[w] == #[trigger] keep(s, f)[i] && s[x]
                    == #[trigger] keep(s, f)[j],
        forall|w: int| 0 <= w < s.len() && f(s[w]) ==> keep(s, f).contains(#[trigger] s[w]),
        (forall|w: int| 0 <= w < s.len() ==> f(#[trigger] s[w])) ==> keep(s, f) == s,
    decreases s.len(),
{
    if s.len() == 0 {
        assert(keep(s, f) =~= s);
    } else {
        let init = s.drop_last();
        lemma_keep(init, f);
        let r0 = keep(init, f);
        let r = keep(s, f);
        assert forall|i: int| 0 <= i < r.len() implies exists|w: int|
            i <= w < s.len() && s[w] == #[trigger] r[i] by {
            if i < r0.len() {
                assert(r[i] == r0[i]);
                let w = choose|w: int| i <= w < init.len() && init[w] == r0[i];
                assert(s[w] == r[i]);
            } else {
                assert(s[s.len() - 1] == r[i]);
            }
        }
        assert forall|i: int, j: int| 0 <= i < j < r.len() implies exists|w: int, x: int|
            0 <= w < x < s.len() && s[w] == #[trigger] r[i] && s[x] == #[trigger] r[j] by {
            if j < r0.len() {
                assert(r[i] == r0[i] && r[j] == r0[j]);
                let (w, x) = choose|w: int, x: int|
                    0 <= w < x < init.len() && init[w] == r0[i] && init[x] == r0[j];
                assert(s[w] == r[i] && s[x] == r[j]);
            } else {
                assert(r[i] == r0[i]);
                let w = choose|w: int| i <= w < init.len() && init[w] == r0[i];
                assert(s[w] == r[i] && s[s.len() - 1] == r[j]);
            }
        }
        assert forall|w: int| 0 <= w < s.len() && f(s[w]) implies r.contains(
            #[trigger] s[w],
        ) by {
            if w < init.len() {
                assert(init[w] == s[w]);
                assert(r0.contains(init[w]));
                let k = choose|k: int| 0 <= k < r0.len() && r0[k] == init[w];
                assert(r[k] == s[w]);
            } else {
                assert(r[r.len() - 1] == s[w]);
            }
        }
        if forall|w: int| 0 <= w < s.len() ==> f(#[trigger] s[w]) {
            assert forall|w: int| 0 <= w < init.len() implies f(#[trigger] init[w]) by {
                assert(init[w] == s[w]);
            }
            assert(f(s[s.len() - 1]));
            assert(r =~= s);
        }
    }
}

pub proof fn lemma_views_drop_first<T: View>(s: Seq<T>)
    requires
        s.len() > 0,
    ensures
        views(s.drop_first()) == views(s).drop_first(),
{
    assert(views(s.drop_first()) =~= views(s).drop_first());
}

} // verus!
