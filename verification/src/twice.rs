//! Adding a remote candidate a second time forms no new pair.

use vstd::prelude::*;
use crate::candidate::CandidateView;
use crate::checklist::{
    lemma_sort_pairs_of_sorted,
    lemma_sort_pairs_same_pairs,
    lemma_sort_pairs_sorted,
    sort_pairs,
};
use crate::laws::{lemma_add_remote_wf, lemma_matching_idxs_in_range, lemma_wf_parts};
use crate::model::{
    AgentView,
    install,
    matching_idxs,
    pairs_unique,
    redundant,
    redundant_with,
    temp_prflx_like,
};
use crate::pair::PairView;
use crate::seqs::{first_index, lemma_first_index};
use crate::unique::{lemma_add_remote_unique, lemma_unique_frame, same_addrs, same_bases};

verus! {

/// Whether the checklist holds a pair that is redundant with `p` and has
/// at least its priority.
pub open spec fn holds_pair_for(
    locals: Seq<CandidateView>,
    remotes: Seq<CandidateView>,
    pairs: Seq<PairView>,
    p: PairView,
) -> bool {
    exists|i: int|
        0 <= i < pairs.len() && redundant(locals, remotes, #[trigger] pairs[i], p)
            && pairs[i].prio >= p.prio
}

/// After a pair was offered, the checklist holds a pair for it.
pub proof fn lemma_install_holds(
    locals: Seq<CandidateView>,
    remotes: Seq<CandidateView>,
    pairs: Seq<PairView>,
    p: PairView,
)
    ensures
        holds_pair_for(locals, remotes, install(locals, remotes, pairs, p), p),
{
    let f = redundant_with(locals, remotes, p);
    lemma_first_index(pairs, f);
    let k = first_index(pairs, f);
    let r = install(locals, remotes, pairs, p);
    if k < pairs.len() {
        assert(f(pairs[k]));
        if pairs[k].prio >= p.prio {
            assert(redundant(locals, remotes, r[k], p) && r[k].prio >= p.prio);
        } else {
            assert(r[k] == p);
            assert(redundant(locals, remotes, r[k], p) && r[k].prio >= p.prio);
        }
    } else {
        assert(r[pairs.len() as int] == p);
        assert(redundant(locals, remotes, r[pairs.len() as int], p));
    }
}

/// Offering a pair leaves the checklist holding a pair for each pair it
/// held one for.
pub proof fn lemma_install_keeps(
    locals: Seq<CandidateView>,
    remotes: Seq<CandidateView>,
    pairs: Seq<PairView>,
    p: PairView,
    q: PairView,
)
    requires
        holds_pair_for(locals, remotes, pairs, q),
    ensures
        holds_pair_for(locals, remotes, install(locals, remotes, pairs, p), q),
{
    let f = redundant_with(locals, remotes, p);
    lemma_first_index(pairs, f);
    let k = first_index(pairs, f);
    let r = install(locals, remotes, pairs, p);
    let i = choose|i: int|
        0 <= i < pairs.len() && redundant(locals, remotes, #[trigger] pairs[i], q)
            && pairs[i].prio >= q.prio;
    if k < pairs.len() && pairs[k].prio < p.prio && k == i {
        assert(f(pairs[k]));
        assert(r[i] == p);
        assert(redundant(locals, remotes, r[i], q) && r[i].prio >= q.prio);
    } else {
        assert(r[i] == pairs[i]);
        assert(redundant(locals, remotes, r[i], q) && r[i].prio >= q.prio);
    }
}

/// Offering a pair to a checklist without redundant pairs that holds a
/// pair for it changes nothing.
pub proof fn lemma_install_noop(
    locals: Seq<CandidateView>,
    remotes: Seq<CandidateView>,
    pairs: Seq<PairView>,
    p: PairView,
)
    requires
        pairs_unique(locals, remotes, pairs),
        holds_pair_for(locals, remotes, pairs, p),
    ensures
        install(locals, remotes, pairs, p) == pairs,
{
    let f = redundant_with(locals, remotes, p);
    lemma_first_index(pairs, f);
    let k = first_index(pairs, f);
    let i = choose|i: int|
        0 <= i < pairs.len() && redundant(locals, remotes, #[trigger] pairs[i], p)
            && pairs[i].prio >= p.prio;
    assert(f(pairs[i]));
    if k > i {
        assert(!f(pairs[i]));
    }
    if k < i {
        assert(f(pairs[k]));
        assert(redundant(locals, remotes, pairs[k], pairs[i]));
    }
    assert(k == i);
}

/// Sorting leaves the checklist holding a pair for each pair it held one
/// for.
pub proof fn lemma_sort_keeps(
    locals: Seq<CandidateView>,
    remotes: Seq<CandidateView>,
    pairs: Seq<PairView>,
    q: PairView,
)
    requires
        holds_pair_for(locals, remotes, pairs, q),
    ensures
        holds_pair_for(locals, remotes, sort_pairs(pairs), q),
{
    lemma_sort_pairs_same_pairs(pairs);
    let i = choose|i: int|
        0 <= i < pairs.len() && redundant(locals, remotes, #[trigger] pairs[i], q)
            && pairs[i].prio >= q.prio;
    let r = sort_pairs(pairs);
    assert(r.contains(pairs[i]));
    let j = choose|j: int| 0 <= j < r.len() && r[j] == pairs[i];
    assert(redundant(locals, remotes, r[j], q) && r[j].prio >= q.prio);
}

/// After the pairs of the local candidates `local_idxs` with the remote
/// candidate `ri` were offered, the checklist holds a pair for each of
/// them.
pub proof fn lemma_install_all_holds(
    s: AgentView,
    pairs: Seq<PairView>,
    local_idxs: Seq<usize>,
    ri: usize,
)
    ensures
        forall|k: int|
            0 <= k < local_idxs.len() ==> holds_pair_for(
                s.locals,
                s.remotes,
                s.install_all(pairs, local_idxs, seq![ri]),
                s.new_pair(#[trigger] local_idxs[k], ri),
            ),
    decreases local_idxs.len(),
{
    if local_idxs.len() > 0 {
        let init = local_idxs.drop_last();
        let last = local_idxs.last();
        lemma_install_all_holds(s, pairs, init, ri);
        let mid = s.install_all(pairs, init, seq![ri]);
        let p = s.new_pair(last, ri);
        lemma_row_of_one(s, mid, last, ri);
        let r = s.install_all(pairs, local_idxs, seq![ri]);
        assert(r == install(s.locals, s.remotes, mid, p));
        lemma_install_holds(s.locals, s.remotes, mid, p);
        assert forall|k: int| 0 <= k < local_idxs.len() implies holds_pair_for(
            s.locals,
            s.remotes,
            r,
            s.new_pair(#[trigger] local_idxs[k], ri),
        ) by {
            if k < init.len() {
                assert(init[k] == local_idxs[k]);
                lemma_install_keeps(s.locals, s.remotes, mid, p, s.new_pair(init[k], ri));
            }
        }
    }
}

/// Offering the pairs of one local candidate with one remote candidate is
/// offering their pair.
pub proof fn lemma_row_of_one(s: AgentView, pairs: Seq<PairView>, li: usize, ri: usize)
    ensures
        s.install_row(pairs, li, seq![ri]) == install(
            s.locals,
            s.remotes,
            pairs,
            s.new_pair(li, ri),
        ),
{
    let one = seq![ri];
    assert(one.drop_last() =~= Seq::<usize>::empty());
    assert(one.last() == ri);
    assert(s.install_row(pairs, li, one.drop_last()) == pairs);
}

/// Offering pairs that the checklist holds pairs for, to a checklist
/// without redundant pairs, changes nothing.
pub proof fn lemma_install_all_noop(
    s: AgentView,
    pairs: Seq<PairView>,
    local_idxs: Seq<usize>,
    ri: usize,
)
    requires
        pairs_unique(s.locals, s.remotes, pairs),
        forall|k: int|
            0 <= k < local_idxs.len() ==> holds_pair_for(
                s.locals,
                s.remotes,
                pairs,
                s.new_pair(#[trigger] local_idxs[k], ri),
            ),
    ensures
        s.install_all(pairs, local_idxs, seq![ri]) == pairs,
    decreases local_idxs.len(),
{
    if local_idxs.len() > 0 {
        let init = local_idxs.drop_last();
        assert forall|k: int| 0 <= k < init.len() implies holds_pair_for(
            s.locals,
            s.remotes,
            pairs,
            s.new_pair(#[trigger] init[k], ri),
        ) by {
            assert(init[k] == local_idxs[k]);
        }
        lemma_install_all_noop(s, pairs, init, ri);
        lemma_row_of_one(s, pairs, local_idxs.last(), ri);
        assert(local_idxs[local_idxs.len() - 1] == local_idxs.last());
        lemma_install_noop(s.locals, s.remotes, pairs, s.new_pair(local_idxs.last(), ri));
    }
}

/// The agent after the remote candidate `c` of component 1 took its place
/// among the remote candidates, before pairs are formed.
pub open spec fn with_remote(s: AgentView, c: CandidateView) -> AgentView {
    let e = first_index(s.remotes, temp_prflx_like(c.addr, c.prio()));
    AgentView {
        remotes: if e < s.remotes.len() {
            s.remotes.update(e, c)
        } else {
            s.remotes.push(c)
        },
        ..s
    }
}

/// Whether the pairs formed for the remote candidate `c` all find room in
/// the checklist.
pub open spec fn remote_fits(s: AgentView, c: CandidateView) -> bool {
    let e = first_index(s.remotes, temp_prflx_like(c.addr, c.prio()));
    let s1 = with_remote(s, c);
    s1.install_all(
        s.pairs,
        matching_idxs(s.locals, c.addr.spec_is_ipv4()),
        seq![e as usize],
    ).len() <= s.max_pairs()
}

/// Adding the same remote candidate a second time forms no new pair and
/// changes no local candidate, and so no preference. This holds where the
/// checklist has no redundant pairs and the pairs of the first adding all
/// found room in it. The remote candidates are as many as a machine can
/// hold.
pub proof fn lemma_add_remote_twice(s: AgentView, c: CandidateView)
    requires
        s.orderly(),
        s.remotes.len() + 2 <= usize::MAX,
        s.checklist_unique(),
        c.component_id == 1,
        remote_fits(s, c),
    ensures
        s.add_remote(c).add_remote(c).pairs == s.add_remote(c).pairs,
        s.add_remote(c).add_remote(c).locals == s.add_remote(c).locals,
        s.add_remote(c).locals == s.locals,
{
    let f = temp_prflx_like(c.addr, c.prio());
    let ipv4 = c.addr.spec_is_ipv4();
    let lidx = matching_idxs(s.locals, ipv4);
    lemma_matching_idxs_in_range(s.locals, ipv4);
    // the first adding
    let e = first_index(s.remotes, f);
    lemma_first_index(s.remotes, f);
    let s1 = with_remote(s, c);
    let a = s1.install_all(s.pairs, lidx, seq![e as usize]);
    let t = s.add_remote(c);
    lemma_add_remote_wf(s, c);
    lemma_add_remote_unique(s, c);
    lemma_install_all_holds(s1, s.pairs, lidx, e as usize);
    lemma_sort_pairs_sorted(a);
    assert(t.pairs == sort_pairs(a));
    assert(t.remotes == s1.remotes);
    assert forall|k: int| 0 <= k < lidx.len() implies holds_pair_for(
        t.locals,
        t.remotes,
        t.pairs,
        s1.new_pair(#[trigger] lidx[k], e as usize),
    ) by {
        lemma_sort_keeps(s1.locals, s1.remotes, a, s1.new_pair(lidx[k], e as usize));
    }
    // the second adding
    let e2 = first_index(t.remotes, f);
    lemma_first_index(t.remotes, f);
    let t1 = with_remote(t, c);
    assert(e2 >= e) by {
        if e2 < e {
            assert(f(t.remotes[e2]));
            assert(t.remotes[e2] == s.remotes[e2]);
            assert(!f(s.remotes[e2]));
        }
    }
    assert(t.remotes[e] == c);
    assert(t1.remotes[e2] == c);
    if e2 < t.remotes.len() {
        assert(f(t.remotes[e2]));
    }
    lemma_wf_parts(t);
    assert(same_bases(t.locals, t1.locals));
    assert(same_addrs(t.remotes, t1.remotes));
    lemma_unique_frame(t.locals, t.remotes, t1.locals, t1.remotes, t.pairs);
    assert forall|k: int| 0 <= k < lidx.len() implies holds_pair_for(
        t1.locals,
        t1.remotes,
        t.pairs,
        t1.new_pair(#[trigger] lidx[k], e2 as usize),
    ) by {
        let first = s1.new_pair(lidx[k], e as usize);
        let second = t1.new_pair(lidx[k], e2 as usize);
        assert(first.prio == second.prio);
        let i = choose|i: int|
            0 <= i < t.pairs.len() && redundant(t.locals, t.remotes, #[trigger] t.pairs[i], first)
                && t.pairs[i].prio >= first.prio;
        assert(t.pairs[i].remote_idx < t.remotes.len());
        assert(t1.remotes[t.pairs[i].remote_idx as int].addr
            == t.remotes[t.pairs[i].remote_idx as int].addr);
        assert(redundant(t1.locals, t1.remotes, t.pairs[i], second));
    }
    lemma_install_all_noop(t1, t.pairs, lidx, e2 as usize);
    lemma_sort_pairs_of_sorted(t.pairs);
    assert(matching_idxs(t1.locals, ipv4) == lidx);
}

} // verus!
