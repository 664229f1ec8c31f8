//! What holds of the agent whatever is done with it.

use vstd::prelude::*;
use crate::addr::SocketAddr;
use crate::candidate::{CandidateKind, CandidateView};
use crate::checklist::{
    capped,
    is_sorted,
    lemma_sort_pairs_same_pairs,
    lemma_sort_pairs_sorted,
    sort_pairs,
};
use crate::model::{
    AgentView,
    awaiting,
    bounded_push,
    count_same,
    drop_stale,
    install,
    locals_unique,
    matching_idxs,
    next_preference,
    not_of_local,
    pair_of,
    possible_at,
    PREFERENCES_PER_FAMILY,
    redundant_with,
    RequestView,
    same_addr_base,
    same_addr_base_raddr,
    socket_with_addr,
    temp_prflx_like,
    with_addr,
};
use crate::pair::PairView;
use crate::seqs::{first_index, keep, lemma_first_index, lemma_keep};
use crate::stun::TransId;
use crate::time::Instant;

verus! {

/// Each pair points at candidates that exist, also with its valid local
/// candidate, and is well formed.
pub open spec fn pairs_ok(pairs: Seq<PairView>, locals: int, remotes: int) -> bool {
    forall|i: int|
        0 <= i < pairs.len() ==> {
            &&& (#[trigger] pairs[i]).local_idx < locals
            &&& pairs[i].remote_idx < remotes
            &&& pairs[i].valid_idx matches Some(v) ==> v < locals
            &&& pairs[i].wf()
        }
}

/// The candidates of `after` are those of `before`, which may have been
/// discarded meanwhile, and perhaps more.
pub open spec fn grown(before: Seq<CandidateView>, after: Seq<CandidateView>) -> bool {
    &&& before.len() <= after.len()
    &&& forall|j: int|
        0 <= j < before.len() ==> (#[trigger] after[j]) == (CandidateView {
            discarded: after[j].discarded,
            ..before[j]
        })
}

/// The candidates of `after` are those of `before`, which may have been
/// discarded meanwhile, and perhaps more without a local preference.
pub open spec fn locals_kept(before: Seq<CandidateView>, after: Seq<CandidateView>) -> bool {
    &&& grown(before, after)
    &&& forall|j: int|
        before.len() <= j < after.len() ==> (#[trigger] after[j]).local_preference is None
}

/// An element that satisfies `f` bounds the `first_index`.
pub proof fn lemma_first_index_le<T>(s: Seq<T>, f: spec_fn(T) -> bool, j: int)
    requires
        0 <= j < s.len(),
        f(s[j]),
    ensures
        first_index(s, f) <= j,
{
    lemma_first_index(s, f);
    if first_index(s, f) > j {
        assert(!f(s[j]));
    }
}

/// The positions that `matching_idxs` gives lie within the list.
pub proof fn lemma_matching_idxs_in_range(cands: Seq<CandidateView>, ipv4: bool)
    ensures
        forall|k: int|
            0 <= k < matching_idxs(cands, ipv4).len() ==> (#[trigger] matching_idxs(
                cands,
                ipv4,
            )[k]) < cands.len(),
    decreases cands.len(),
{
    if cands.len() > 0 {
        let init = cands.drop_last();
        lemma_matching_idxs_in_range(init, ipv4);
        let r = matching_idxs(cands, ipv4);
        let r0 = matching_idxs(init, ipv4);
        assert forall|k: int| 0 <= k < r.len() implies (#[trigger] r[k]) < cands.len() by {
            if k < r0.len() {
                assert(r[k] == r0[k]);
            }
        }
    }
}

/// Offering a pair to the checklist keeps `pairs_ok`.
pub proof fn lemma_install_ok(
    locals: Seq<CandidateView>,
    remotes: Seq<CandidateView>,
    pairs: Seq<PairView>,
    p: PairView,
)
    requires
        pairs_ok(pairs, locals.len() as int, remotes.len() as int),
        pairs_ok(seq![p], locals.len() as int, remotes.len() as int),
    ensures
        pairs_ok(install(locals, remotes, pairs, p), locals.len() as int, remotes.len() as int),
{
    lemma_first_index(pairs, redundant_with(locals, remotes, p));
    assert(seq![p][0] == p);
    let r = install(locals, remotes, pairs, p);
    assert forall|i: int| 0 <= i < r.len() implies {
        &&& (#[trigger] r[i]).local_idx < locals.len()
        &&& r[i].remote_idx < remotes.len()
        &&& r[i].valid_idx matches Some(v) ==> v < locals.len()
        &&& r[i].wf()
    } by {
        if i < pairs.len() && r[i] == pairs[i] {
        } else {
            assert(r[i] == p);
        }
    }
}

/// Offering the pairs of one local candidate keeps `pairs_ok`.
pub proof fn lemma_install_row_ok(
    s: AgentView,
    pairs: Seq<PairView>,
    li: usize,
    remote_idxs: Seq<usize>,
)
    requires
        pairs_ok(pairs, s.locals.len() as int, s.remotes.len() as int),
        li < s.locals.len(),
        forall|k: int| 0 <= k < remote_idxs.len() ==> (#[trigger] remote_idxs[k]) < s.remotes.len(),
    ensures
        pairs_ok(
            s.install_row(pairs, li, remote_idxs),
            s.locals.len() as int,
            s.remotes.len() as int,
        ),
    decreases remote_idxs.len(),
{
    if remote_idxs.len() > 0 {
        let init = remote_idxs.drop_last();
        assert forall|k: int| 0 <= k < init.len() implies (#[trigger] init[k])
            < s.remotes.len() by {
            assert(init[k] == remote_idxs[k]);
        }
        lemma_install_row_ok(s, pairs, li, init);
        let p = s.new_pair(li, remote_idxs.last());
        assert(remote_idxs[remote_idxs.len() - 1] < s.remotes.len());
        assert(pairs_ok(seq![p], s.locals.len() as int, s.remotes.len() as int));
        lemma_install_ok(s.locals, s.remotes, s.install_row(pairs, li, init), p);
    }
}

/// Offering the pairs of several local candidates keeps `pairs_ok`.
pub proof fn lemma_install_all_ok(
    s: AgentView,
    pairs: Seq<PairView>,
    local_idxs: Seq<usize>,
    remote_idxs: Seq<usize>,
)
    requires
        pairs_ok(pairs, s.locals.len() as int, s.remotes.len() as int),
        forall|k: int| 0 <= k < local_idxs.len() ==> (#[trigger] local_idxs[k]) < s.locals.len(),
        forall|k: int| 0 <= k < remote_idxs.len() ==> (#[trigger] remote_idxs[k]) < s.remotes.len(),
    ensures
        pairs_ok(
            s.install_all(pairs, local_idxs, remote_idxs),
            s.locals.len() as int,
            s.remotes.len() as int,
        ),
    decreases local_idxs.len(),
{
    if local_idxs.len() > 0 {
        let init = local_idxs.drop_last();
        assert forall|k: int| 0 <= k < init.len() implies (#[trigger] init[k])
            < s.locals.len() by {
            assert(init[k] == local_idxs[k]);
        }
        lemma_install_all_ok(s, pairs, init, remote_idxs);
        assert(local_idxs[local_idxs.len() - 1] < s.locals.len());
        lemma_install_row_ok(
            s,
            s.install_all(pairs, init, remote_idxs),
            local_idxs.last(),
            remote_idxs,
        );
    }
}

/// Sorting keeps `pairs_ok`.
pub proof fn lemma_sort_ok(pairs: Seq<PairView>, locals: int, remotes: int)
    requires
        pairs_ok(pairs, locals, remotes),
    ensures
        pairs_ok(sort_pairs(pairs), locals, remotes),
        is_sorted(sort_pairs(pairs)),
        sort_pairs(pairs).len() == pairs.len(),
{
    lemma_sort_pairs_same_pairs(pairs);
    lemma_sort_pairs_sorted(pairs);
    let r = sort_pairs(pairs);
    assert forall|i: int| 0 <= i < r.len() implies {
        &&& (#[trigger] r[i]).local_idx < locals
        &&& r[i].remote_idx < remotes
        &&& r[i].valid_idx matches Some(v) ==> v < locals
        &&& r[i].wf()
    } by {
        assert(pairs.contains(r[i]));
        let w = choose|w: int| 0 <= w < pairs.len() && pairs[w] == r[i];
        assert(pairs[w] == r[i]);
    }
}

/// Keeping some of the pairs keeps `pairs_ok` and the order.
pub proof fn lemma_keep_ok(
    pairs: Seq<PairView>,
    f: spec_fn(PairView) -> bool,
    locals: int,
    remotes: int,
)
    requires
        pairs_ok(pairs, locals, remotes),
    ensures
        pairs_ok(keep(pairs, f), locals, remotes),
        is_sorted(pairs) ==> is_sorted(keep(pairs, f)),
        keep(pairs, f).len() <= pairs.len(),
{
    lemma_keep(pairs, f);
    let r = keep(pairs, f);
    assert forall|i: int| 0 <= i < r.len() implies {
        &&& (#[trigger] r[i]).local_idx < locals
        &&& r[i].remote_idx < remotes
        &&& r[i].valid_idx matches Some(v) ==> v < locals
        &&& r[i].wf()
    } by {
        let w = choose|w: int| i <= w < pairs.len() && pairs[w] == r[i];
        assert(pairs[w] == r[i]);
    }
    if is_sorted(pairs) {
        assert forall|i: int, j: int| 0 <= i < j < r.len() implies r[i].prio >= r[j].prio by {
            let (w, x) = choose|w: int, x: int|
                0 <= w < x < pairs.len() && pairs[w] == r[i] && pairs[x] == r[j];
            assert(pairs[w].prio >= pairs[x].prio);
        }
    }
}

/// Forming pairs leaves an orderly agent, if the agent was orderly
/// but for the order of its checklist.
pub proof fn lemma_form_pairs_wf(s: AgentView, local_idxs: Seq<usize>, remote_idxs: Seq<usize>)
    requires
        (AgentView { pairs: Seq::empty(), ..s }).orderly(),
        pairs_ok(s.pairs, s.locals.len() as int, s.remotes.len() as int),
        forall|k: int| 0 <= k < local_idxs.len() ==> (#[trigger] local_idxs[k]) < s.locals.len(),
        forall|k: int| 0 <= k < remote_idxs.len() ==> (#[trigger] remote_idxs[k]) < s.remotes.len(),
    ensures
        s.form_pairs(local_idxs, remote_idxs).orderly(),
        s.form_pairs(local_idxs, remote_idxs).within_cap(),
{
    let e = AgentView { pairs: Seq::empty(), ..s };
    let a = s.install_all(s.pairs, local_idxs, remote_idxs);
    lemma_install_all_ok(s, s.pairs, local_idxs, remote_idxs);
    lemma_sort_ok(a, s.locals.len() as int, s.remotes.len() as int);
    let r = s.form_pairs(local_idxs, remote_idxs);
    let sorted = sort_pairs(a);
    assert forall|i: int| 0 <= i < r.pairs.len() implies r.pairs[i] == sorted[i] by {}
    assert(r.pairs_in_range());
    assert(r.pairs_wf());
    assert(is_sorted(r.pairs));
}

/// An orderly agent is orderly without its checklist, and its
/// pairs are `pairs_ok`.
pub proof fn lemma_wf_parts(s: AgentView)
    requires
        s.orderly(),
    ensures
        (AgentView { pairs: Seq::empty(), ..s }).orderly(),
        pairs_ok(s.pairs, s.locals.len() as int, s.remotes.len() as int),
{
    let e = AgentView { pairs: Seq::empty(), ..s };
}

/// Discarding a local candidate leaves an orderly agent, whose
/// checklist is no longer, and keeps every local socket.
pub proof fn lemma_discard_local_wf(s: AgentView, idx: int)
    requires
        s.orderly(),
        0 <= idx < s.locals.len(),
    ensures
        s.discard_local(idx).orderly(),
        s.discard_local(idx).pairs.len() <= s.pairs.len(),
        grown(s.locals, s.discard_local(idx).locals),
{
    let r = s.discard_local(idx);
    lemma_wf_parts(s);
    lemma_keep_ok(
        s.pairs,
        not_of_local(idx as usize),
        s.locals.len() as int,
        s.remotes.len() as int,
    );
    assert(grown(s.locals, r.locals));
    assert(locals_unique(r.locals)) by {
        assert forall|i: int, j: int|
            0 <= i < j < r.locals.len() && !r.locals[i].discarded
                && !r.locals[j].discarded implies !(r.locals[i].addr == r.locals[j].addr
            && r.locals[i].base() == r.locals[j].base()) by {
            assert(r.locals[i] == s.locals[i] && r.locals[j] == s.locals[j]);
        }
    }
}

/// Adding a local candidate leaves an orderly agent whose checklist is
/// within its size.
pub proof fn lemma_add_local_wf(s: AgentView, c: CandidateView)
    requires
        s.orderly(),
    ensures
        s.add_local(c).orderly(),
        s.within_cap() ==> s.add_local(c).within_cap(),
{
    if !s.refuses_local(c) {
        let c1 = s.with_preference(c);
        let f = same_addr_base(c1.addr, c1.base());
        let i = first_index(s.locals, f);
        lemma_first_index(s.locals, f);
        let s1 = if i < s.locals.len() {
            s.discard_local(i)
        } else {
            s
        };
        if i < s.locals.len() {
            lemma_discard_local_wf(s, i);
        }
        assert(s1.orderly());
        assert(grown(s.locals, s1.locals));
        let s2 = AgentView {
            events: s1.events.push(crate::model::EventView::NewLocalCandidate(c1)),
            locals: s1.locals.push(c1),
            ..s1
        };
        lemma_wf_parts(s1);
        let e2 = AgentView { pairs: Seq::empty(), ..s2 };
        assert(grown(s1.locals, s2.locals));
        assert(locals_unique(s2.locals)) by {
            assert forall|a: int, b: int|
                0 <= a < b < s2.locals.len() && !s2.locals[a].discarded
                    && !s2.locals[b].discarded implies !(s2.locals[a].addr == s2.locals[b].addr
                && s2.locals[a].base() == s2.locals[b].base()) by {
                if b < s1.locals.len() {
                    assert(s2.locals[a] == s1.locals[a] && s2.locals[b] == s1.locals[b]);
                } else {
                    assert(s2.locals[b] == c1);
                    assert(s2.locals[a] == s1.locals[a]);
                    if s2.locals[a].addr == c1.addr && s2.locals[a].base() == c1.base() {
                        if i < s.locals.len() {
                            if a == i {
                                assert(s1.locals[a].discarded);
                            } else {
                                assert(s1.locals[a] == s.locals[a]);
                                assert(f(s.locals[i]));
                                assert(f(s.locals[a]));
                                if a < i {
                                    assert(!f(s.locals[a]));
                                }
                            }
                        } else {
                            assert(s1.locals[a] == s.locals[a]);
                            assert(!f(s.locals[a]));
                        }
                    }
                }
            }
        }
        assert(e2.orderly());
        let ridx = matching_idxs(s2.remotes, c1.addr.spec_is_ipv4());
        lemma_matching_idxs_in_range(s2.remotes, c1.addr.spec_is_ipv4());
        let lidx = seq![s.locals.len() as usize];
        assert(s1.locals.len() == s.locals.len());
        assert forall|k: int| 0 <= k < lidx.len() implies (#[trigger] lidx[k])
            < s2.locals.len() by {}
        lemma_form_pairs_wf(s2, lidx, ridx);
    }
}

/// Adding a remote candidate leaves an orderly agent whose checklist is
/// within its size.
pub proof fn lemma_add_remote_wf(s: AgentView, c: CandidateView)
    requires
        s.orderly(),
    ensures
        s.add_remote(c).orderly(),
        s.within_cap() ==> s.add_remote(c).within_cap(),
{
    if c.component_id == 1 {
        let f = temp_prflx_like(c.addr, c.prio());
        let e = first_index(s.remotes, f);
        lemma_first_index(s.remotes, f);
        let s1 = AgentView {
            remotes: if e < s.remotes.len() {
                s.remotes.update(e, c)
            } else {
                s.remotes.push(c)
            },
            ..s
        };
        lemma_wf_parts(s);
        let e1 = AgentView { pairs: Seq::empty(), ..s1 };
        assert(e1.orderly());
        lemma_matching_idxs_in_range(s1.locals, c.addr.spec_is_ipv4());
        let ridx = seq![e as usize];
        assert forall|k: int| 0 <= k < ridx.len() implies (#[trigger] ridx[k])
            < s1.remotes.len() by {}
        lemma_form_pairs_wf(s1, matching_idxs(s1.locals, c.addr.spec_is_ipv4()), ridx);
    }
}

/// Invalidating a candidate leaves an orderly agent whose checklist is
/// no longer.
pub proof fn lemma_invalidate_wf(s: AgentView, c: CandidateView)
    requires
        s.orderly(),
    ensures
        s.invalidate(c).orderly(),
        s.invalidate(c).pairs.len() <= s.pairs.len(),
{
    if s.invalidates(c) {
        let f = same_addr_base_raddr(c.addr, c.base(), c.raddr);
        lemma_first_index(s.locals, f);
        lemma_discard_local_wf(s, first_index(s.locals, f));
    }
}

/// The state of the agent after a pair of its checklist was replaced by
/// one with the same candidates and priority is orderly.
pub proof fn lemma_update_pair_wf(s: AgentView, k: int, p: PairView)
    requires
        s.orderly(),
        0 <= k < s.pairs.len(),
        p.wf(),
        p.local_idx == s.pairs[k].local_idx,
        p.remote_idx == s.pairs[k].remote_idx,
        p.prio == s.pairs[k].prio,
        p.valid_idx matches Some(v) ==> v < s.locals.len(),
    ensures
        (AgentView { pairs: s.pairs.update(k, p), ..s }).orderly(),
{
    let r = AgentView { pairs: s.pairs.update(k, p), ..s };
    assert forall|i: int, j: int| 0 <= i < j < r.pairs.len() implies r.pairs[i].prio
        >= r.pairs[j].prio by {
        assert(s.pairs[i].prio >= s.pairs[j].prio);
    }
    assert forall|i: int| 0 <= i < r.pairs.len() implies (#[trigger] r.pairs[i]).wf() by {
        if i != k {
            assert(r.pairs[i] == s.pairs[i]);
        }
    }
    assert(r.pairs_in_range()) by {
        assert forall|i: int| 0 <= i < r.pairs.len() implies {
            &&& (#[trigger] r.pairs[i]).local_idx < r.locals.len()
            &&& r.pairs[i].remote_idx < r.remotes.len()
            &&& r.pairs[i].valid_idx matches Some(v) ==> v < r.locals.len()
        } by {
            if i != k {
                assert(r.pairs[i] == s.pairs[i]);
            } else {
                assert(s.pairs[k].local_idx < s.locals.len());
            }
        }
    }
}

/// What answering a Binding request needs and leaves: the candidates
/// exist, the pair that counts the request lies within the checklist,
/// and the tables of the agent are as they should be after it.
pub proof fn lemma_server_request_wf(s: AgentView, now: Instant, req: RequestView)
    requires
        s.orderly(),
        s.answers(req) ==> s.is_local_socket(req.destination),
    ensures
        s.server_request(now, req).orderly(),
        s.server_request(now, req).locals == s.locals,
        s.answers(req) ==> {
            let remotes = s.remotes_after(req);
            let pairs1 = s.pairs_after(req);
            let wanted = s.request_pair(req);
            &&& wanted.local_idx < s.locals.len()
            &&& wanted.remote_idx < remotes.len()
            &&& wanted.remote_idx <= s.remotes.len()
            &&& pairs_ok(pairs1, s.locals.len() as int, remotes.len() as int)
            &&& pairs_ok(s.pairs, s.locals.len() as int, remotes.len() as int)
            &&& 0 <= first_index(pairs1, redundant_with(s.locals, remotes, wanted))
                <= pairs1.len()
        },
{
    if s.answers(req) {
        let r0 = first_index(s.remotes, crate::model::live_with_addr(req.source));
        lemma_first_index(s.remotes, crate::model::live_with_addr(req.source));
        lemma_first_index(s.locals, socket_with_addr(req.destination));
        let remotes = s.remotes_after(req);
        let wanted = s.request_pair(req);
        let f = pair_of(wanted.local_idx, wanted.remote_idx);
        lemma_first_index(s.pairs, f);
        lemma_wf_parts(s);
        assert(pairs_ok(s.pairs, s.locals.len() as int, remotes.len() as int));
        let pairs1 = s.pairs_after(req);
        assert(pairs_ok(pairs1, s.locals.len() as int, remotes.len() as int) && is_sorted(
            pairs1,
        )) by {
            if first_index(s.pairs, f) >= s.pairs.len() {
                assert(pairs_ok(seq![wanted], s.locals.len() as int, remotes.len() as int));
                lemma_install_ok(s.locals, remotes, s.pairs, wanted);
                let installed = install(s.locals, remotes, s.pairs, wanted);
                lemma_sort_ok(installed, s.locals.len() as int, remotes.len() as int);
                let sorted = sort_pairs(installed);
                assert forall|i: int| 0 <= i < pairs1.len() implies pairs1[i]
                    == sorted[i] by {}
            }
        }
        let g = redundant_with(s.locals, remotes, wanted);
        lemma_first_index(pairs1, g);
        let k = first_index(pairs1, g);
        let s2 = AgentView { remotes, pairs: pairs1, ..s };
        assert(s2.orderly());
        let r = s.server_request(now, req);
        if k < pairs1.len() {
            let updated = s.counted_pair(req, pairs1[k]);
            assert(pairs1[k].wf());
            lemma_update_pair_wf(s2, k, updated);
            let r2 = AgentView { pairs: pairs1.update(k, updated), ..s2 };
            assert(r.pairs == r2.pairs && r.locals == r2.locals && r.remotes == r2.remotes
                && r.queue == r2.queue && r.local == r2.local && r.remote == r2.remote);
        } else {
            assert(r.pairs == s2.pairs && r.locals == s2.locals && r.remotes == s2.remotes
                && r.queue == s2.queue && r.local == s2.local && r.remote == s2.remote);
        }
    }
}

/// Where the queue without its stale requests starts in the queue.
pub open spec fn stale_count(q: Seq<RequestView>, now: Instant) -> int
    decreases q.len(),
{
    if q.len() > 0 && now.since(q[0].now).micros >= crate::stun::STUN_TIMEOUT_MICROS {
        1 + stale_count(q.drop_first(), now)
    } else {
        0
    }
}

/// The queue without its stale requests is the rest of the queue from
/// `stale_count` on.
pub proof fn lemma_drop_stale(q: Seq<RequestView>, now: Instant)
    ensures
        0 <= stale_count(q, now) <= q.len(),
        drop_stale(q, now) == q.skip(stale_count(q, now)),
    decreases q.len(),
{
    if q.len() > 0 && now.since(q[0].now).micros >= crate::stun::STUN_TIMEOUT_MICROS {
        lemma_drop_stale(q.drop_first(), now);
        assert(q.drop_first().skip(stale_count(q.drop_first(), now)) =~= q.skip(
            stale_count(q, now),
        ));
    } else {
        assert(q.skip(0) =~= q);
    }
}

/// Queueing a request leaves the tables of the agent as they should be.
pub proof fn lemma_enqueue_wf(s: AgentView, req: RequestView)
    requires
        s.orderly(),
    ensures
        (AgentView { queue: bounded_push(s.queue, req), ..s }).orderly(),
{
}

/// Recording a response leaves an orderly agent with the same
/// checklist size.
pub proof fn lemma_client_response_wf(s: AgentView, now: Instant, id: TransId, mapped: SocketAddr)
    requires
        s.orderly(),
    ensures
        s.client_response(now, id, mapped).orderly(),
        s.client_response(now, id, mapped).pairs.len() == s.pairs.len(),
        locals_kept(s.locals, s.client_response(now, id, mapped).locals),
        0 <= first_index(s.pairs, awaiting(id)) <= s.pairs.len(),
        0 <= first_index(s.locals, with_addr(mapped)) <= s.locals.len(),
{
    let k = first_index(s.pairs, awaiting(id));
    lemma_first_index(s.pairs, awaiting(id));
    lemma_first_index(s.locals, with_addr(mapped));
    if k < s.pairs.len() {
        let v0 = first_index(s.locals, with_addr(mapped));
        let locals = if v0 < s.locals.len() {
            s.locals
        } else {
            s.locals.push(
                AgentView::discovered_local(s.locals[s.pairs[k].local_idx as int], mapped),
            )
        };
        let s1 = AgentView { locals, ..s };
        assert(grown(s.locals, locals));
        assert(s1.orderly()) by {
            assert forall|a: int, b: int|
                0 <= a < b < locals.len() && !locals[a].discarded
                    && !locals[b].discarded implies !(locals[a].addr == locals[b].addr
                && locals[a].base() == locals[b].base()) by {
                if b < s.locals.len() {
                    assert(locals[a] == s.locals[a] && locals[b] == s.locals[b]);
                } else {
                    assert(locals[a] == s.locals[a]);
                    assert(!with_addr(mapped)(s.locals[a]));
                }
            }
            assert(s1.pairs_in_range()) by {
                assert forall|i: int| 0 <= i < s1.pairs.len() implies {
                    &&& (#[trigger] s1.pairs[i]).local_idx < s1.locals.len()
                    &&& s1.pairs[i].remote_idx < s1.remotes.len()
                    &&& s1.pairs[i].valid_idx matches Some(v) ==> v < s1.locals.len()
                } by {
                    assert(s.pairs[i].local_idx < s.locals.len());
                }
            }
        }
        let p = s.pairs[k].with_response(now, id, v0 as usize);
        assert(s.pairs[k].wf());
        crate::pair::lemma_pair_wf_preserved(s.pairs[k], now, id, v0 as usize);
        lemma_update_pair_wf(s1, k, p);
        let r = s.client_response(now, id, mapped);
        let r2 = AgentView { pairs: s1.pairs.update(k, p), ..s1 };
        assert(r.pairs == r2.pairs && r.locals == r2.locals && r.remotes == r2.remotes && r.queue
            == r2.queue && r.local == r2.local && r.remote == r2.remote);
    }
}

/// `best_index` lies within the checklist or is its length.
pub proof fn lemma_best_index(pairs: Seq<PairView>)
    ensures
        0 <= crate::model::best_index(pairs) <= pairs.len(),
    decreases pairs.len(),
{
    if pairs.len() > 0 {
        lemma_best_index(pairs.drop_last());
    }
}

/// `earliest_index` lies within a checklist that is not empty.
pub proof fn lemma_earliest_index(pairs: Seq<PairView>, now: Instant)
    ensures
        0 <= crate::model::earliest_index(pairs, now),
        pairs.len() > 0 ==> crate::model::earliest_index(pairs, now) < pairs.len(),
    decreases pairs.len(),
{
    if pairs.len() > 1 {
        lemma_earliest_index(pairs.drop_last(), now);
    }
}

/// Nominating leaves an orderly agent.
pub proof fn lemma_nominate_best_wf(s: AgentView)
    requires
        s.orderly(),
    ensures
        s.nominate_best().orderly(),
        s.nominate_best().pairs.len() == s.pairs.len(),
{
    lemma_best_index(s.pairs);
    let b = crate::model::best_index(s.pairs);
    if b < s.pairs.len() {
        lemma_update_pair_wf(s, b, s.pairs[b].with_nomination());
    }
}

/// Sending a request for a pair leaves an orderly agent.
pub proof fn lemma_client_request_wf(s: AgentView, now: Instant, idx: int, id: TransId)
    requires
        s.orderly(),
        0 <= idx < s.pairs.len(),
    ensures
        s.client_request(now, idx, id).orderly(),
        s.client_request(now, idx, id).pairs.len() == s.pairs.len(),
{
    let p = s.pairs[idx].with_attempt(now, id);
    assert(s.pairs[idx].wf());
    crate::pair::lemma_pair_wf_preserved(s.pairs[idx], now, id, 0);
    lemma_update_pair_wf(s, idx, p);
    let r = s.client_request(now, idx, id);
    let r2 = AgentView { pairs: s.pairs.update(idx, p), ..s };
}

/// A round of work leaves the tables of the agent as they should be and
/// its local candidates as they are.
pub proof fn lemma_work_wf(s: AgentView, now: Instant, id: TransId)
    requires
        s.orderly(),
        s.answerable(s.queued_request(now)),
    ensures
        s.work(now, id).orderly(),
        s.work(now, id).locals == s.locals,
{
    let s1 = AgentView { last_now: Some(now), ..s };
    lemma_drop_stale(s1.queue, now);
    let q = drop_stale(s1.queue, now);
    let n = stale_count(s1.queue, now);
    assert(q =~= s.queue.skip(n));
    if s1.remote is Some && q.len() > 0 {
        let s1b = AgentView { queue: q.drop_first(), ..s1 };
        assert(s1b.orderly());
        assert(s.queued_request(now) == Some(q[0]));
        assert(s1b.answers(q[0]) == s.answers(q[0]));
        assert(s1b.is_local_socket(q[0].destination) == s.is_local_socket(q[0].destination));
        lemma_server_request_wf(s1b, now, q[0]);
    } else {
        let s2 = AgentView { queue: q, ..s1 };
        assert(s2.orderly());
        if s2.nomination_at matches Some(t) && now.micros >= t.micros {
            let s2b = AgentView { nomination_at: None, ..s2 };
            assert(s2b.orderly());
            lemma_nominate_best_wf(s2b);
        } else {
            lemma_sweep_and_probe_wf(s2, now, id);
        }
    }
}

/// Dropping the failed pairs and sending the request that is due leaves
/// an orderly agent whose checklist is no longer.
pub proof fn lemma_sweep_and_probe_wf(s2: AgentView, now: Instant, id: TransId)
    requires
        s2.orderly(),
    ensures
        s2.sweep_and_probe(now, id).orderly(),
        s2.sweep_and_probe(now, id).pairs.len() <= s2.pairs.len(),
        (AgentView { pairs: keep(s2.pairs, possible_at(now)), ..s2 }).orderly(),
        0 <= crate::model::earliest_index(keep(s2.pairs, possible_at(now)), now),
        keep(s2.pairs, possible_at(now)).len() > 0 ==> crate::model::earliest_index(
            keep(s2.pairs, possible_at(now)),
            now,
        ) < keep(s2.pairs, possible_at(now)).len(),
{
    let s3 = AgentView { pairs: keep(s2.pairs, possible_at(now)), ..s2 };
    lemma_wf_parts(s2);
    lemma_keep_ok(s2.pairs, possible_at(now), s2.locals.len() as int, s2.remotes.len() as int);
    assert(s3.orderly()) by {
    }
    lemma_earliest_index(s3.pairs, now);
    if s3.remote is None || s3.pairs.len() == 0 {
    } else {
        let e = crate::model::earliest_index(s3.pairs, now);
        if now.micros >= s3.pairs[e].next_attempt_time(now).micros {
            lemma_client_request_wf(s3, now, e, id);
        }
    }
}

/// A tick leaves the tables of the agent as they should be and its local
/// candidates as they are.
pub proof fn lemma_timeout_wf(s: AgentView, now: Instant, id: TransId)
    requires
        s.orderly(),
        s.answerable(s.due_request(now)),
    ensures
        s.timeout(now, id).orderly(),
        s.timeout(now, id).locals == s.locals,
{
    let s0 = if s.state is New {
        s.with_state(crate::model::IceConnectionState::Checking)
    } else {
        s
    };
    assert(s0.orderly());
    if !s0.paced_out(now) {
        assert(s0.queued_request(now) == s.queued_request(now));
        match s.queued_request(now) {
            Some(req) => {
                assert(s0.answers(req) == s.answers(req));
                assert(s0.is_local_socket(req.destination) == s.is_local_socket(req.destination));
            },
            None => {},
        }
        lemma_work_wf(s0, now, id);
    }
}

/// Asking for the next tick leaves an orderly agent.
pub proof fn lemma_after_poll_timeout_wf(s: AgentView)
    requires
        s.orderly(),
    ensures
        s.after_poll_timeout().orderly(),
{
    let r = s.after_poll_timeout();
    if s.last_now is Some {
        let l = s.last_now->0;
        assert forall|i: int| 0 <= i < r.pairs.len() implies (#[trigger] r.pairs[i]).wf() by {
            assert(s.pairs[i].wf());
        }
        assert(r.pairs_in_range()) by {
            assert forall|i: int| 0 <= i < r.pairs.len() implies {
                &&& (#[trigger] r.pairs[i]).local_idx < r.locals.len()
                &&& r.pairs[i].remote_idx < r.remotes.len()
                &&& r.pairs[i].valid_idx matches Some(v) ==> v < r.locals.len()
            } by {
                assert(s.pairs[i].local_idx < s.locals.len());
            }
        }
        assert forall|i: int, j: int| 0 <= i < j < r.pairs.len() implies r.pairs[i].prio
            >= r.pairs[j].prio by {
            assert(s.pairs[i].prio >= s.pairs[j].prio);
        }
    }
}

/// Receiving a datagram leaves the tables of the agent as they should
/// be; its local candidates stay, and one that a response brings has no
/// local preference.
pub proof fn lemma_receive_wf(
    s: AgentView,
    now: Instant,
    source: SocketAddr,
    destination: SocketAddr,
    contents: crate::model::DatagramView,
)
    requires
        s.orderly(),
        s.answerable(s.received_request(now, source, destination, contents)),
    ensures
        s.receive(now, source, destination, contents).orderly(),
        locals_kept(s.locals, s.receive(now, source, destination, contents).locals),
{
    match contents {
        crate::model::DatagramView::Other(_) => {},
        crate::model::DatagramView::Stun(m) => {
            if !s.accepts(m) {
            } else if m.class is Request {
                match AgentView::request_of(now, source, destination, m) {
                    None => {},
                    Some(req) => {
                        if s.remote is Some {
                            lemma_server_request_wf(s, now, req);
                        } else {
                            lemma_enqueue_wf(s, req);
                        }
                    },
                }
            } else if m.class is Success && m.mapped_address is Some {
                lemma_client_response_wf(s, now, m.trans_id, m.mapped_address->0);
            }
        },
    }
}

/// Whether an agent is orderly depends on the credentials, the candidates, the
/// checklist and the queue only.
pub proof fn lemma_wf_frame(s: AgentView, r: AgentView)
    requires
        s.orderly(),
        r.local == s.local,
        r.remote == s.remote,
        r.locals == s.locals,
        r.remotes == s.remotes,
        r.pairs == s.pairs,
        r.queue == s.queue,
    ensures
        r.orderly(),
{
}

/// The tables of the agent stay as they should be with a later part of
/// its queue.
pub proof fn lemma_queue_suffix_wf(s: AgentView, n: int)
    requires
        s.orderly(),
        0 <= n <= s.queue.len(),
    ensures
        (AgentView { queue: s.queue.skip(n), ..s }).orderly(),
{
}

/// Cutting the checklist to a size leaves an orderly agent.
pub proof fn lemma_capped_wf(s: AgentView, max: int)
    requires
        s.orderly(),
    ensures
        (AgentView { pairs: capped(s.pairs, max), ..s }).orderly(),
        capped(s.pairs, max).len() <= s.pairs.len(),
        0 <= max ==> capped(s.pairs, max).len() <= max,
{
    let r = AgentView { pairs: capped(s.pairs, max), ..s };
    assert forall|i: int| 0 <= i < r.pairs.len() implies r.pairs[i] == s.pairs[i] by {}
    assert forall|i: int| 0 <= i < r.pairs.len() implies (#[trigger] r.pairs[i]).wf() by {
        assert(s.pairs[i].wf());
    }
    assert(r.pairs_in_range()) by {
        assert forall|i: int| 0 <= i < r.pairs.len() implies {
            &&& (#[trigger] r.pairs[i]).local_idx < r.locals.len()
            &&& r.pairs[i].remote_idx < r.remotes.len()
            &&& r.pairs[i].valid_idx matches Some(v) ==> v < r.locals.len()
        } by {
            assert(s.pairs[i].local_idx < s.locals.len());
        }
    }
    assert forall|i: int, j: int| 0 <= i < j < r.pairs.len() implies r.pairs[i].prio
        >= r.pairs[j].prio by {
        assert(s.pairs[i].prio >= s.pairs[j].prio);
    }
}

/// Discarding candidates does not change how many there are of a kind and
/// address family.
pub proof fn lemma_count_same_discarded(
    before: Seq<CandidateView>,
    after: Seq<CandidateView>,
    kind: CandidateKind,
    ipv6: bool,
)
    requires
        grown(before, after),
        before.len() == after.len(),
    ensures
        count_same(before, kind, ipv6) == count_same(after, kind, ipv6),
    decreases before.len(),
{
    if before.len() > 0 {
        let b = before.drop_last();
        let a = after.drop_last();
        assert forall|j: int| 0 <= j < b.len() implies (#[trigger] a[j]) == (CandidateView {
            discarded: a[j].discarded,
            ..b[j]
        }) by {
            assert(after[j] == (CandidateView { discarded: after[j].discarded, ..before[j] }));
        }
        lemma_count_same_discarded(b, a, kind, ipv6);
        assert(after[after.len() - 1] == (CandidateView {
            discarded: after[after.len() - 1].discarded,
            ..before[before.len() - 1]
        }));
    }
}

/// There are no more candidates of a kind and family than candidates.
pub proof fn lemma_count_same_bound(locals: Seq<CandidateView>, kind: CandidateKind, ipv6: bool)
    ensures
        count_same(locals, kind, ipv6) <= locals.len(),
    decreases locals.len(),
{
    if locals.len() > 0 {
        lemma_count_same_bound(locals.drop_last(), kind, ipv6);
    }
}

/// Adding the same local candidate a second time changes nothing: the
/// second is refused, so that no pair is added and no preference changes.
/// This holds of a live candidate whose priority is computed from its
/// local preference.
pub proof fn lemma_add_local_twice(s: AgentView, c: CandidateView)
    requires
        s.orderly(),
        c.wf(),
        !c.discarded,
        c.prio is None,
        !s.refuses_local(c),
    ensures
        s.add_local(c).refuses_local(c),
        s.add_local(c).add_local(c) == s.add_local(c),
{
    let ipv6 = c.addr.spec_is_ipv6();
    let c1 = s.with_preference(c);
    let f = same_addr_base(c1.addr, c1.base());
    let i = first_index(s.locals, f);
    lemma_first_index(s.locals, f);
    let s1 = if i < s.locals.len() {
        s.discard_local(i)
    } else {
        s
    };
    if i < s.locals.len() {
        lemma_discard_local_wf(s, i);
    }
    let r = s.add_local(c);
    lemma_add_local_wf(s, c);
    let n = s.locals.len() as int;
    assert(r.locals == s1.locals.push(c1));
    assert(r.locals[n] == c1);
    assert(grown(s.locals, s1.locals));
    lemma_count_same_discarded(s.locals, s1.locals, c.kind, ipv6);
    let cnt = count_same(s.locals, c.kind, ipv6);
    assert(r.locals.drop_last() =~= s1.locals);
    assert(count_same(r.locals, c.kind, ipv6) == cnt + 1);
    if cnt + 1 >= PREFERENCES_PER_FAMILY {
    } else {
        let c2 = r.with_preference(c);
        let j = first_index(r.locals, f);
        lemma_first_index(r.locals, f);
        assert(f(r.locals[n]));
        lemma_first_index_le(r.locals, f, n);
        if j < n {
            assert(f(r.locals[j]));
            assert(!r.locals[j].discarded && !r.locals[n].discarded);
        }
        assert(j == n);
        assert(c2.local_preference == Some((next_preference(s.locals, c.kind, ipv6) - 2) as u32));
        assert(0 <= next_preference(s.locals, c.kind, ipv6) - 2);
        assert(next_preference(s.locals, c.kind, ipv6) <= 65535);
        assert(c2.prio() < c1.prio());
    }
}

/// Setting remote credentials with a username fragment of at most 256
/// bytes leaves an orderly agent.
pub proof fn lemma_remote_wf(s: AgentView, r: crate::model::CredsView)
    requires
        s.orderly(),
        r.ufrag.len() <= crate::model::MAX_UFRAG_LEN,
    ensures
        (AgentView { remote: Some(r), ..s }).orderly(),
{
    let t = AgentView { remote: Some(r), ..s };
}

} // verus!
