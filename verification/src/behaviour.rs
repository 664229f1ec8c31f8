//! What single steps of the agent bring about.

use vstd::prelude::*;
use crate::candidate::CandidateView;
use crate::checklist::{capped, is_sorted, lemma_sort_pairs_same_pairs, sort_pairs};
use crate::laws::lemma_server_request_wf;
use crate::model::{
    AgentView,
    count_same,
    DATAGRAM_MTU,
    install,
    not_of_local,
    PREFERENCES_PER_FAMILY,
    redundant_with,
    request_username,
    RequestView,
    same_addr_base,
    ta_after,
};
use crate::pair::{lemma_attempt_recorded, PairView};
use crate::roundtrip::{lemma_request_round_trip, lemma_scan_serialized};
use crate::seqs::{first_index, lemma_first_index, lemma_keep};
use crate::stun::{StunMessageView, TransId};
use crate::time::Instant;
use crate::wire::{integrity_verifies, lemma_request_fits, serialized, spec_parse};

verus! {

/// What offering a pair to the checklist comes to: a redundant pair of at
/// least its priority stays as it is, with its state; one of lower
/// priority gives its place to the new pair; and without a redundant pair
/// the new pair goes to the end.
pub proof fn lemma_install_survivor(
    locals: Seq<CandidateView>,
    remotes: Seq<CandidateView>,
    pairs: Seq<PairView>,
    p: PairView,
)
    ensures
        ({
            let i = first_index(pairs, redundant_with(locals, remotes, p));
            let r = install(locals, remotes, pairs, p);
            &&& 0 <= i <= pairs.len()
            &&& i < pairs.len() && pairs[i].prio >= p.prio ==> r == pairs
            &&& i < pairs.len() && pairs[i].prio < p.prio ==> r == pairs.update(i, p)
            &&& i == pairs.len() ==> r == pairs.push(p)
        }),
{
    lemma_first_index(pairs, redundant_with(locals, remotes, p));
}

/// Cutting a sorted checklist to its size drops pairs of the lowest
/// priority only: no pair that is dropped has a higher priority than a
/// pair that stays.
pub proof fn lemma_cap_drops_lowest(pairs: Seq<PairView>, max: int)
    requires
        is_sorted(pairs),
        0 <= max,
    ensures
        capped(pairs, max).len() <= max,
        is_sorted(capped(pairs, max)),
        forall|i: int, j: int|
            0 <= i < capped(pairs, max).len() <= j < pairs.len() ==> capped(pairs, max)[i].prio
                >= pairs[j].prio,
{
    let c = capped(pairs, max);
    assert forall|i: int, j: int| 0 <= i < j < c.len() implies c[i].prio >= c[j].prio by {
        assert(pairs[i].prio >= pairs[j].prio);
    }
    assert forall|i: int, j: int| 0 <= i < c.len() <= j < pairs.len() implies c[i].prio
        >= pairs[j].prio by {
        assert(pairs[i].prio >= pairs[j].prio);
    }
}

/// What sending a Binding request for a pair brings about.
///
/// One datagram is queued, from the base of the pair's local candidate to
/// the address of its remote candidate, of no more bytes than a datagram
/// holds. Read back, it is a Binding request with the id `id`, the
/// priority of the local candidate as a peer-reflexive one, the role
/// attribute of the agent, USE-CANDIDATE exactly if the agent is
/// controlling and the pair nominated, the remote fragment, a colon and
/// the local fragment as username, a right fingerprint and an integrity
/// that verifies under the remote password. The pair has the request among
/// its unanswered ones and is in progress if it was waiting; no other pair
/// changes.
pub proof fn lemma_client_request_sends(s: AgentView, now: Instant, idx: int, id: TransId)
    requires
        s.orderly(),
        s.remote is Some,
        0 <= idx < s.pairs.len(),
    ensures
        ({
            let r = s.client_request(now, idx, id);
            let p = s.pairs[idx];
            let local = s.locals[p.local_idx as int];
            let t = r.transmit.last();
            &&& r.transmit == s.transmit.push(t)
            &&& t.source == local.base()
            &&& t.destination == s.remotes[p.remote_idx as int].addr
            &&& t.contents.len() <= DATAGRAM_MTU
            &&& spec_parse(t.contents) matches Ok(m)
            &&& m.class is Request
            &&& m.trans_id == id
            &&& m.prio == Some(local.prio_prflx())
            &&& m.use_candidate == (s.controlling && p.nominated)
            &&& m.ice_controlling is Some <==> s.controlling
            &&& m.ice_controlled is Some <==> !s.controlling
            &&& m.username == Some(request_username(s.remote->0.ufrag, s.local.ufrag))
            &&& integrity_verifies(m, s.remote->0.pwd)
            &&& r.pairs == s.pairs.update(idx, p.with_attempt(now, id))
            &&& r.pairs[idx].has_attempt(id)
            &&& p.state is Waiting ==> r.pairs[idx].state is InProgress
            &&& !(p.state is Waiting) ==> r.pairs[idx].state == p.state
        }),
{
    let p = s.pairs[idx];
    let local = s.locals[p.local_idx as int];
    let username = request_username(s.remote->0.ufrag, s.local.ufrag);
    let use_candidate = s.controlling && p.nominated;
    let m = StunMessageView::binding_request(
        username,
        id,
        s.controlling,
        local.prio_prflx(),
        use_candidate,
    );
    lemma_request_fits(username, id, s.controlling, local.prio_prflx(), use_candidate);
    lemma_scan_serialized(m, s.remote->0.pwd);
    lemma_request_round_trip(
        username,
        id,
        s.controlling,
        local.prio_prflx(),
        use_candidate,
        s.remote->0.pwd,
    );
    lemma_attempt_recorded(p, now, id);
    let r = s.client_request(now, idx, id);
    assert(r.transmit.last().contents == serialized(m, s.remote->0.pwd));
}

/// When answering a Binding request plans a nomination.
///
/// A controlling agent plans one, a timing advance later, exactly if the
/// pair that counts the request has succeeded and is not nominated and
/// none is planned; a planned one stays as it is. A controlling agent does
/// not nominate the pair by answering.
pub proof fn lemma_server_request_plans(s: AgentView, now: Instant, req: RequestView)
    requires
        s.orderly(),
        s.answers(req),
        s.is_local_socket(req.destination),
    ensures
        ({
            let pairs1 = s.pairs_after(req);
            let k = first_index(
                pairs1,
                redundant_with(s.locals, s.remotes_after(req), s.request_pair(req)),
            );
            let r = s.server_request(now, req);
            let due = k < pairs1.len() && s.controlling && pairs1[k].state is Succeeded
                && !pairs1[k].nominated;
            &&& r.pairs.len() == pairs1.len()
            &&& due && s.nomination_at is None ==> r.nomination_at == Some(ta_after(now))
            &&& !due || s.nomination_at is Some ==> r.nomination_at == s.nomination_at
            &&& s.controlling && k < pairs1.len() ==> r.pairs[k].nominated == pairs1[k].nominated
            &&& k < pairs1.len() ==> r.pairs[k].remote_binding_requests
                >= pairs1[k].remote_binding_requests
            &&& r.transmit.len() == s.transmit.len() + 1
        }),
{
    lemma_server_request_wf(s, now, req);
}

/// Offering pairs of the local candidate `li` leaves the checklist
/// without pairs of another local candidate `gone` that it had none of.
pub proof fn lemma_install_row_none_of(
    s: AgentView,
    pairs: Seq<PairView>,
    li: usize,
    remote_idxs: Seq<usize>,
    gone: usize,
)
    requires
        li != gone,
        forall|i: int| 0 <= i < pairs.len() ==> (#[trigger] pairs[i]).local_idx != gone,
    ensures
        forall|i: int|
            0 <= i < s.install_row(pairs, li, remote_idxs).len() ==> (#[trigger] s.install_row(
                pairs,
                li,
                remote_idxs,
            )[i]).local_idx != gone,
    decreases remote_idxs.len(),
{
    if remote_idxs.len() > 0 {
        let init = remote_idxs.drop_last();
        lemma_install_row_none_of(s, pairs, li, init, gone);
        let mid = s.install_row(pairs, li, init);
        let p = s.new_pair(li, remote_idxs.last());
        lemma_install_survivor(s.locals, s.remotes, mid, p);
        let r = s.install_row(pairs, li, remote_idxs);
        assert forall|i: int| 0 <= i < r.len() implies (#[trigger] r[i]).local_idx != gone by {
            if i < mid.len() && r[i] == mid[i] {
            } else {
                assert(r[i] == p);
            }
        }
    }
}

/// What adding a local candidate brings about where a live candidate has
/// its address and base and no higher priority.
///
/// Unless the agent is ice-lite and the candidate no host, or no local
/// preference is left, the candidate is added at the end with its local
/// preference; the older candidate is discarded, and the checklist holds
/// no pair of it. Discarding it removes no pair of another local
/// candidate.
pub proof fn lemma_add_local_replaces(s: AgentView, c: CandidateView)
    requires
        s.orderly(),
        !(s.ice_lite && !(c.kind is Host)),
        count_same(s.locals, c.kind, c.addr.spec_is_ipv6()) < PREFERENCES_PER_FAMILY,
        s.locals.len() < usize::MAX,
        first_index(
            s.locals,
            same_addr_base(s.with_preference(c).addr, s.with_preference(c).base()),
        ) < s.locals.len(),
        s.with_preference(c).prio() >= s.locals[first_index(
            s.locals,
            same_addr_base(s.with_preference(c).addr, s.with_preference(c).base()),
        )].prio(),
    ensures
        ({
            let c1 = s.with_preference(c);
            let i = first_index(s.locals, same_addr_base(c1.addr, c1.base()));
            let r = s.add_local(c);
            &&& !s.refuses_local(c)
            &&& r.locals.len() == s.locals.len() + 1
            &&& r.locals[i].discarded
            &&& r.locals.last() == c1
            &&& forall|k: int| 0 <= k < r.pairs.len() ==> (#[trigger] r.pairs[k]).local_idx != i
            &&& forall|k: int|
                0 <= k < s.pairs.len() && s.pairs[k].local_idx != i ==> s.discard_local(
                    i,
                ).pairs.contains(#[trigger] s.pairs[k])
        }),
{
    let c1 = s.with_preference(c);
    let f = same_addr_base(c1.addr, c1.base());
    let i = first_index(s.locals, f);
    lemma_first_index(s.locals, f);
    let gone = i as usize;
    let s1 = s.discard_local(i);
    lemma_keep(s.pairs, not_of_local(gone));
    let s2 = AgentView {
        events: s1.events.push(crate::model::EventView::NewLocalCandidate(c1)),
        locals: s1.locals.push(c1),
        ..s1
    };
    let n = s.locals.len() as usize;
    let ridx = crate::model::matching_idxs(s2.remotes, c1.addr.spec_is_ipv4());
    let lidx = seq![n];
    assert(lidx.drop_last() =~= Seq::<usize>::empty());
    assert(lidx.last() == n);
    assert(s2.install_all(s1.pairs, lidx.drop_last(), ridx) == s1.pairs);
    let a = s2.install_all(s1.pairs, lidx, ridx);
    assert(a == s2.install_row(s1.pairs, n, ridx));
    lemma_install_row_none_of(s2, s1.pairs, n, ridx, gone);
    lemma_sort_pairs_same_pairs(a);
    let sorted = sort_pairs(a);
    let r = s.add_local(c);
    assert forall|k: int| 0 <= k < r.pairs.len() implies (#[trigger] r.pairs[k]).local_idx
        != i by {
        assert(r.pairs[k] == sorted[k]);
        assert(a.contains(sorted[k]));
        let w = choose|w: int| 0 <= w < a.len() && a[w] == sorted[k];
        assert(a[w].local_idx != gone);
    }
    assert forall|k: int|
        0 <= k < s.pairs.len() && s.pairs[k].local_idx != i implies s1.pairs.contains(
        #[trigger] s.pairs[k],
    ) by {
        assert(not_of_local(gone)(s.pairs[k]));
    }
}

} // verus!
