//! What holds of the agent at all times is kept by everything that is
//! done with it.

use vstd::prelude::*;
use crate::addr::SocketAddr;
use crate::candidate::{CandidateKind, CandidateView};
use crate::checklist::capped;
use crate::laws::{
    grown,
    lemma_add_local_wf,
    lemma_add_remote_wf,
    lemma_after_poll_timeout_wf,
    lemma_capped_wf,
    lemma_count_same_discarded,
    lemma_discard_local_wf,
    lemma_invalidate_wf,
    lemma_receive_wf,
    lemma_remote_wf,
    lemma_timeout_wf,
    lemma_wf_frame,
    locals_kept,
};
use crate::model::{
    AgentView,
    count_same,
    CredsView,
    DatagramView,
    MAX_UFRAG_LEN,
    next_preference,
    not_of_local,
    PREFERENCES_PER_FAMILY,
    prefs_assigned,
    prefs_unique,
    same_addr_base,
    same_addr_base_raddr,
};
use crate::seqs::{first_index, lemma_first_index};
use crate::stun::TransId;
use crate::time::Instant;
use crate::unique::{
    lemma_add_local_unique,
    lemma_add_remote_unique,
    lemma_invalidate_unique,
    lemma_keep_unique,
    lemma_poll_timeout_unique,
    lemma_receive_unique,
    lemma_timeout_unique,
};

verus! {

/// Among more candidates there are no fewer of a kind and address family.
pub proof fn lemma_count_same_grows(
    locals: Seq<CandidateView>,
    a: int,
    b: int,
    kind: CandidateKind,
    ipv6: bool,
)
    requires
        0 <= a <= b <= locals.len(),
    ensures
        count_same(locals.take(a), kind, ipv6) <= count_same(locals.take(b), kind, ipv6),
        a < b && locals[a].kind == kind && locals[a].addr.spec_is_ipv6() == ipv6 ==> count_same(
            locals.take(a),
            kind,
            ipv6,
        ) < count_same(locals.take(b), kind, ipv6),
    decreases b - a,
{
    if a < b {
        lemma_count_same_grows(locals, a, b - 1, kind, ipv6);
        let t = locals.take(b);
        assert(t.drop_last() =~= locals.take(b - 1));
        assert(t.last() == locals[b - 1]);
    }
}

/// Where each assigned local preference is the one of its place, no two
/// candidates of one kind and address family share a local preference.
pub proof fn lemma_prefs_unique(locals: Seq<CandidateView>)
    requires
        prefs_assigned(locals),
    ensures
        prefs_unique(locals),
{
    assert forall|i: int, j: int|
        0 <= i < j < locals.len() && locals[i].kind == locals[j].kind
            && locals[i].addr.spec_is_ipv6() == locals[j].addr.spec_is_ipv6()
            && locals[i].local_preference is Some
            && locals[j].local_preference is Some implies locals[i].local_preference
        != locals[j].local_preference by {
        let kind = locals[i].kind;
        let ipv6 = locals[i].addr.spec_is_ipv6();
        lemma_count_same_grows(locals, i, j, kind, ipv6);
        assert(locals[i].local_preference->0 == next_preference(locals.take(i), kind, ipv6));
        assert(locals[j].local_preference->0 == next_preference(locals.take(j), kind, ipv6));
    }
}

/// Candidates that stay, and new ones without a local preference, keep
/// each assigned local preference the one of its place.
pub proof fn lemma_prefs_kept(before: Seq<CandidateView>, after: Seq<CandidateView>)
    requires
        prefs_assigned(before),
        locals_kept(before, after),
    ensures
        prefs_assigned(after),
        prefs_unique(after),
{
    assert forall|j: int| 0 <= j < after.len() implies ((
    #[trigger] after[j]).local_preference matches Some(p) ==> {
        &&& count_same(after.take(j), after[j].kind, after[j].addr.spec_is_ipv6())
            < PREFERENCES_PER_FAMILY
        &&& p == next_preference(after.take(j), after[j].kind, after[j].addr.spec_is_ipv6())
    }) by {
        if j < before.len() {
            assert(after[j] == (CandidateView { discarded: after[j].discarded, ..before[j] }));
            let b = before.take(j);
            let a = after.take(j);
            assert forall|k: int| 0 <= k < b.len() implies (#[trigger] a[k]) == (CandidateView {
                discarded: a[k].discarded,
                ..b[k]
            }) by {
                assert(after[k] == (CandidateView { discarded: after[k].discarded, ..before[k] }));
            }
            lemma_count_same_discarded(b, a, before[j].kind, before[j].addr.spec_is_ipv6());
            assert(before[j].local_preference == after[j].local_preference);
        }
    }
    lemma_prefs_unique(after);
}

/// Adding a local candidate keeps each assigned local preference the one
/// of its place: the new candidate gets the next one of its kind and
/// address family, and the others keep theirs.
pub proof fn lemma_add_local_prefs(s: AgentView, c: CandidateView)
    requires
        s.orderly(),
        prefs_assigned(s.locals),
    ensures
        prefs_assigned(s.add_local(c).locals),
        prefs_unique(s.add_local(c).locals),
{
    if s.refuses_local(c) {
        lemma_prefs_unique(s.locals);
    } else {
        let ipv6 = c.addr.spec_is_ipv6();
        let c1 = s.with_preference(c);
        let f = same_addr_base(c1.addr, c1.base());
        let i = first_index(s.locals, f);
        lemma_first_index(s.locals, f);
        let before = if i < s.locals.len() {
            s.discard_local(i).locals
        } else {
            s.locals
        };
        if i < s.locals.len() {
            lemma_discard_local_wf(s, i);
        }
        assert(grown(s.locals, before));
        assert(locals_kept(s.locals, before));
        lemma_prefs_kept(s.locals, before);
        let after = s.add_local(c).locals;
        assert(after == before.push(c1));
        let n = before.len() as int;
        lemma_count_same_discarded(s.locals, before, c.kind, ipv6);
        assert forall|j: int| 0 <= j < after.len() implies ((
        #[trigger] after[j]).local_preference matches Some(p) ==> {
            &&& count_same(after.take(j), after[j].kind, after[j].addr.spec_is_ipv6())
                < PREFERENCES_PER_FAMILY
            &&& p == next_preference(after.take(j), after[j].kind, after[j].addr.spec_is_ipv6())
        }) by {
            if j < n {
                assert(after[j] == before[j]);
                assert(after.take(j) =~= before.take(j));
            } else {
                assert(after[j] == c1);
                assert(after.take(j) =~= before);
                assert(0 <= next_preference(s.locals, c.kind, ipv6) <= 65535);
            }
        }
        lemma_prefs_unique(after);
    }
}

/// Adding a local candidate keeps what holds of the agent at all times.
pub proof fn lemma_add_local_consistent(s: AgentView, c: CandidateView)
    requires
        s.consistent(),
    ensures
        s.add_local(c).consistent(),
{
    lemma_add_local_wf(s, c);
    lemma_add_local_unique(s, c);
    lemma_add_local_prefs(s, c);
}

/// Adding a remote candidate keeps what holds of the agent at all times.
pub proof fn lemma_add_remote_consistent(s: AgentView, c: CandidateView)
    requires
        s.consistent(),
    ensures
        s.add_remote(c).consistent(),
{
    lemma_add_remote_wf(s, c);
    lemma_add_remote_unique(s, c);
    assert(s.add_remote(c).locals == s.locals);
}

/// Invalidating a candidate keeps what holds of the agent at all times.
pub proof fn lemma_invalidate_consistent(s: AgentView, c: CandidateView)
    requires
        s.consistent(),
    ensures
        s.invalidate(c).consistent(),
{
    lemma_invalidate_wf(s, c);
    lemma_invalidate_unique(s, c);
    if s.invalidates(c) {
        let f = same_addr_base_raddr(c.addr, c.base(), c.raddr);
        lemma_first_index(s.locals, f);
        lemma_discard_local_wf(s, first_index(s.locals, f));
    }
    assert(locals_kept(s.locals, s.invalidate(c).locals));
    lemma_prefs_kept(s.locals, s.invalidate(c).locals);
}

/// Receiving a datagram keeps what holds of the agent at all times.
pub proof fn lemma_receive_consistent(
    s: AgentView,
    now: Instant,
    source: SocketAddr,
    destination: SocketAddr,
    contents: DatagramView,
)
    requires
        s.consistent(),
        s.answerable(s.received_request(now, source, destination, contents)),
    ensures
        s.receive(now, source, destination, contents).consistent(),
{
    lemma_receive_wf(s, now, source, destination, contents);
    lemma_receive_unique(s, now, source, destination, contents);
    lemma_prefs_kept(s.locals, s.receive(now, source, destination, contents).locals);
}

/// A tick keeps what holds of the agent at all times.
pub proof fn lemma_timeout_consistent(s: AgentView, now: Instant, id: TransId)
    requires
        s.consistent(),
        s.answerable(s.due_request(now)),
    ensures
        s.timeout(now, id).consistent(),
{
    lemma_timeout_wf(s, now, id);
    lemma_timeout_unique(s, now, id);
}

/// Asking for the next tick keeps what holds of the agent at all times.
pub proof fn lemma_poll_timeout_consistent(s: AgentView)
    requires
        s.consistent(),
    ensures
        s.after_poll_timeout().consistent(),
{
    lemma_after_poll_timeout_wf(s);
    lemma_poll_timeout_unique(s);
    assert(s.after_poll_timeout().locals == s.locals);
}

/// Cutting the checklist to a new size keeps what holds of the agent at
/// all times.
pub proof fn lemma_capped_consistent(s: AgentView, max: usize)
    requires
        s.consistent(),
    ensures
        (AgentView {
            max_candidate_pairs: Some(max),
            pairs: capped(s.pairs, max as int),
            ..s
        }).consistent(),
{
    lemma_capped_wf(s, max as int);
    lemma_keep_unique(s.locals, s.remotes, s.pairs, not_of_local(0), max as int);
    let r = AgentView { pairs: capped(s.pairs, max as int), ..s };
    lemma_wf_frame(r, AgentView { max_candidate_pairs: Some(max), ..r });
}

/// What holds of the agent at all times speaks of its credentials,
/// candidates, checklist, queue and the size of the checklist only.
pub proof fn lemma_consistent_frame(s: AgentView, r: AgentView)
    requires
        s.consistent(),
        r.local == s.local,
        r.remote == s.remote,
        r.locals == s.locals,
        r.remotes == s.remotes,
        r.pairs == s.pairs,
        r.queue == s.queue,
        r.max_candidate_pairs == s.max_candidate_pairs,
    ensures
        r.consistent(),
{
    lemma_wf_frame(s, r);
}

/// Setting remote credentials with a username fragment of at most 256
/// bytes keeps what holds of the agent at all times.
pub proof fn lemma_remote_consistent(s: AgentView, r: CredsView)
    requires
        s.consistent(),
        r.ufrag.len() <= MAX_UFRAG_LEN,
    ensures
        (AgentView { remote: Some(r), ..s }).consistent(),
{
    lemma_remote_wf(s, r);
}

} // verus!
