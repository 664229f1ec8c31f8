//! The checklist holds at most one pair for each local base and remote
//! address.

use vstd::prelude::*;
use crate::addr::SocketAddr;
use crate::candidate::CandidateView;
use crate::checklist::{
    capped,
    insert_pos,
    lemma_insert_pos,
    lemma_sort_pairs_same_pairs,
    sort_pairs,
};
use crate::laws::{
    lemma_client_response_wf,
    lemma_discard_local_wf,
    lemma_drop_stale,
    lemma_server_request_wf,
    lemma_wf_parts,
    pairs_ok,
    stale_count,
};
use crate::model::{
    AgentView,
    DatagramView,
    drop_stale,
    EventView,
    IceConnectionState,
    install,
    matching_idxs,
    not_of_local,
    pair_of,
    pairs_unique,
    possible_at,
    redundant,
    redundant_with,
    RequestView,
    same_addr_base,
    same_addr_base_raddr,
    temp_prflx_like,
};
use crate::pair::PairView;
use crate::seqs::{first_index, keep, lemma_first_index, lemma_keep};
use crate::stun::TransId;
use crate::time::Instant;

verus! {

/// The bases of the first list's candidates are those of the second
/// list's candidates at the same places.
pub open spec fn same_bases(before: Seq<CandidateView>, after: Seq<CandidateView>) -> bool {
    &&& before.len() <= after.len()
    &&& forall|j: int| 0 <= j < before.len() ==> (#[trigger] after[j]).base() == before[j].base()
}

/// The addresses of the first list's candidates are those of the second
/// list's candidates at the same places.
pub open spec fn same_addrs(before: Seq<CandidateView>, after: Seq<CandidateView>) -> bool {
    &&& before.len() <= after.len()
    &&& forall|j: int| 0 <= j < before.len() ==> (#[trigger] after[j]).addr == before[j].addr
}

/// Whether two pairs are redundant depends on the bases of the local and
/// the addresses of the remote candidates only.
pub proof fn lemma_unique_frame(
    locals: Seq<CandidateView>,
    remotes: Seq<CandidateView>,
    locals2: Seq<CandidateView>,
    remotes2: Seq<CandidateView>,
    pairs: Seq<PairView>,
)
    requires
        pairs_ok(pairs, locals.len() as int, remotes.len() as int),
        same_bases(locals, locals2),
        same_addrs(remotes, remotes2),
        pairs_unique(locals, remotes, pairs),
    ensures
        pairs_unique(locals2, remotes2, pairs),
{
    assert forall|i: int, j: int| 0 <= i < j < pairs.len() implies !redundant(
        locals2,
        remotes2,
        pairs[i],
        pairs[j],
    ) by {
        assert(!redundant(locals, remotes, pairs[i], pairs[j]));
        assert(pairs[i].local_idx < locals.len() && pairs[j].local_idx < locals.len());
        assert(locals2[pairs[i].local_idx as int].base() == locals[pairs[i].local_idx as int].base());
        assert(locals2[pairs[j].local_idx as int].base() == locals[pairs[j].local_idx as int].base());
        assert(remotes2[pairs[i].remote_idx as int].addr
            == remotes[pairs[i].remote_idx as int].addr);
        assert(remotes2[pairs[j].remote_idx as int].addr
            == remotes[pairs[j].remote_idx as int].addr);
    }
}

/// Offering a pair to a checklist without redundant pairs leaves it
/// without redundant pairs.
pub proof fn lemma_install_unique(
    locals: Seq<CandidateView>,
    remotes: Seq<CandidateView>,
    pairs: Seq<PairView>,
    p: PairView,
)
    requires
        pairs_unique(locals, remotes, pairs),
    ensures
        pairs_unique(locals, remotes, install(locals, remotes, pairs, p)),
{
    let f = redundant_with(locals, remotes, p);
    lemma_first_index(pairs, f);
    let k = first_index(pairs, f);
    let r = install(locals, remotes, pairs, p);
    assert forall|i: int, j: int| 0 <= i < j < r.len() implies !redundant(
        locals,
        remotes,
        r[i],
        r[j],
    ) by {
        if k < pairs.len() {
            assert(f(pairs[k]));
            if pairs[k].prio >= p.prio {
                assert(!redundant(locals, remotes, pairs[i], pairs[j]));
            } else {
                if i == k {
                    assert(!redundant(locals, remotes, pairs[k], pairs[j]));
                } else if j == k {
                    assert(!redundant(locals, remotes, pairs[i], pairs[k]));
                } else {
                    assert(!redundant(locals, remotes, pairs[i], pairs[j]));
                }
            }
        } else {
            if j < pairs.len() {
                assert(!redundant(locals, remotes, pairs[i], pairs[j]));
            } else {
                assert(!f(pairs[i]));
            }
        }
    }
}

/// Offering the pairs of one local candidate leaves the checklist without
/// redundant pairs.
pub proof fn lemma_install_row_unique(
    s: AgentView,
    pairs: Seq<PairView>,
    li: usize,
    remote_idxs: Seq<usize>,
)
    requires
        pairs_unique(s.locals, s.remotes, pairs),
    ensures
        pairs_unique(s.locals, s.remotes, s.install_row(pairs, li, remote_idxs)),
    decreases remote_idxs.len(),
{
    if remote_idxs.len() > 0 {
        lemma_install_row_unique(s, pairs, li, remote_idxs.drop_last());
        lemma_install_unique(
            s.locals,
            s.remotes,
            s.install_row(pairs, li, remote_idxs.drop_last()),
            s.new_pair(li, remote_idxs.last()),
        );
    }
}

/// Offering the pairs of several local candidates leaves the checklist
/// without redundant pairs.
pub proof fn lemma_install_all_unique(
    s: AgentView,
    pairs: Seq<PairView>,
    local_idxs: Seq<usize>,
    remote_idxs: Seq<usize>,
)
    requires
        pairs_unique(s.locals, s.remotes, pairs),
    ensures
        pairs_unique(s.locals, s.remotes, s.install_all(pairs, local_idxs, remote_idxs)),
    decreases local_idxs.len(),
{
    if local_idxs.len() > 0 {
        lemma_install_all_unique(s, pairs, local_idxs.drop_last(), remote_idxs);
        lemma_install_row_unique(
            s,
            s.install_all(pairs, local_idxs.drop_last(), remote_idxs),
            local_idxs.last(),
            remote_idxs,
        );
    }
}

/// Putting a pair that is redundant with none into a checklist without
/// redundant pairs leaves it without redundant pairs.
pub proof fn lemma_insert_unique(
    locals: Seq<CandidateView>,
    remotes: Seq<CandidateView>,
    t: Seq<PairView>,
    x: PairView,
    k: int,
)
    requires
        0 <= k <= t.len(),
        pairs_unique(locals, remotes, t),
        forall|i: int| 0 <= i < t.len() ==> !redundant(locals, remotes, #[trigger] t[i], x),
    ensures
        pairs_unique(locals, remotes, t.insert(k, x)),
{
    let r = t.insert(k, x);
    assert forall|i: int, j: int| 0 <= i < j < r.len() implies !redundant(
        locals,
        remotes,
        r[i],
        r[j],
    ) by {
        let a = if i < k { i } else { i - 1 };
        let b = if j < k { j } else { j - 1 };
        if i == k {
            assert(r[j] == t[b]);
            assert(!redundant(locals, remotes, t[b], x));
        } else if j == k {
            assert(r[i] == t[a]);
            assert(!redundant(locals, remotes, t[a], x));
        } else {
            assert(r[i] == t[a] && r[j] == t[b]);
            assert(!redundant(locals, remotes, t[a], t[b]));
        }
    }
}

/// Sorting a checklist without redundant pairs leaves it without
/// redundant pairs.
pub proof fn lemma_sort_unique(
    locals: Seq<CandidateView>,
    remotes: Seq<CandidateView>,
    s: Seq<PairView>,
)
    requires
        pairs_unique(locals, remotes, s),
    ensures
        pairs_unique(locals, remotes, sort_pairs(s)),
    decreases s.len(),
{
    if s.len() > 0 {
        let init = s.drop_last();
        assert(pairs_unique(locals, remotes, init)) by {
            assert forall|i: int, j: int| 0 <= i < j < init.len() implies !redundant(
                locals,
                remotes,
                init[i],
                init[j],
            ) by {
                assert(!redundant(locals, remotes, s[i], s[j]));
            }
        }
        lemma_sort_unique(locals, remotes, init);
        let t = sort_pairs(init);
        lemma_sort_pairs_same_pairs(init);
        lemma_insert_pos(t, s.last().prio);
        assert forall|i: int| 0 <= i < t.len() implies !redundant(
            locals,
            remotes,
            #[trigger] t[i],
            s.last(),
        ) by {
            assert(init.contains(t[i]));
            let w = choose|w: int| 0 <= w < init.len() && init[w] == t[i];
            assert(!redundant(locals, remotes, s[w], s[s.len() - 1]));
        }
        lemma_insert_unique(locals, remotes, t, s.last(), insert_pos(t, s.last().prio));
    }
}

/// Keeping some pairs of a checklist without redundant pairs, or its
/// first pairs, leaves it without redundant pairs.
pub proof fn lemma_keep_unique(
    locals: Seq<CandidateView>,
    remotes: Seq<CandidateView>,
    s: Seq<PairView>,
    f: spec_fn(PairView) -> bool,
    max: int,
)
    requires
        pairs_unique(locals, remotes, s),
    ensures
        pairs_unique(locals, remotes, keep(s, f)),
        pairs_unique(locals, remotes, capped(s, max)),
{
    lemma_keep(s, f);
    let r = keep(s, f);
    assert forall|i: int, j: int| 0 <= i < j < r.len() implies !redundant(
        locals,
        remotes,
        r[i],
        r[j],
    ) by {
        let (w, x) = choose|w: int, x: int|
            0 <= w < x < s.len() && s[w] == r[i] && s[x] == r[j];
        assert(!redundant(locals, remotes, s[w], s[x]));
    }
    let c = capped(s, max);
    assert forall|i: int, j: int| 0 <= i < j < c.len() implies !redundant(
        locals,
        remotes,
        c[i],
        c[j],
    ) by {
        assert(!redundant(locals, remotes, s[i], s[j]));
    }
}

/// Forming pairs leaves a checklist without redundant pairs so.
pub proof fn lemma_form_pairs_unique(s: AgentView, local_idxs: Seq<usize>, remote_idxs: Seq<usize>)
    requires
        s.checklist_unique(),
    ensures
        s.form_pairs(local_idxs, remote_idxs).checklist_unique(),
{
    lemma_install_all_unique(s, s.pairs, local_idxs, remote_idxs);
    let a = s.install_all(s.pairs, local_idxs, remote_idxs);
    lemma_sort_unique(s.locals, s.remotes, a);
    lemma_keep_unique(s.locals, s.remotes, sort_pairs(a), not_of_local(0), s.max_pairs());
}

/// Discarding a local candidate leaves a checklist without redundant
/// pairs so.
pub proof fn lemma_discard_local_unique(s: AgentView, idx: int)
    requires
        s.orderly(),
        0 <= idx < s.locals.len(),
        s.checklist_unique(),
    ensures
        s.discard_local(idx).checklist_unique(),
{
    let r = s.discard_local(idx);
    lemma_wf_parts(s);
    assert(same_bases(s.locals, r.locals));
    assert(same_addrs(s.remotes, r.remotes));
    lemma_unique_frame(s.locals, s.remotes, r.locals, r.remotes, s.pairs);
    lemma_keep_unique(r.locals, r.remotes, s.pairs, not_of_local(idx as usize), 0);
}

/// Adding a local candidate leaves a checklist without redundant pairs
/// so.
pub proof fn lemma_add_local_unique(s: AgentView, c: CandidateView)
    requires
        s.orderly(),
    ensures
        s.checklist_unique() ==> s.add_local(c).checklist_unique(),
{
    if s.checklist_unique() && !s.refuses_local(c) {
        let c1 = s.with_preference(c);
        let f = same_addr_base(c1.addr, c1.base());
        let i = first_index(s.locals, f);
        lemma_first_index(s.locals, f);
        let s1 = if i < s.locals.len() {
            s.discard_local(i)
        } else {
            s
        };
        if i < s.locals.len() {
            lemma_discard_local_wf(s, i);
            lemma_discard_local_unique(s, i);
        }
        let s2 = AgentView {
            events: s1.events.push(EventView::NewLocalCandidate(c1)),
            locals: s1.locals.push(c1),
            ..s1
        };
        lemma_wf_parts(s1);
        assert(same_bases(s1.locals, s2.locals));
        assert(same_addrs(s1.remotes, s2.remotes));
        lemma_unique_frame(s1.locals, s1.remotes, s2.locals, s2.remotes, s1.pairs);
        lemma_form_pairs_unique(
            s2,
            seq![s.locals.len() as usize],
            matching_idxs(s2.remotes, c1.addr.spec_is_ipv4()),
        );
    }
}

/// Adding a remote candidate leaves a checklist without redundant pairs
/// so.
pub proof fn lemma_add_remote_unique(s: AgentView, c: CandidateView)
    requires
        s.orderly(),
    ensures
        s.checklist_unique() ==> s.add_remote(c).checklist_unique(),
{
    if s.checklist_unique() && c.component_id == 1 {
        let f = temp_prflx_like(c.addr, c.prio());
        let e = first_index(s.remotes, f);
        lemma_first_index(s.remotes, f);
        let s1 = AgentView {
            remotes: if e < s.remotes.len() {
                s.remotes.update(e, c)
            } else {
                s.remotes.push(c)
            },
            ..s
        };
        lemma_wf_parts(s);
        if e < s.remotes.len() {
            assert(f(s.remotes[e]));
        }
        assert(same_bases(s.locals, s1.locals));
        assert(same_addrs(s.remotes, s1.remotes));
        lemma_unique_frame(s.locals, s.remotes, s1.locals, s1.remotes, s.pairs);
        lemma_form_pairs_unique(
            s1,
            matching_idxs(s1.locals, c.addr.spec_is_ipv4()),
            seq![e as usize],
        );
    }
}

/// Invalidating a candidate leaves a checklist without redundant pairs
/// so.
pub proof fn lemma_invalidate_unique(s: AgentView, c: CandidateView)
    requires
        s.orderly(),
    ensures
        s.checklist_unique() ==> s.invalidate(c).checklist_unique(),
{
    if s.checklist_unique() && s.invalidates(c) {
        let f = same_addr_base_raddr(c.addr, c.base(), c.raddr);
        lemma_first_index(s.locals, f);
        lemma_discard_local_unique(s, first_index(s.locals, f));
    }
}


/// Replacing pairs by pairs of the same candidates leaves a checklist
/// without redundant pairs so.
pub proof fn lemma_same_candidates_unique(
    locals: Seq<CandidateView>,
    remotes: Seq<CandidateView>,
    before: Seq<PairView>,
    after: Seq<PairView>,
)
    requires
        pairs_unique(locals, remotes, before),
        before.len() == after.len(),
        forall|i: int|
            0 <= i < before.len() ==> (#[trigger] after[i]).local_idx == before[i].local_idx
                && after[i].remote_idx == before[i].remote_idx,
    ensures
        pairs_unique(locals, remotes, after),
{
    assert forall|i: int, j: int| 0 <= i < j < after.len() implies !redundant(
        locals,
        remotes,
        after[i],
        after[j],
    ) by {
        assert(!redundant(locals, remotes, before[i], before[j]));
        assert(after[i].local_idx == before[i].local_idx);
        assert(after[j].local_idx == before[j].local_idx);
    }
}

/// Answering a Binding request leaves a checklist without redundant pairs
/// so, and a checklist within its size within it.
pub proof fn lemma_server_request_unique(s: AgentView, now: Instant, req: RequestView)
    requires
        s.orderly(),
        s.answers(req) ==> s.is_local_socket(req.destination),
    ensures
        s.checklist_unique() ==> s.server_request(now, req).checklist_unique(),
        s.within_cap() ==> s.server_request(now, req).within_cap(),
{
    lemma_server_request_wf(s, now, req);
    if s.answers(req) {
        let remotes = s.remotes_after(req);
        let wanted = s.request_pair(req);
        let f = pair_of(wanted.local_idx, wanted.remote_idx);
        let found = first_index(s.pairs, f);
        lemma_first_index(s.pairs, f);
        let pairs1 = s.pairs_after(req);
        let installed = install(s.locals, remotes, s.pairs, wanted);
        lemma_first_index(pairs1, redundant_with(s.locals, remotes, wanted));
        let r = s.server_request(now, req);
        assert(r.pairs.len() == pairs1.len());
        if s.checklist_unique() {
            lemma_wf_parts(s);
            assert(same_bases(s.locals, s.locals));
            assert(same_addrs(s.remotes, remotes));
            lemma_unique_frame(s.locals, s.remotes, s.locals, remotes, s.pairs);
            if found >= s.pairs.len() {
                lemma_install_unique(s.locals, remotes, s.pairs, wanted);
                lemma_sort_unique(s.locals, remotes, installed);
                lemma_keep_unique(
                    s.locals,
                    remotes,
                    sort_pairs(installed),
                    not_of_local(0),
                    s.max_pairs(),
                );
            }
            assert forall|i: int| 0 <= i < pairs1.len() implies (#[trigger] r.pairs[i]).local_idx
                == pairs1[i].local_idx && r.pairs[i].remote_idx == pairs1[i].remote_idx by {}
            lemma_same_candidates_unique(s.locals, remotes, pairs1, r.pairs);
        }
    }
}

/// Recording a response leaves a checklist without redundant pairs so.
pub proof fn lemma_client_response_unique(
    s: AgentView,
    now: Instant,
    id: TransId,
    mapped: SocketAddr,
)
    requires
        s.orderly(),
    ensures
        s.checklist_unique() ==> s.client_response(now, id, mapped).checklist_unique(),
{
    lemma_client_response_wf(s, now, id, mapped);
    let r = s.client_response(now, id, mapped);
    if s.checklist_unique() {
        lemma_wf_parts(s);
        assert(same_bases(s.locals, r.locals));
        assert(same_addrs(s.remotes, r.remotes));
        lemma_unique_frame(s.locals, s.remotes, r.locals, r.remotes, s.pairs);
        assert forall|i: int| 0 <= i < s.pairs.len() implies (#[trigger] r.pairs[i]).local_idx
            == s.pairs[i].local_idx && r.pairs[i].remote_idx == s.pairs[i].remote_idx by {}
        lemma_same_candidates_unique(r.locals, r.remotes, s.pairs, r.pairs);
    }
}

/// Receiving a datagram leaves a checklist without redundant pairs so,
/// and a checklist within its size within it.
pub proof fn lemma_receive_unique(
    s: AgentView,
    now: Instant,
    source: SocketAddr,
    destination: SocketAddr,
    contents: DatagramView,
)
    requires
        s.orderly(),
        s.answerable(s.received_request(now, source, destination, contents)),
    ensures
        s.checklist_unique() ==> s.receive(now, source, destination, contents).checklist_unique(),
        s.within_cap() ==> s.receive(now, source, destination, contents).within_cap(),
{
    match contents {
        DatagramView::Other(_) => {},
        DatagramView::Stun(m) => {
            if !s.accepts(m) {
            } else if m.class is Request {
                match AgentView::request_of(now, source, destination, m) {
                    None => {},
                    Some(req) => {
                        if s.remote is Some {
                            lemma_server_request_unique(s, now, req);
                        }
                    },
                }
            } else if m.class is Success && m.mapped_address is Some {
                lemma_client_response_wf(s, now, m.trans_id, m.mapped_address->0);
                lemma_client_response_unique(s, now, m.trans_id, m.mapped_address->0);
            }
        },
    }
}

/// Nominating leaves the size of the checklist as it is, and a checklist
/// without redundant pairs so.
pub proof fn lemma_nominate_unique(s: AgentView)
    ensures
        s.nominate_best().pairs.len() == s.pairs.len(),
        s.checklist_unique() ==> s.nominate_best().checklist_unique(),
{
    crate::laws::lemma_best_index(s.pairs);
    let r = s.nominate_best();
    if s.checklist_unique() {
        assert forall|i: int| 0 <= i < s.pairs.len() implies (#[trigger] r.pairs[i]).local_idx
            == s.pairs[i].local_idx && r.pairs[i].remote_idx == s.pairs[i].remote_idx by {}
        lemma_same_candidates_unique(s.locals, s.remotes, s.pairs, r.pairs);
    }
}

/// Dropping the failed pairs and sending the request that is due does
/// not make the checklist longer, and leaves a checklist without redundant
/// pairs so.
pub proof fn lemma_sweep_unique(s: AgentView, now: Instant, id: TransId)
    requires
        s.orderly(),
    ensures
        s.sweep_and_probe(now, id).pairs.len() <= s.pairs.len(),
        s.checklist_unique() ==> s.sweep_and_probe(now, id).checklist_unique(),
{
    crate::laws::lemma_sweep_and_probe_wf(s, now, id);
    let kept = keep(s.pairs, possible_at(now));
    let r = s.sweep_and_probe(now, id);
    if s.checklist_unique() {
        lemma_keep_unique(s.locals, s.remotes, s.pairs, possible_at(now), 0);
        assert(r.pairs.len() == kept.len());
        assert forall|i: int| 0 <= i < kept.len() implies (#[trigger] r.pairs[i]).local_idx
            == kept[i].local_idx && r.pairs[i].remote_idx == kept[i].remote_idx by {}
        lemma_same_candidates_unique(s.locals, s.remotes, kept, r.pairs);
    }
}

/// A round of work leaves a checklist without redundant pairs so, and a
/// checklist within its size within it.
pub proof fn lemma_work_unique(s: AgentView, now: Instant, id: TransId)
    requires
        s.orderly(),
        s.answerable(s.queued_request(now)),
    ensures
        s.checklist_unique() ==> s.work(now, id).checklist_unique(),
        s.within_cap() ==> s.work(now, id).within_cap(),
{
    let s1 = AgentView { last_now: Some(now), ..s };
    lemma_drop_stale(s1.queue, now);
    let n = stale_count(s1.queue, now);
    let q = drop_stale(s1.queue, now);
    assert(q =~= s1.queue.skip(n));
    if s1.remote is Some && q.len() > 0 {
        let s1b = AgentView { queue: q.drop_first(), ..s1 };
        assert(s1b.orderly());
        assert(s.queued_request(now) == Some(q[0]));
        assert(s1b.answers(q[0]) == s.answers(q[0]));
        assert(s1b.is_local_socket(q[0].destination) == s.is_local_socket(q[0].destination));
        lemma_server_request_unique(s1b, now, q[0]);
    } else {
        let s2 = AgentView { queue: q, ..s1 };
        assert(s2.orderly());
        if s2.nomination_at matches Some(t) && now.micros >= t.micros {
            lemma_nominate_unique(AgentView { nomination_at: None, ..s2 });
        } else {
            lemma_sweep_unique(s2, now, id);
        }
    }
}

/// A tick leaves a checklist without redundant pairs so, and a checklist
/// within its size within it.
pub proof fn lemma_timeout_unique(s: AgentView, now: Instant, id: TransId)
    requires
        s.orderly(),
        s.answerable(s.due_request(now)),
    ensures
        s.checklist_unique() ==> s.timeout(now, id).checklist_unique(),
        s.within_cap() ==> s.timeout(now, id).within_cap(),
{
    let s0 = if s.state is New {
        s.with_state(IceConnectionState::Checking)
    } else {
        s
    };
    assert(s0.orderly());
    if !s0.paced_out(now) {
        assert(s0.queued_request(now) == s.queued_request(now));
        match s.queued_request(now) {
            Some(req) => {
                assert(s0.answers(req) == s.answers(req));
                assert(s0.is_local_socket(req.destination) == s.is_local_socket(req.destination));
            },
            None => {},
        }
        lemma_work_unique(s0, now, id);
    }
}

/// Asking for the next tick leaves a checklist without redundant pairs
/// so, and its size as it is.
pub proof fn lemma_poll_timeout_unique(s: AgentView)
    ensures
        s.after_poll_timeout().pairs.len() == s.pairs.len(),
        s.checklist_unique() ==> s.after_poll_timeout().checklist_unique(),
{
    let r = s.after_poll_timeout();
    if s.checklist_unique() && s.last_now is Some {
        assert forall|i: int| 0 <= i < s.pairs.len() implies (#[trigger] r.pairs[i]).local_idx
            == s.pairs[i].local_idx && r.pairs[i].remote_idx == s.pairs[i].remote_idx by {}
        lemma_same_candidates_unique(s.locals, s.remotes, s.pairs, r.pairs);
    }
}

} // verus!
