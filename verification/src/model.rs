//! The agent as a mathematical state machine: what it holds, and what each
//! operation makes of it.

use vstd::prelude::*;
use crate::addr::SocketAddr;
use crate::candidate::{CandidateKind, CandidateView, temp_foundation};
use crate::checklist::{capped, is_sorted, sort_pairs};
use crate::pair::{pair_prio, PairView};
use crate::seqs::{first_index, keep};
use crate::stun::{STUN_TIMEOUT_MICROS, StunMessageView, TransId};
use crate::time::{Duration, Instant, spec_smallest};
use crate::wire::{integrity_verifies, serialized, split_username};

verus! {

/// The timing advance Ta in microseconds (50 ms): the least time between
/// two rounds of work.
pub const TIMING_ADVANCE_MICROS: u64 = 50_000;

/// The size of the buffer that an outgoing datagram is written into.
pub const DATAGRAM_MTU: usize = 1150;

/// How many Binding requests wait at most for the remote credentials.
pub const MAX_QUEUED_REQUESTS: usize = 100;

/// How many candidate pairs the checklist holds at most, unless configured.
pub const DEFAULT_MAX_CANDIDATE_PAIRS: usize = 100;

/// The longest username fragment, in bytes.
pub const MAX_UFRAG_LEN: usize = 256;

/// How many local candidates of one kind and address family can be given
/// a local preference.
pub const PREFERENCES_PER_FAMILY: usize = 8192;

/// The state of the connection.
#[derive(Debug, Clone, Copy, PartialEq, Eq, Structural, Hash)]
pub enum IceConnectionState {
    /// The agent is gathering addresses.
    New,
    /// The agent is checking pairs of candidates and has found no usable
    /// pair yet.
    Checking,
    /// A usable pair has been found; checks go on.
    Connected,
    /// All pairs have been checked and a working connection is found.
    Completed,
    /// All pairs have been checked and none works.
    Failed,
    /// The connection is lost for now.
    Disconnected,
    /// The agent has shut down.
    Closed,
}

/// A username fragment and a password, as bytes.
pub struct CredsView {
    pub ufrag: Seq<u8>,
    pub pwd: Seq<u8>,
}

/// A Binding request of the peer, kept until it can be answered.
pub struct RequestView {
    pub now: Instant,
    pub source: SocketAddr,
    pub destination: SocketAddr,
    pub trans_id: TransId,
    pub prio: u32,
    pub use_candidate: bool,
    pub remote_username: Seq<u8>,
}

/// A datagram to send.
pub struct TransmitView {
    pub source: SocketAddr,
    pub destination: SocketAddr,
    pub contents: Seq<u8>,
}

/// Something the host is told.
pub enum EventView {
    IceConnectionStateChange(IceConnectionState),
    NewLocalCandidate(CandidateView),
}

/// What comes in with a datagram.
pub enum DatagramView {
    Stun(StunMessageView),
    Other(Seq<u8>),
}

/// What an agent holds.
pub struct AgentView {
    pub last_now: Option<Instant>,
    pub ice_lite: bool,
    pub max_candidate_pairs: Option<usize>,
    pub local: CredsView,
    pub remote: Option<CredsView>,
    pub controlling: bool,
    pub state: IceConnectionState,
    pub locals: Seq<CandidateView>,
    pub remotes: Seq<CandidateView>,
    pub pairs: Seq<PairView>,
    pub transmit: Seq<TransmitView>,
    pub events: Seq<EventView>,
    pub queue: Seq<RequestView>,
    pub nomination_at: Option<Instant>,
}

/// The instant one timing advance after `t`.
pub open spec fn ta_after(t: Instant) -> Instant {
    t.plus(Duration { micros: TIMING_ADVANCE_MICROS })
}

/// How many of `locals` have the kind `kind` and an address of the family
/// that `ipv6` tells.
pub open spec fn count_same(locals: Seq<CandidateView>, kind: CandidateKind, ipv6: bool) -> nat
    decreases locals.len(),
{
    if locals.len() == 0 {
        0
    } else {
        count_same(locals.drop_last(), kind, ipv6) + (if locals.last().kind == kind
            && locals.last().addr.spec_is_ipv6() == ipv6 {
            1nat
        } else {
            0nat
        })
    }
}

/// The local preference of the next local candidate of this kind and
/// family: the kind's counter start, one less for IPv4, two less for each
/// candidate of the kind and family that is there already.
pub open spec fn next_preference(locals: Seq<CandidateView>, kind: CandidateKind, ipv6: bool)
    -> int {
    kind.spec_counter_start() - (if ipv6 { 0int } else { 1int }) - 2 * count_same(
        locals,
        kind,
        ipv6,
    )
}

/// A live candidate with this address and base.
pub open spec fn same_addr_base(addr: SocketAddr, base: SocketAddr) -> spec_fn(
    CandidateView,
) -> bool {
    |v: CandidateView| !v.discarded && v.addr == addr && v.base() == base
}

/// A candidate with this address, base and related address.
pub open spec fn same_addr_base_raddr(
    addr: SocketAddr,
    base: SocketAddr,
    raddr: Option<SocketAddr>,
) -> spec_fn(CandidateView) -> bool {
    |v: CandidateView| v.addr == addr && v.base() == base && v.raddr == raddr
}

/// A live candidate with this address.
pub open spec fn live_with_addr(addr: SocketAddr) -> spec_fn(CandidateView) -> bool {
    |v: CandidateView| !v.discarded && v.addr == addr
}

/// A candidate with this address.
pub open spec fn with_addr(addr: SocketAddr) -> spec_fn(CandidateView) -> bool {
    |v: CandidateView| v.addr == addr
}

/// A host or relayed candidate with this address.
pub open spec fn socket_with_addr(addr: SocketAddr) -> spec_fn(CandidateView) -> bool {
    |v: CandidateView|
        (v.kind is Host || v.kind is Relayed) && v.addr == addr
}

/// A peer-reflexive candidate with the temporary foundation and this
/// address and priority.
pub open spec fn temp_prflx_like(addr: SocketAddr, prio: u32) -> spec_fn(CandidateView) -> bool {
    |v: CandidateView|
        v.foundation() == temp_foundation() && v.addr == addr && v.prio() == prio
            && v.kind is PeerReflexive
}

/// A pair of these two candidates.
pub open spec fn pair_of(local_idx: usize, remote_idx: usize) -> spec_fn(PairView) -> bool {
    |p: PairView| p.local_idx == local_idx && p.remote_idx == remote_idx
}

/// A pair with another local candidate than this.
pub open spec fn not_of_local(local_idx: usize) -> spec_fn(PairView) -> bool {
    |p: PairView| p.local_idx != local_idx
}

/// A pair with an unanswered request of this id.
pub open spec fn awaiting(id: TransId) -> spec_fn(PairView) -> bool {
    |p: PairView| p.has_attempt(id)
}

/// A pair whose check can still succeed at `now`.
pub open spec fn possible_at(now: Instant) -> spec_fn(PairView) -> bool {
    |p: PairView| p.is_still_possible(now)
}

/// The positions of the live candidates of `cands` whose address is of
/// the family that `ipv4` tells, in ascending order.
pub open spec fn matching_idxs(cands: Seq<CandidateView>, ipv4: bool) -> Seq<usize>
    decreases cands.len(),
{
    if cands.len() == 0 {
        Seq::empty()
    } else if !cands.last().discarded && cands.last().addr.spec_is_ipv4() == ipv4 {
        matching_idxs(cands.drop_last(), ipv4).push((cands.len() - 1) as usize)
    } else {
        matching_idxs(cands.drop_last(), ipv4)
    }
}

/// Each local preference that was assigned is the one of its place: the
/// next preference of the candidate's kind and address family after the
/// candidates before it.
pub open spec fn prefs_assigned(locals: Seq<CandidateView>) -> bool {
    forall|j: int|
        0 <= j < locals.len() ==> ((#[trigger] locals[j]).local_preference matches Some(p) ==> {
            &&& count_same(locals.take(j), locals[j].kind, locals[j].addr.spec_is_ipv6())
                < PREFERENCES_PER_FAMILY
            &&& p == next_preference(locals.take(j), locals[j].kind, locals[j].addr.spec_is_ipv6())
        })
}

/// No two candidates of one kind and address family have the same
/// assigned local preference.
pub open spec fn prefs_unique(locals: Seq<CandidateView>) -> bool {
    forall|i: int, j: int|
        0 <= i < j < locals.len() && locals[i].kind == locals[j].kind
            && locals[i].addr.spec_is_ipv6() == locals[j].addr.spec_is_ipv6()
            && locals[i].local_preference is Some && locals[j].local_preference is Some
            ==> locals[i].local_preference != locals[j].local_preference
}

/// No two live candidates have the same address and base.
pub open spec fn locals_unique(locals: Seq<CandidateView>) -> bool {
    forall|i: int, j: int|
        0 <= i < j < locals.len() && !locals[i].discarded && !locals[j].discarded ==> !(
        locals[i].addr == locals[j].addr && locals[i].base() == locals[j].base())
}

/// Whether two pairs are redundant: their local candidates have the same
/// base and their remote candidates the same address.
pub open spec fn redundant(
    locals: Seq<CandidateView>,
    remotes: Seq<CandidateView>,
    a: PairView,
    b: PairView,
) -> bool {
    locals[a.local_idx as int].base() == locals[b.local_idx as int].base()
        && remotes[a.remote_idx as int].addr == remotes[b.remote_idx as int].addr
}

/// A pair that is redundant with `p`.
pub open spec fn redundant_with(
    locals: Seq<CandidateView>,
    remotes: Seq<CandidateView>,
    p: PairView,
) -> spec_fn(PairView) -> bool {
    |q: PairView| redundant(locals, remotes, q, p)
}

/// No two pairs are redundant.
pub open spec fn pairs_unique(
    locals: Seq<CandidateView>,
    remotes: Seq<CandidateView>,
    pairs: Seq<PairView>,
) -> bool {
    forall|i: int, j: int|
        0 <= i < j < pairs.len() ==> !redundant(locals, remotes, pairs[i], pairs[j])
}

/// The checklist after the pair `p` was offered: if a pair is redundant
/// with it, the one of higher priority stays in that place, the one that
/// was there if they are equal; otherwise `p` is added at the end.
pub open spec fn install(
    locals: Seq<CandidateView>,
    remotes: Seq<CandidateView>,
    pairs: Seq<PairView>,
    p: PairView,
) -> Seq<PairView> {
    let i = first_index(pairs, redundant_with(locals, remotes, p));
    if i < pairs.len() {
        if pairs[i].prio >= p.prio {
            pairs
        } else {
            pairs.update(i, p)
        }
    } else {
        pairs.push(p)
    }
}

/// Whether the pair can still be nominated: its check succeeded and the
/// peer has sent a Binding request for it.
pub open spec fn eligible(p: PairView) -> bool {
    p.state is Succeeded && p.remote_binding_requests > 0
}

/// The position of the pair to nominate: of the eligible pairs of the
/// highest priority the last; the number of pairs if none is eligible.
pub open spec fn best_index(pairs: Seq<PairView>) -> int
    decreases pairs.len(),
{
    if pairs.len() == 0 {
        0
    } else {
        let init = pairs.drop_last();
        let b = best_index(init);
        if eligible(pairs.last()) && (b >= init.len() || init[b].prio <= pairs.last().prio) {
            pairs.len() - 1
        } else if b >= init.len() {
            pairs.len() as int
        } else {
            b
        }
    }
}

/// The position of the pair whose next request is due first, of several
/// such the first; zero without pairs.
pub open spec fn earliest_index(pairs: Seq<PairView>, now: Instant) -> int
    decreases pairs.len(),
{
    if pairs.len() <= 1 {
        0
    } else {
        let init = pairs.drop_last();
        let e = earliest_index(init, now);
        if pairs.last().next_attempt_time(now).micros < init[e].next_attempt_time(now).micros {
            pairs.len() - 1
        } else {
            e
        }
    }
}

/// When the next request of any pair is due; none without pairs.
pub open spec fn earliest_attempt(pairs: Seq<PairView>, now: Instant) -> Option<Instant> {
    if pairs.len() == 0 {
        None
    } else {
        Some(pairs[earliest_index(pairs, now)].next_attempt_time(now))
    }
}

/// The queue without the requests at its front that have waited for the
/// STUN timeout or longer at `now`.
pub open spec fn drop_stale(q: Seq<RequestView>, now: Instant) -> Seq<RequestView>
    decreases q.len(),
{
    if q.len() > 0 && now.since(q[0].now).micros >= STUN_TIMEOUT_MICROS {
        drop_stale(q.drop_first(), now)
    } else {
        q
    }
}

/// The queue with `r` at its end, without its oldest requests where it
/// would hold more than a hundred.
pub open spec fn bounded_push(q: Seq<RequestView>, r: RequestView) -> Seq<RequestView> {
    let q2 = q.push(r);
    if q2.len() > MAX_QUEUED_REQUESTS {
        q2.skip(q2.len() - MAX_QUEUED_REQUESTS)
    } else {
        q2
    }
}

/// Each pair after its timeout at `now` was noticed.
pub open spec fn noticed(pairs: Seq<PairView>, now: Instant) -> Seq<PairView> {
    Seq::new(pairs.len(), |i: int| pairs[i].with_timeout_noticed(now))
}

/// The username of an outgoing Binding request: the remote fragment, a
/// colon, the local fragment.
pub open spec fn request_username(remote_ufrag: Seq<u8>, local_ufrag: Seq<u8>) -> Seq<u8> {
    remote_ufrag + seq![0x3au8] + local_ufrag
}

/// The username that stands in for one where none is sent.
pub open spec fn unused_username() -> Seq<u8> {
    "not_used:not_used"@.map_values(|c: char| c as u8)
}

impl AgentView {
    /// The username and password for STUN, once the remote credentials
    /// are known. A request has the remote fragment, a colon and the local
    /// fragment as username and the remote password; a reply has no
    /// username of its own and the local password.
    pub open spec fn stun_credentials(self, reply: bool) -> (Seq<u8>, Seq<u8>) {
        if reply {
            (unused_username(), self.local.pwd)
        } else {
            (request_username(self.remote->0.ufrag, self.local.ufrag), self.remote->0.pwd)
        }
    }

    /// The agent as it is made, with the local credentials `local`.
    pub open spec fn fresh(local: CredsView) -> AgentView {
        AgentView {
            last_now: None,
            ice_lite: false,
            max_candidate_pairs: None,
            local,
            remote: None,
            controlling: false,
            state: IceConnectionState::New,
            locals: Seq::empty(),
            remotes: Seq::empty(),
            pairs: Seq::empty(),
            transmit: Seq::empty(),
            events: Seq::empty(),
            queue: Seq::empty(),
            nomination_at: None,
        }
    }

    /// How many pairs the checklist holds at most.
    pub open spec fn max_pairs(self) -> int {
        match self.max_candidate_pairs {
            Some(m) => m as int,
            None => DEFAULT_MAX_CANDIDATE_PAIRS as int,
        }
    }

    /// Whether a host or relayed local candidate has this address.
    pub open spec fn is_local_socket(self, addr: SocketAddr) -> bool {
        first_index(self.locals, socket_with_addr(addr)) < self.locals.len()
    }

    /// The pairs point at candidates that exist.
    pub open spec fn pairs_in_range(self) -> bool {
        forall|i: int|
            0 <= i < self.pairs.len() ==> {
                &&& (#[trigger] self.pairs[i]).local_idx < self.locals.len()
                &&& self.pairs[i].remote_idx < self.remotes.len()
                &&& self.pairs[i].valid_idx matches Some(v) ==> v < self.locals.len()
            }
    }

    /// Each pair is well formed: in progress it has an unanswered request,
    /// succeeded it has a valid local candidate.
    pub open spec fn pairs_wf(self) -> bool {
        forall|i: int| 0 <= i < self.pairs.len() ==> (#[trigger] self.pairs[i]).wf()
    }

    /// What holds of the agent's tables at all times: the username
    /// fragments are short enough to be written, the pairs point at
    /// candidates that exist and are well formed, the checklist is sorted,
    /// no two live local candidates share address and base, and at most a
    /// hundred requests wait.
    pub open spec fn orderly(self) -> bool {
        &&& self.local.ufrag.len() <= MAX_UFRAG_LEN
        &&& self.remote matches Some(r) ==> r.ufrag.len() <= MAX_UFRAG_LEN
        &&& self.pairs_in_range()
        &&& self.pairs_wf()
        &&& is_sorted(self.pairs)
        &&& locals_unique(self.locals)
        &&& self.queue.len() <= MAX_QUEUED_REQUESTS
    }

    /// What holds of an agent at all times, whatever a machine can hold:
    /// `orderly`; the checklist has no two redundant pairs and no more pairs
    /// than it may; and each assigned local preference is the one of its
    /// place, so that no two local candidates of one kind and address
    /// family share a local preference.
    pub open spec fn consistent(self) -> bool {
        &&& self.orderly()
        &&& self.checklist_unique()
        &&& self.within_cap()
        &&& prefs_assigned(self.locals)
        &&& prefs_unique(self.locals)
    }

    /// The lists of candidates and the checklist are no longer than a
    /// machine can count.
    pub open spec fn sized(self) -> bool {
        &&& self.locals.len() <= usize::MAX
        &&& self.remotes.len() <= usize::MAX
        &&& self.pairs.len() <= usize::MAX
    }

    /// What holds of an agent at all times.
    pub open spec fn wf(self) -> bool {
        self.consistent() && self.sized()
    }

    /// Whether the request, if there is one and it is answered, came to
    /// the address of a host or relayed local candidate.
    pub open spec fn answerable(self, req: Option<RequestView>) -> bool {
        req matches Some(r) ==> (self.answers(r) ==> self.is_local_socket(r.destination))
    }

    /// No two pairs of the checklist are redundant.
    pub open spec fn checklist_unique(self) -> bool {
        pairs_unique(self.locals, self.remotes, self.pairs)
    }

    /// The checklist holds no more pairs than it may.
    pub open spec fn within_cap(self) -> bool {
        self.pairs.len() <= self.max_pairs()
    }

    /// The pair of the candidates `li` and `ri`, new.
    pub open spec fn new_pair(self, li: usize, ri: usize) -> PairView {
        PairView::fresh(
            li,
            ri,
            pair_prio(
                self.controlling,
                self.remotes[ri as int].prio(),
                self.locals[li as int].prio(),
            ),
        )
    }

    /// `pairs` after the pairs of the local candidate `li` with each of
    /// `remote_idxs`, in their order, were offered.
    pub open spec fn install_row(self, pairs: Seq<PairView>, li: usize, remote_idxs: Seq<usize>)
        -> Seq<PairView>
        decreases remote_idxs.len(),
    {
        if remote_idxs.len() == 0 {
            pairs
        } else {
            install(
                self.locals,
                self.remotes,
                self.install_row(pairs, li, remote_idxs.drop_last()),
                self.new_pair(li, remote_idxs.last()),
            )
        }
    }

    /// `pairs` after the pairs of each of `local_idxs` with each of
    /// `remote_idxs` were offered, local by local.
    pub open spec fn install_all(
        self,
        pairs: Seq<PairView>,
        local_idxs: Seq<usize>,
        remote_idxs: Seq<usize>,
    ) -> Seq<PairView>
        decreases local_idxs.len(),
    {
        if local_idxs.len() == 0 {
            pairs
        } else {
            self.install_row(
                self.install_all(pairs, local_idxs.drop_last(), remote_idxs),
                local_idxs.last(),
                remote_idxs,
            )
        }
    }

    /// The agent after pairs were formed of `local_idxs` and `remote_idxs`:
    /// each pair is offered to the checklist, which is then sorted and cut
    /// to its size.
    pub open spec fn form_pairs(self, local_idxs: Seq<usize>, remote_idxs: Seq<usize>) -> AgentView {
        AgentView {
            pairs: capped(
                sort_pairs(self.install_all(self.pairs, local_idxs, remote_idxs)),
                self.max_pairs(),
            ),
            ..self
        }
    }

    /// The agent after the local candidate `idx` was discarded: it is
    /// marked, and its pairs are gone.
    pub open spec fn discard_local(self, idx: int) -> AgentView {
        AgentView {
            locals: self.locals.update(
                idx,
                CandidateView { discarded: true, ..self.locals[idx] },
            ),
            pairs: keep(self.pairs, not_of_local(idx as usize)),
            ..self
        }
    }

    /// `c` with the local preference that the agent assigns to it.
    pub open spec fn with_preference(self, c: CandidateView) -> CandidateView {
        CandidateView {
            local_preference: Some(
                next_preference(self.locals, c.kind, c.addr.spec_is_ipv6()) as u32,
            ),
            ..c
        }
    }

    /// Whether the local candidate `c` is refused: the agent is ice-lite
    /// and `c` is no host candidate; or no local preference is left for
    /// its kind and family; or a live candidate with the same address and
    /// base has a higher priority than `c` has with its local preference.
    pub open spec fn refuses_local(self, c: CandidateView) -> bool {
        let c1 = self.with_preference(c);
        let i = first_index(self.locals, same_addr_base(c1.addr, c1.base()));
        ||| self.ice_lite && !(c.kind is Host)
        ||| count_same(self.locals, c.kind, c.addr.spec_is_ipv6()) >= PREFERENCES_PER_FAMILY
        ||| i < self.locals.len() && c1.prio() < self.locals[i].prio()
    }

    /// The agent after the local candidate `c` was added. A refused
    /// candidate changes nothing. Otherwise a live candidate with the same
    /// address and base is discarded, the host is told of the new
    /// candidate, and it is paired with the live remote candidates of its
    /// address family.
    pub open spec fn add_local(self, c: CandidateView) -> AgentView {
        if self.refuses_local(c) {
            self
        } else {
            let c1 = self.with_preference(c);
            let i = first_index(self.locals, same_addr_base(c1.addr, c1.base()));
            let s1 = if i < self.locals.len() {
                self.discard_local(i)
            } else {
                self
            };
            let s2 = AgentView {
                events: s1.events.push(EventView::NewLocalCandidate(c1)),
                locals: s1.locals.push(c1),
                ..s1
            };
            s2.form_pairs(
                seq![self.locals.len() as usize],
                matching_idxs(s2.remotes, c1.addr.spec_is_ipv4()),
            )
        }
    }

    /// The agent after the remote candidate `c` was added. A candidate of
    /// another component than 1 changes nothing. Otherwise it takes the
    /// place of the first peer-reflexive candidate with the temporary
    /// foundation and its address and priority, or is added at the end, and
    /// is paired with the live local candidates of its address family.
    pub open spec fn add_remote(self, c: CandidateView) -> AgentView {
        if c.component_id != 1 {
            self
        } else {
            let e = first_index(self.remotes, temp_prflx_like(c.addr, c.prio()));
            let s1 = AgentView {
                remotes: if e < self.remotes.len() {
                    self.remotes.update(e, c)
                } else {
                    self.remotes.push(c)
                },
                ..self
            };
            s1.form_pairs(matching_idxs(s1.locals, c.addr.spec_is_ipv4()), seq![e as usize])
        }
    }

    /// Whether invalidating `c` finds a candidate to discard: the first
    /// local candidate with the address, base and related address of `c`
    /// exists and is live.
    pub open spec fn invalidates(self, c: CandidateView) -> bool {
        let i = first_index(self.locals, same_addr_base_raddr(c.addr, c.base(), c.raddr));
        i < self.locals.len() && !self.locals[i].discarded
    }

    /// The agent after `c` was invalidated.
    pub open spec fn invalidate(self, c: CandidateView) -> AgentView {
        if self.invalidates(c) {
            self.discard_local(
                first_index(self.locals, same_addr_base_raddr(c.addr, c.base(), c.raddr)),
            )
        } else {
            self
        }
    }

    /// The agent in the connection state `state`; the host is told of a
    /// change.
    pub open spec fn with_state(self, state: IceConnectionState) -> AgentView {
        if self.state == state {
            self
        } else {
            AgentView {
                state,
                events: self.events.push(EventView::IceConnectionStateChange(state)),
                ..self
            }
        }
    }

    /// Whether the message is for this agent. Of a Binding request the
    /// part of the username after the colon is the local fragment and,
    /// once the remote credentials are known, the part before it the
    /// remote fragment. The integrity of a response verifies under the
    /// local password; that of another message under the remote password,
    /// and is not looked at while that is unknown.
    pub open spec fn accepts(self, m: StunMessageView) -> bool {
        &&& m.class is Request ==> {
            &&& m.username is Some
            &&& split_username(m.username->0) matches Some(halves)
            &&& halves.0 == self.local.ufrag
            &&& self.remote matches Some(r) ==> halves.1 == r.ufrag
        }
        &&& if m.class is Success || m.class is Failure {
            integrity_verifies(m, self.local.pwd)
        } else {
            self.remote matches Some(r) ==> integrity_verifies(m, r.pwd)
        }
    }

    /// Whether the Binding request `req` is answered: its remote fragment
    /// is the known one, and it does not ask a controlling agent to use
    /// the candidate.
    pub open spec fn answers(self, req: RequestView) -> bool {
        &&& self.remote matches Some(r)
        &&& req.remote_username == r.ufrag
        &&& !(req.use_candidate && self.controlling)
    }

    /// The peer-reflexive remote candidate that a request from an unknown
    /// address brings.
    pub open spec fn discovered_remote(req: RequestView) -> CandidateView {
        CandidateView {
            foundation: Some(temp_foundation()),
            prio: Some(req.prio),
            ..CandidateView::fresh(CandidateKind::PeerReflexive, req.source, req.source)
        }
    }

    /// The agent after the Binding request `req` was handled at `now`.
    ///
    /// A request that is not answered changes nothing. Otherwise the
    /// remote candidate is the first live one with the source address, or
    /// a new peer-reflexive one; the local candidate is the first host or
    /// relayed one with the destination address. If the checklist has no
    /// pair of the two, their pair is offered to it as any new pair is, and
    /// the checklist is sorted and cut to its size. The pair that the
    /// checklist then holds for that local base and remote address counts
    /// the request; a controlling agent plans a nomination if that pair
    /// has succeeded and is not nominated and none is planned; a controlled
    /// agent nominates it if the request asks for it. If no such pair is
    /// left, the request is only answered. The success response is queued
    /// for sending from the local candidate's base to the remote
    /// candidate's address.
    pub open spec fn server_request(self, now: Instant, req: RequestView) -> AgentView {
        if !self.answers(req) {
            self
        } else {
            let remotes = self.remotes_after(req);
            let li = first_index(self.locals, socket_with_addr(req.destination)) as usize;
            let ri = first_index(self.remotes, live_with_addr(req.source)) as usize;
            let wanted = self.request_pair(req);
            let pairs1 = self.pairs_after(req);
            let k = first_index(pairs1, redundant_with(self.locals, remotes, wanted));
            let plan = k < pairs1.len() && self.controlling && !pairs1[k].nominated
                && pairs1[k].state is Succeeded && self.nomination_at is None;
            AgentView {
                remotes,
                pairs: if k < pairs1.len() {
                    pairs1.update(k, self.counted_pair(req, pairs1[k]))
                } else {
                    pairs1
                },
                nomination_at: if plan {
                    Some(ta_after(now))
                } else {
                    self.nomination_at
                },
                transmit: self.transmit.push(
                    TransmitView {
                        source: self.locals[li as int].base(),
                        destination: remotes[ri as int].addr,
                        contents: serialized(
                            StunMessageView::reply(req.trans_id, req.source),
                            self.stun_credentials(true).1,
                        ),
                    },
                ),
                ..self
            }
        }
    }

    /// The pair `p` after it counted the request `req`; a controlled
    /// agent has nominated it if the request asks for it.
    pub open spec fn counted_pair(self, req: RequestView, p: PairView) -> PairView {
        let counted = p.with_remote_request();
        if !self.controlling && req.use_candidate && !counted.nominated {
            counted.with_nomination()
        } else {
            counted
        }
    }

    /// The checklist after the pair of the request `req` was offered to
    /// it, if it had no pair of the request's two candidates.
    pub open spec fn pairs_after(self, req: RequestView) -> Seq<PairView> {
        let wanted = self.request_pair(req);
        if first_index(self.pairs, pair_of(wanted.local_idx, wanted.remote_idx))
            < self.pairs.len() {
            self.pairs
        } else {
            capped(
                sort_pairs(install(self.locals, self.remotes_after(req), self.pairs, wanted)),
                self.max_pairs(),
            )
        }
    }

    /// The remote candidates after the request `req` was answered: a
    /// request from an unknown address has brought a new one.
    pub open spec fn remotes_after(self, req: RequestView) -> Seq<CandidateView> {
        if first_index(self.remotes, live_with_addr(req.source)) < self.remotes.len() {
            self.remotes
        } else {
            self.remotes.push(Self::discovered_remote(req))
        }
    }

    /// The pair that the request `req` is for.
    pub open spec fn request_pair(self, req: RequestView) -> PairView {
        (AgentView { remotes: self.remotes_after(req), ..self }).new_pair(
            first_index(self.locals, socket_with_addr(req.destination)) as usize,
            first_index(self.remotes, live_with_addr(req.source)) as usize,
        )
    }

    /// The Binding request that is answered when the datagram comes in,
    /// if there is one: the datagram is an accepted Binding request with
    /// priority, and the remote credentials are known.
    pub open spec fn received_request(
        self,
        now: Instant,
        source: SocketAddr,
        destination: SocketAddr,
        contents: DatagramView,
    ) -> Option<RequestView> {
        match contents {
            DatagramView::Stun(m) => if self.accepts(m) && m.class is Request && self.remote
                is Some {
                Self::request_of(now, source, destination, m)
            } else {
                None
            },
            DatagramView::Other(_) => None,
        }
    }

    /// The queued Binding request that the tick at `now` answers, if
    /// there is one.
    pub open spec fn due_request(self, now: Instant) -> Option<RequestView> {
        if self.paced_out(now) {
            None
        } else {
            self.queued_request(now)
        }
    }

    /// The address that the queued Binding request came to which the tick
    /// at `now` answers, if it answers one.
    pub open spec fn due_destination(self, now: Instant) -> Option<SocketAddr> {
        match self.due_request(now) {
            Some(req) => if self.answers(req) {
                Some(req.destination)
            } else {
                None
            },
            None => None,
        }
    }

    /// The queued Binding request that a round of work at `now` answers,
    /// if there is one: the oldest that is not stale, once the remote
    /// credentials are known.
    pub open spec fn queued_request(self, now: Instant) -> Option<RequestView> {
        if self.remote is Some && drop_stale(self.queue, now).len() > 0 {
            Some(drop_stale(self.queue, now)[0])
        } else {
            None
        }
    }

    /// The request that a Binding request message brings, if it has a
    /// priority and a username with a colon.
    pub open spec fn request_of(
        now: Instant,
        source: SocketAddr,
        destination: SocketAddr,
        m: StunMessageView,
    ) -> Option<RequestView> {
        match (m.prio, m.username) {
            (Some(prio), Some(username)) => match split_username(username) {
                Some(halves) => Some(
                    RequestView {
                        now,
                        source,
                        destination,
                        trans_id: m.trans_id,
                        prio,
                        use_candidate: m.use_candidate,
                        remote_username: halves.1,
                    },
                ),
                None => None,
            },
            _ => None,
        }
    }

    /// The agent after an accepted Binding request message came in: it is
    /// handled at once if the remote credentials are known, and queued
    /// otherwise. A request without a priority changes nothing.
    pub open spec fn server_message(
        self,
        now: Instant,
        source: SocketAddr,
        destination: SocketAddr,
        m: StunMessageView,
    ) -> AgentView {
        match Self::request_of(now, source, destination, m) {
            None => self,
            Some(req) => if self.remote is Some {
                self.server_request(now, req)
            } else {
                AgentView { queue: bounded_push(self.queue, req), ..self }
            },
        }
    }

    /// The peer-reflexive local candidate that a response with an unknown
    /// mapped address brings for a check sent from `sent_from`.
    pub open spec fn discovered_local(sent_from: CandidateView, mapped: SocketAddr) -> CandidateView {
        CandidateView {
            prio: Some(sent_from.prio_prflx()),
            ..CandidateView::fresh(CandidateKind::PeerReflexive, mapped, sent_from.base())
        }
    }

    /// The agent after the success response to the request `id` came in
    /// at `now` with the mapped address `mapped`.
    ///
    /// Without a pair that waits for it nothing changes. Otherwise the
    /// valid local candidate is the first one with the mapped address, or
    /// a new peer-reflexive one; the first waiting pair records the
    /// response; and a controlling agent plans a nomination if the pair is
    /// not nominated, the peer has sent a request for it, and none is
    /// planned.
    pub open spec fn client_response(self, now: Instant, id: TransId, mapped: SocketAddr)
        -> AgentView {
        let k = first_index(self.pairs, awaiting(id));
        if k >= self.pairs.len() {
            self
        } else {
            let v0 = first_index(self.locals, with_addr(mapped));
            let locals = if v0 < self.locals.len() {
                self.locals
            } else {
                self.locals.push(
                    Self::discovered_local(self.locals[self.pairs[k].local_idx as int], mapped),
                )
            };
            let p = self.pairs[k].with_response(now, id, v0 as usize);
            let plan = self.controlling && !p.nominated && p.remote_binding_requests > 0
                && self.nomination_at is None;
            AgentView {
                locals,
                pairs: self.pairs.update(k, p),
                nomination_at: if plan {
                    Some(ta_after(now))
                } else {
                    self.nomination_at
                },
                ..self
            }
        }
    }

    /// The agent after the datagram came in at `now`. Only an accepted
    /// Binding request or success response changes anything.
    pub open spec fn receive(
        self,
        now: Instant,
        source: SocketAddr,
        destination: SocketAddr,
        contents: DatagramView,
    ) -> AgentView {
        match contents {
            DatagramView::Other(_) => self,
            DatagramView::Stun(m) => if !self.accepts(m) {
                self
            } else if m.class is Request {
                self.server_message(now, source, destination, m)
            } else if m.class is Success && m.mapped_address is Some {
                self.client_response(now, m.trans_id, m.mapped_address->0)
            } else {
                self
            },
        }
    }

    /// The agent after the nomination: the pair at `best_index`, if there
    /// is one, is nominated.
    pub open spec fn nominate_best(self) -> AgentView {
        let b = best_index(self.pairs);
        if b < self.pairs.len() {
            AgentView { pairs: self.pairs.update(b, self.pairs[b].with_nomination()), ..self }
        } else {
            self
        }
    }

    /// The agent after a Binding request with the id `id` was sent at
    /// `now` for the pair at `idx`: the pair records it, and the request
    /// is queued for sending from the local candidate's base to the remote
    /// candidate's address. Its username is the remote fragment, a colon,
    /// the local fragment; its priority is that of the local candidate as
    /// a peer-reflexive one; it carries USE-CANDIDATE if the agent is
    /// controlling and the pair nominated; its integrity is under the
    /// remote password.
    pub open spec fn client_request(self, now: Instant, idx: int, id: TransId) -> AgentView {
        let p = self.pairs[idx];
        let local = self.locals[p.local_idx as int];
        let remote = self.remotes[p.remote_idx as int];
        let creds = self.stun_credentials(false);
        AgentView {
            pairs: self.pairs.update(idx, p.with_attempt(now, id)),
            transmit: self.transmit.push(
                TransmitView {
                    source: local.base(),
                    destination: remote.addr,
                    contents: serialized(
                        StunMessageView::binding_request(
                            creds.0,
                            id,
                            self.controlling,
                            local.prio_prflx(),
                            self.controlling && p.nominated,
                        ),
                        creds.1,
                    ),
                },
            ),
            ..self
        }
    }

    /// Whether a tick at `now` comes too soon after the last round of
    /// work.
    pub open spec fn paced_out(self, now: Instant) -> bool {
        self.last_now matches Some(l) && now.micros < ta_after(l).micros
    }

    /// The agent after the round of work at `now`, which follows the
    /// entry into `Checking` and the pacing test; `id` is the id of the
    /// request that may be sent.
    ///
    /// The stale requests leave the queue. With the remote credentials
    /// known, the oldest request that is left is handled and the round
    /// ends. A nomination that is due is made and ends the round. Otherwise the
    /// pairs that cannot succeed any more are dropped and, with the remote
    /// credentials known, the pair whose request is due first sends it if
    /// it is due.
    pub open spec fn work(self, now: Instant, id: TransId) -> AgentView {
        let s1 = AgentView { last_now: Some(now), ..self };
        let q = drop_stale(s1.queue, now);
        if s1.remote is Some && q.len() > 0 {
            (AgentView { queue: q.drop_first(), ..s1 }).server_request(now, q[0])
        } else {
            let s2 = AgentView { queue: q, ..s1 };
            if s2.nomination_at matches Some(t) && now.micros >= t.micros {
                (AgentView { nomination_at: None, ..s2 }).nominate_best()
            } else {
                s2.sweep_and_probe(now, id)
            }
        }
    }

    /// The agent after the pairs that cannot succeed any more at `now`
    /// were dropped and, with the remote credentials known, the pair whose
    /// request is due first has sent it under the id `id`, if it is due.
    pub open spec fn sweep_and_probe(self, now: Instant, id: TransId) -> AgentView {
        let s3 = AgentView { pairs: keep(self.pairs, possible_at(now)), ..self };
        if s3.remote is None || s3.pairs.len() == 0 {
            s3
        } else {
            let e = earliest_index(s3.pairs, now);
            if now.micros >= s3.pairs[e].next_attempt_time(now).micros {
                s3.client_request(now, e, id)
            } else {
                s3
            }
        }
    }

    /// The agent after the tick at `now`. The first tick brings the state
    /// `Checking`. A tick less than the timing advance after the last
    /// round of work does no more; any other starts a round.
    pub open spec fn timeout(self, now: Instant, id: TransId) -> AgentView {
        let s0 = if self.state is New {
            self.with_state(IceConnectionState::Checking)
        } else {
            self
        };
        if s0.paced_out(now) {
            s0
        } else {
            s0.work(now, id)
        }
    }

    /// When the next tick is due: the earlier of the next request of any
    /// pair and the planned nomination, but no earlier than the timing
    /// advance after the last round of work. None before the first tick,
    /// and with neither pair nor nomination.
    pub open spec fn next_timeout(self) -> Option<Instant> {
        match self.last_now {
            None => None,
            Some(l) => {
                let next = spec_smallest(earliest_attempt(self.pairs, l), self.nomination_at);
                match next {
                    Some(t) => if t.micros < ta_after(l).micros {
                        Some(ta_after(l))
                    } else {
                        Some(t)
                    },
                    None => None,
                }
            },
        }
    }

    /// The agent after the next tick was asked for: pairs whose timeout
    /// is over at the last round of work have failed.
    pub open spec fn after_poll_timeout(self) -> AgentView {
        match self.last_now {
            None => self,
            Some(l) => AgentView { pairs: noticed(self.pairs, l), ..self },
        }
    }
}

} // verus!
