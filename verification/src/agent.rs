//! The ICE agent.

use vstd::prelude::*;
use std::collections::VecDeque;
use crate::addr::SocketAddr;
use crate::bytes::{bytes_eq, extend};
use crate::candidate::{Candidate, CandidateKind};
use crate::checklist::{cap_checklist, sort_checklist};
use crate::entropy::{
    creds_from_entropy,
    IceCreds,
    pwd_from,
    random_u64,
    trans_id_from_entropy,
    ufrag_from,
};
use crate::laws::{
    lemma_client_request_wf,
    lemma_client_response_wf,
    lemma_enqueue_wf,
    lemma_nominate_best_wf,
    lemma_queue_suffix_wf,
    lemma_server_request_wf,
    lemma_wf_frame,
};
use crate::model::{
    AgentView,
    best_index,
    CredsView,
    DATAGRAM_MTU,
    DatagramView,
    DEFAULT_MAX_CANDIDATE_PAIRS,
    drop_stale,
    earliest_attempt,
    earliest_index,
    EventView,
    IceConnectionState,
    MAX_QUEUED_REQUESTS,
    MAX_UFRAG_LEN,
    noticed,
    PREFERENCES_PER_FAMILY,
    request_username,
    RequestView,
    ta_after,
    TIMING_ADVANCE_MICROS,
    TransmitView,
};
use crate::pair::{CandidatePair, CheckState, PairView};
use crate::seqs::{
    lemma_views_drop_first,
    lemma_views_empty,
    lemma_views_push,
    lemma_views_update,
    views,
};
use crate::stun::{STUN_TIMEOUT_MICROS, StunMessage, TransId};
use crate::tables::{
    count_same_kind,
    drop_impossible_pairs,
    drop_pairs_of_local,
    find_awaiting,
    find_live_with_addr,
    find_pair,
    find_redundant,
    find_same_addr_base,
    find_same_addr_base_raddr,
    find_socket,
    find_temp_prflx,
    find_with_addr,
    in_range,
    install_pair,
    matching_indexes,
};
use crate::time::{Duration, Instant, smallest};

verus! {

impl View for IceCreds {
    type V = CredsView;

    open spec fn view(&self) -> CredsView {
        CredsView {
            ufrag: vstd::utf8::encode_utf8(self.username@),
            pwd: vstd::utf8::encode_utf8(self.password@),
        }
    }
}

/// A datagram for the host to send.
#[derive(Debug)]
pub struct Transmit {
    /// The local address to send from.
    pub source: SocketAddr,
    /// The remote address to send to.
    pub destination: SocketAddr,
    /// The serialized STUN message.
    pub contents: Vec<u8>,
}

impl View for Transmit {
    type V = TransmitView;

    open spec fn view(&self) -> TransmitView {
        TransmitView {
            source: self.source,
            destination: self.destination,
            contents: self.contents@,
        }
    }
}

/// What a received datagram holds.
#[derive(Debug)]
pub enum Datagram {
    /// A STUN message.
    Stun(StunMessage),
    /// Anything else; the agent passes it over.
    Other(Vec<u8>),
}

impl View for Datagram {
    type V = DatagramView;

    open spec fn view(&self) -> DatagramView {
        match *self {
            Datagram::Stun(m) => DatagramView::Stun(m@),
            Datagram::Other(b) => DatagramView::Other(b@),
        }
    }
}

/// A datagram that the host has received.
#[derive(Debug)]
pub struct Receive {
    /// The remote address it came from.
    pub source: SocketAddr,
    /// The local address it came to.
    pub destination: SocketAddr,
    /// What it holds.
    pub contents: Datagram,
}

/// Something the agent tells the host.
#[derive(Debug)]
pub enum IceAgentEvent {
    /// The connection state has changed.
    IceConnectionStateChange(IceConnectionState),
    /// A local candidate was added.
    NewLocalCandidate(Candidate),
}

impl View for IceAgentEvent {
    type V = EventView;

    open spec fn view(&self) -> EventView {
        match *self {
            IceAgentEvent::IceConnectionStateChange(s) => EventView::IceConnectionStateChange(s),
            IceAgentEvent::NewLocalCandidate(c) => EventView::NewLocalCandidate(c@),
        }
    }
}

#[derive(Debug)]
struct StunRequest {
    now: Instant,
    source: SocketAddr,
    destination: SocketAddr,
    trans_id: TransId,
    prio: u32,
    use_candidate: bool,
    remote_username: Vec<u8>,
}

impl View for StunRequest {
    type V = RequestView;

    closed spec fn view(&self) -> RequestView {
        RequestView {
            now: self.now,
            source: self.source,
            destination: self.destination,
            trans_id: self.trans_id,
            prio: self.prio,
            use_candidate: self.use_candidate,
            remote_username: self.remote_username@,
        }
    }
}

/// An ICE agent: it pairs local and remote candidates, probes the pairs
/// with STUN Binding requests, answers the peer's requests, and nominates.
#[derive(Debug)]
pub struct IceAgent {
    last_now: Option<Instant>,
    ice_lite: bool,
    max_candidate_pairs: Option<usize>,
    local_credentials: IceCreds,
    remote_credentials: Option<IceCreds>,
    controlling: bool,
    state: IceConnectionState,
    local_candidates: Vec<Candidate>,
    remote_candidates: Vec<Candidate>,
    candidate_pairs: Vec<CandidatePair>,
    transmit: VecDeque<Transmit>,
    events: VecDeque<IceAgentEvent>,
    stun_server_queue: VecDeque<StunRequest>,
    scheduled_nomination_check: Option<Instant>,
}

impl View for IceAgent {
    type V = AgentView;

    closed spec fn view(&self) -> AgentView {
        AgentView {
            last_now: self.last_now,
            ice_lite: self.ice_lite,
            max_candidate_pairs: self.max_candidate_pairs,
            local: self.local_credentials@,
            remote: match self.remote_credentials {
                Some(c) => Some(c@),
                None => None,
            },
            controlling: self.controlling,
            state: self.state,
            locals: views(self.local_candidates@),
            remotes: views(self.remote_candidates@),
            pairs: views(self.candidate_pairs@),
            transmit: views(self.transmit@),
            events: views(self.events@),
            queue: views(self.stun_server_queue@),
            nomination_at: self.scheduled_nomination_check,
        }
    }
}

impl IceAgent {
    /// An agent with the local credentials `local`, controlled, in state
    /// `New`, without candidates. None if the username fragment has more
    /// than 256 bytes.
    pub fn with_credentials(local: IceCreds) -> (r: Option<IceAgent>)
        ensures
            r is Some <==> local@.ufrag.len() <= MAX_UFRAG_LEN,
            r matches Some(a) ==> a@ == AgentView::fresh(local@) && a@.wf(),
    {
        if local.username.as_str().as_bytes().len() > MAX_UFRAG_LEN {
            return None;
        }
        let a = IceAgent {
            last_now: None,
            ice_lite: false,
            max_candidate_pairs: None,
            local_credentials: local,
            remote_credentials: None,
            controlling: false,
            state: IceConnectionState::New,
            local_candidates: Vec::new(),
            remote_candidates: Vec::new(),
            candidate_pairs: Vec::new(),
            transmit: VecDeque::new(),
            events: VecDeque::new(),
            stun_server_queue: VecDeque::new(),
            scheduled_nomination_check: None,
        };
        proof {
            lemma_views_empty::<Candidate>();
            lemma_views_empty::<CandidatePair>();
            lemma_views_empty::<Transmit>();
            lemma_views_empty::<IceAgentEvent>();
            lemma_views_empty::<StunRequest>();
            assert(a@ == AgentView::fresh(local@));
            a.lemma_sized();
        }
        Some(a)
    }

    /// Whether this side is controlling.
    pub fn controlling(&self) -> (r: bool)
        ensures
            r == self@.controlling,
    {
        self.controlling
    }

    /// The connection state.
    pub fn state(&self) -> (r: IceConnectionState)
        ensures
            r == self@.state,
    {
        self.state
    }

    /// The local credentials.
    pub fn local_credentials(&self) -> (r: &IceCreds)
        ensures
            r@ == self@.local,
    {
        &self.local_credentials
    }

    /// The remote credentials, if set.
    pub fn remote_credentials(&self) -> (r: Option<&IceCreds>)
        ensures
            match r {
                Some(c) => self@.remote == Some(c@),
                None => self@.remote is None,
            },
    {
        self.remote_credentials.as_ref()
    }

    /// Sets the remote credentials.
    pub fn set_remote_credentials(&mut self, r: IceCreds)
        requires
            r@.ufrag.len() <= MAX_UFRAG_LEN,
        ensures
            final(self)@ == (AgentView { remote: Some(r@), ..old(self)@ }),
            old(self)@.wf() ==> final(self)@.wf(),
    {
        let ghost s0 = self@;
        self.remote_credentials = Some(r);
        proof {
            if s0.wf() {
                crate::keeping::lemma_remote_consistent(s0, r@);
                self.lemma_sized();
            }
        }
    }

    /// Sets whether this side is controlling. The role is chosen before
    /// the first tick.
    pub fn set_controlling(&mut self, v: bool)
        requires
            old(self)@.last_now is None,
        ensures
            final(self)@ == (AgentView { controlling: v, ..old(self)@ }),
            old(self)@.wf() ==> final(self)@.wf(),
    {
        let ghost s0 = self@;
        self.controlling = v;
        proof {
            if s0.wf() {
                crate::keeping::lemma_consistent_frame(s0, self@);
                self.lemma_sized();
            }
        }
    }

    /// Sets the time of the last round of work.
    pub fn set_last_now(&mut self, now: Instant)
        ensures
            final(self)@ == (AgentView { last_now: Some(now), ..old(self)@ }),
            old(self)@.wf() ==> final(self)@.wf(),
    {
        let ghost s0 = self@;
        self.last_now = Some(now);
        proof {
            if s0.wf() {
                crate::keeping::lemma_consistent_frame(s0, self@);
                self.lemma_sized();
            }
        }
    }

    /// Whether a host or relayed local candidate has the address `addr`,
    /// so that a Binding request that came to it can be answered.
    pub fn is_local_socket(&self, addr: SocketAddr) -> (r: bool)
        ensures
            r == self@.is_local_socket(addr),
    {
        crate::tables::find_socket(&self.local_candidates, addr) < self.local_candidates.len()
    }

    fn set_connection_state(&mut self, state: IceConnectionState)
        ensures
            final(self)@ == old(self)@.with_state(state),
    {
        if self.state != state {
            self.state = state;
            let ghost before = self.events@;
            let e = IceAgentEvent::IceConnectionStateChange(state);
            self.events.push_back(e);
            proof {
                lemma_views_push(before, e);
            }
        }
    }

    fn discard_candidate_pairs(&mut self, local_idx: usize)
        ensures
            final(self)@ == (AgentView {
                pairs: crate::seqs::keep(old(self)@.pairs, crate::model::not_of_local(local_idx)),
                ..old(self)@
            }),
    {
        drop_pairs_of_local(&mut self.candidate_pairs, local_idx);
    }

    fn discard_local(&mut self, idx: usize)
        requires
            idx < old(self)@.locals.len(),
        ensures
            final(self)@ == old(self)@.discard_local(idx as int),
    {
        let ghost before = self.local_candidates@;
        self.local_candidates[idx].set_discarded();
        proof {
            lemma_views_update(before, idx as int, self.local_candidates@[idx as int]);
            assert(self.local_candidates@ =~= before.update(
                idx as int,
                self.local_candidates@[idx as int],
            ));
        }
        self.discard_candidate_pairs(idx);
    }

    /// Forms the pairs of each of `local_idxs` with each of `remote_idxs`
    /// and offers them to the checklist, which is then sorted and cut to
    /// its size.
    fn form_pairs(&mut self, local_idxs: &Vec<usize>, remote_idxs: &Vec<usize>)
        requires
            in_range(
                old(self)@.pairs,
                old(self)@.locals.len() as int,
                old(self)@.remotes.len() as int,
            ),
            forall|k: int|
                0 <= k < local_idxs@.len() ==> (#[trigger] local_idxs@[k]) < old(
                    self,
                )@.locals.len(),
            forall|k: int|
                0 <= k < remote_idxs@.len() ==> (#[trigger] remote_idxs@[k]) < old(
                    self,
                )@.remotes.len(),
        ensures
            final(self)@ == old(self)@.form_pairs(local_idxs@, remote_idxs@),
    {
        let ghost s0 = self@;
        let mut i: usize = 0;
        proof {
            assert(local_idxs@.take(0) =~= Seq::<usize>::empty());
        }
        while i < local_idxs.len()
            invariant
                i <= local_idxs@.len(),
                self@ == (AgentView {
                    pairs: s0.install_all(s0.pairs, local_idxs@.take(i as int), remote_idxs@),
                    ..s0
                }),
                in_range(self@.pairs, s0.locals.len() as int, s0.remotes.len() as int),
                forall|k: int|
                    0 <= k < local_idxs@.len() ==> (#[trigger] local_idxs@[k]) < s0.locals.len(),
                forall|k: int|
                    0 <= k < remote_idxs@.len() ==> (#[trigger] remote_idxs@[k])
                        < s0.remotes.len(),
            decreases local_idxs@.len() - i,
        {
            let li: usize = local_idxs[i];
            let ghost row0 = self@.pairs;
            let mut j: usize = 0;
            proof {
                assert(remote_idxs@.take(0) =~= Seq::<usize>::empty());
            }
            while j < remote_idxs.len()
                invariant
                    j <= remote_idxs@.len(),
                    li < s0.locals.len(),
                    self@ == (AgentView {
                        pairs: s0.install_row(row0, li, remote_idxs@.take(j as int)),
                        ..s0
                    }),
                    in_range(self@.pairs, s0.locals.len() as int, s0.remotes.len() as int),
                    forall|k: int|
                        0 <= k < remote_idxs@.len() ==> (#[trigger] remote_idxs@[k])
                            < s0.remotes.len(),
                decreases remote_idxs@.len() - j,
            {
                let ri: usize = remote_idxs[j];
                let prio = CandidatePair::calculate_prio(
                    self.controlling,
                    self.remote_candidates[ri].prio(),
                    self.local_candidates[li].prio(),
                );
                let pair = CandidatePair::new(li, ri, prio);
                install_pair(
                    &mut self.candidate_pairs,
                    &self.local_candidates,
                    &self.remote_candidates,
                    pair,
                );
                proof {
                    let t = remote_idxs@.take(j + 1);
                    assert(t.drop_last() =~= remote_idxs@.take(j as int));
                    assert(t.last() == ri);
                    assert(pair@ == s0.new_pair(li, ri));
                }
                j += 1;
            }
            proof {
                assert(remote_idxs@.take(remote_idxs@.len() as int) =~= remote_idxs@);
                let t = local_idxs@.take(i + 1);
                assert(t.drop_last() =~= local_idxs@.take(i as int));
                assert(t.last() == li);
            }
            i += 1;
        }
        proof {
            assert(local_idxs@.take(local_idxs@.len() as int) =~= local_idxs@);
        }
        sort_checklist(&mut self.candidate_pairs);
        let max: usize = match self.max_candidate_pairs {
            Some(m) => m,
            None => DEFAULT_MAX_CANDIDATE_PAIRS,
        };
        cap_checklist(&mut self.candidate_pairs, max);
    }

    /// Adds a local candidate and pairs it with the remote candidates of
    /// its address family.
    ///
    /// Returns `false`, and changes nothing, if the candidate is refused:
    /// in ice-lite mode if it is no host candidate; if no local preference
    /// is left for its kind and address family; or if a live candidate
    /// with the same address and base has a higher priority.
    pub fn add_local_candidate(&mut self, c: Candidate) -> (r: bool)
        requires
            old(self)@.wf(),
        ensures
            r == !old(self)@.refuses_local(c@),
            final(self)@ == old(self)@.add_local(c@),
            final(self)@.wf(),
    {
        let mut c = c;
        let ghost c0 = c@;
        let ghost s0 = self@;
        proof {
            crate::keeping::lemma_add_local_consistent(s0, c0);
        }
        let ipv6 = c.addr().is_ipv6();
        let ipv4 = c.addr().is_ipv4();
        let kind = c.kind();
        if self.ice_lite && kind != CandidateKind::Host {
            proof {
                self.lemma_sized();
            }
            return false;
        }
        let same_kind: usize = count_same_kind(&self.local_candidates, kind, ipv6);
        if same_kind >= PREFERENCES_PER_FAMILY {
            proof {
                self.lemma_sized();
            }
            return false;
        }
        let pref: u32 = kind.counter_start() - (if ipv6 { 0u32 } else { 1u32 }) - 2 * (same_kind
            as u32);
        c.set_local_preference(pref);
        assert(c@ == s0.with_preference(c0));
        let prio = c.prio();
        let idx = find_same_addr_base(&self.local_candidates, c.addr(), c.base());
        if idx < self.local_candidates.len() {
            assert(s0.locals[idx as int] == self.local_candidates@[idx as int]@);
            if prio < self.local_candidates[idx].prio() {
                proof {
                    self.lemma_sized();
                }
                return false;
            }
            self.discard_local(idx);
        }
        let remote_idxs = matching_indexes(&self.remote_candidates, ipv4);
        let ghost events_before = self.events@;
        let e = IceAgentEvent::NewLocalCandidate(c.clone());
        self.events.push_back(e);
        let ghost locals_before = self.local_candidates@;
        let new_idx: usize = self.local_candidates.len();
        self.local_candidates.push(c);
        proof {
            lemma_views_push(events_before, e);
            lemma_views_push(locals_before, c);
            lemma_keep_in_range(s0, idx);
        }
        let mut local_idxs: Vec<usize> = Vec::new();
        local_idxs.push(new_idx);
        assert(local_idxs@ =~= seq![new_idx]);
        self.form_pairs(&local_idxs, &remote_idxs);
        proof {
            self.lemma_sized();
        }
        true
    }

    /// Adds a remote candidate and pairs it with the local candidates of
    /// its address family.
    ///
    /// Returns `false`, and changes nothing, if the candidate is of
    /// another component than 1.
    pub fn add_remote_candidate(&mut self, c: Candidate) -> (r: bool)
        requires
            old(self)@.wf(),
        ensures
            r == (c@.component_id == 1),
            final(self)@ == old(self)@.add_remote(c@),
            final(self)@.wf(),
    {
        proof {
            crate::keeping::lemma_add_remote_consistent(self@, c@);
        }
        if c.component_id() != 1 {
            proof {
                self.lemma_sized();
            }
            return false;
        }
        let ghost s0 = self@;
        let ipv4 = c.addr().is_ipv4();
        let e = find_temp_prflx(&self.remote_candidates, c.addr(), c.prio());
        let ghost before = self.remote_candidates@;
        if e < self.remote_candidates.len() {
            self.remote_candidates[e] = c;
            proof {
                lemma_views_update(before, e as int, c);
            }
        } else {
            self.remote_candidates.push(c);
            proof {
                lemma_views_push(before, c);
            }
        }
        let local_idxs = matching_indexes(&self.local_candidates, ipv4);
        let mut remote_idxs: Vec<usize> = Vec::new();
        remote_idxs.push(e);
        assert(remote_idxs@ =~= seq![e]);
        self.form_pairs(&local_idxs, &remote_idxs);
        proof {
            self.lemma_sized();
        }
        true
    }

    /// Invalidates a local candidate that is no longer usable: the first
    /// local candidate with the address, base and related address of `c`
    /// is discarded together with its pairs.
    ///
    /// Returns `true` if that candidate exists and was live.
    pub fn invalidate_candidate(&mut self, c: &Candidate) -> (r: bool)
        requires
            old(self)@.wf(),
        ensures
            r == old(self)@.invalidates(c@),
            final(self)@ == old(self)@.invalidate(c@),
            final(self)@.wf(),
    {
        proof {
            crate::keeping::lemma_invalidate_consistent(self@, c@);
        }
        let idx = find_same_addr_base_raddr(
            &self.local_candidates,
            c.addr(),
            c.base(),
            c.raddr(),
        );
        if idx < self.local_candidates.len() {
            assert(self@.locals[idx as int] == self.local_candidates@[idx as int]@);
            if !self.local_candidates[idx].discarded() {
                self.discard_local(idx);
                proof {
                    self.lemma_sized();
                }
                return true;
            }
        }
        proof {
            self.lemma_sized();
        }
        false
    }

    /// The positions of the two candidates of each pair of the checklist,
    /// in its order.
    pub fn pair_indexes(&self) -> (r: Vec<(usize, usize)>)
        ensures
            r@.len() == self@.pairs.len(),
            forall|i: int|
                0 <= i < r@.len() ==> (#[trigger] r@[i]) == (
                    self@.pairs[i].local_idx,
                    self@.pairs[i].remote_idx,
                ),
    {
        let mut r: Vec<(usize, usize)> = Vec::new();
        let mut i: usize = 0;
        while i < self.candidate_pairs.len()
            invariant
                i <= self.candidate_pairs@.len(),
                r@.len() == i,
                forall|k: int|
                    0 <= k < i ==> (#[trigger] r@[k]) == (
                        self@.pairs[k].local_idx,
                        self@.pairs[k].remote_idx,
                    ),
            decreases self.candidate_pairs@.len() - i,
        {
            let p = &self.candidate_pairs[i];
            assert(self@.pairs[i as int] == p@);
            r.push((p.local_idx(), p.remote_idx()));
            i += 1;
        }
        r
    }
}

/// Dropping the pairs of a local candidate leaves pairs that point at
/// candidates that exist.
proof fn lemma_keep_in_range(s: AgentView, idx: usize)
    requires
        s.pairs_in_range(),
    ensures
        in_range(s.pairs, s.locals.len() as int, s.remotes.len() as int),
        in_range(
            crate::seqs::keep(s.pairs, crate::model::not_of_local(idx)),
            s.locals.len() as int,
            s.remotes.len() as int,
        ),
        in_range(s.pairs, (s.locals.len() + 1) as int, s.remotes.len() as int),
        in_range(
            crate::seqs::keep(s.pairs, crate::model::not_of_local(idx)),
            (s.locals.len() + 1) as int,
            s.remotes.len() as int,
        ),
{
    crate::seqs::lemma_keep(s.pairs, crate::model::not_of_local(idx));
}

impl IceAgent {
    /// Tells whether the message is for this agent.
    ///
    /// Of a Binding request the part of the username after the colon must
    /// be the local username fragment and, once the remote credentials
    /// are set, the part before it the remote fragment. The integrity of a
    /// response must verify under the local password; that of any other
    /// message under the remote password, which is not tested before the
    /// remote credentials are set.
    pub fn accepts_message(&self, message: &StunMessage) -> (r: bool)
        ensures
            r == self@.accepts(message@),
    {
        if message.is_binding_request() {
            match message.split_username() {
                None => {
                    return false;
                },
                Some((right, left)) => {
                    if !bytes_eq(
                        right.as_slice(),
                        self.local_credentials.username.as_str().as_bytes(),
                    ) {
                        return false;
                    }
                    match &self.remote_credentials {
                        Some(rc) => {
                            if !bytes_eq(left.as_slice(), rc.username.as_str().as_bytes()) {
                                return false;
                            }
                        },
                        None => {},
                    }
                },
            }
        }
        if message.is_response() {
            message.check_integrity(self.local_credentials.password.as_str().as_bytes())
        } else {
            match &self.remote_credentials {
                Some(rc) => message.check_integrity(rc.password.as_str().as_bytes()),
                None => true,
            }
        }
    }

    /// The username and password for STUN: for a request the remote
    /// fragment, a colon and the local fragment, with the remote password;
    /// for a reply a username that is not sent, with the local password.
    fn stun_credentials(&self, reply: bool) -> (r: (Vec<u8>, Vec<u8>))
        requires
            self@.remote is Some,
        ensures
            (r.0@, r.1@) == self@.stun_credentials(reply),
    {
        match &self.remote_credentials {
            None => (Vec::new(), Vec::new()),
            Some(peer) => {
                let local = &self.local_credentials;
                let mut username: Vec<u8> = Vec::new();
                if reply {
                    proof {
                        reveal_strlit("not_used:not_used");
                    }
                    let unused = "not_used:not_used";
                    let mut i: usize = 0;
                    while i < 17
                        invariant
                            i <= 17,
                            unused@.len() == 17,
                            unused@ == "not_used:not_used"@,
                            username@ == unused@.take(i as int).map_values(|c: char| c as u8),
                        decreases 17 - i,
                    {
                        let c = unused.get_char(i);
                        username.push(c as u8);
                        assert(username@ =~= unused@.take(i + 1).map_values(|c: char| c as u8));
                        i += 1;
                    }
                    assert(unused@.take(17) =~= unused@);
                } else {
                    extend(&mut username, peer.username.as_str().as_bytes());
                    username.push(0x3a);
                    extend(&mut username, local.username.as_str().as_bytes());
                    assert(username@ =~= request_username(
                        self@.remote->0.ufrag,
                        self@.local.ufrag,
                    ));
                }
                let pwd = if reply {
                    local.password.as_str().as_bytes()
                } else {
                    peer.password.as_str().as_bytes()
                };
                let password = crate::bytes::copy_range(pwd, 0, pwd.len());
                assert(password@ =~= pwd@);
                (username, password)
            },
        }
    }

    fn stun_server_handle_request(&mut self, now: Instant, req: StunRequest)
        requires
            old(self)@.orderly(),
            old(self)@.answers(req@) ==> old(self)@.is_local_socket(req@.destination),
        ensures
            final(self)@ == old(self)@.server_request(now, req@),
            final(self)@.orderly(),
    {
        let ghost s0 = self@;
        proof {
            lemma_server_request_wf(s0, now, req@);
        }
        let known = match &self.remote_credentials {
            Some(rc) => bytes_eq(req.remote_username.as_slice(), rc.username.as_str().as_bytes()),
            None => false,
        };
        if !known {
            return;
        }
        if req.use_candidate && self.controlling {
            return;
        }
        let ri: usize = find_live_with_addr(&self.remote_candidates, req.source);
        if ri >= self.remote_candidates.len() {
            let c = Candidate::peer_reflexive(
                req.source,
                req.source,
                req.prio,
                Some("tmp_prflx".to_owned()),
            );
            let ghost before = self.remote_candidates@;
            self.remote_candidates.push(c);
            proof {
                lemma_views_push(before, c);
                assert(c@ == AgentView::discovered_remote(req@));
            }
        }
        let li: usize = find_socket(&self.local_candidates, req.destination);
        let found = find_pair(&self.candidate_pairs, li, ri);
        let prio = CandidatePair::calculate_prio(
            self.controlling,
            self.remote_candidates[ri].prio(),
            self.local_candidates[li].prio(),
        );
        if found >= self.candidate_pairs.len() {
            let pair = CandidatePair::new(li, ri, prio);
            assert(pair@ == s0.request_pair(req@));
            install_pair(
                &mut self.candidate_pairs,
                &self.local_candidates,
                &self.remote_candidates,
                pair,
            );
            sort_checklist(&mut self.candidate_pairs);
            let max: usize = match self.max_candidate_pairs {
                Some(m) => m,
                None => DEFAULT_MAX_CANDIDATE_PAIRS,
            };
            cap_checklist(&mut self.candidate_pairs, max);
        }
        assert(self@.pairs == s0.pairs_after(req@));
        let wanted = CandidatePair::new(li, ri, prio);
        assert(wanted@ == s0.request_pair(req@));
        let k = find_redundant(
            &self.candidate_pairs,
            &self.local_candidates,
            &self.remote_candidates,
            &wanted,
        );
        if k < self.candidate_pairs.len() {
            let ghost before = self.candidate_pairs@;
            assert(views(before)[k as int] == before[k as int]@);
            self.candidate_pairs[k].increase_remote_binding_requests();
            let plan = self.controlling && !self.candidate_pairs[k].is_nominated()
                && self.candidate_pairs[k].state() == CheckState::Succeeded
                && self.scheduled_nomination_check.is_none();
            if plan {
                self.scheduled_nomination_check = Some(
                    now.saturating_add(Duration::from_micros(TIMING_ADVANCE_MICROS)),
                );
            }
            if !self.controlling && req.use_candidate && !self.candidate_pairs[k].is_nominated() {
                self.candidate_pairs[k].nominate();
            }
            proof {
                lemma_views_update(before, k as int, self.candidate_pairs@[k as int]);
                assert(self.candidate_pairs@ =~= before.update(
                    k as int,
                    self.candidate_pairs@[k as int],
                ));
            }
        }
        let source = self.local_candidates[li].base();
        let destination = self.remote_candidates[ri].addr();
        let reply = StunMessage::reply(req.trans_id, req.source);
        proof {
            crate::wire::lemma_reply_fits(req.trans_id, req.source);
        }
        let (_, password) = self.stun_credentials(true);
        match reply.to_bytes(password.as_slice(), DATAGRAM_MTU) {
            Some(contents) => {
                let t = Transmit { source, destination, contents };
                let ghost tb = self.transmit@;
                self.transmit.push_back(t);
                proof {
                    lemma_views_push(tb, t);
                }
            },
            None => {},
        }
    }

    fn stun_server_handle_message(
        &mut self,
        now: Instant,
        source: SocketAddr,
        destination: SocketAddr,
        message: &StunMessage,
    )
        requires
            old(self)@.orderly(),
            old(self)@.remote is Some ==> old(self)@.answerable(
                AgentView::request_of(now, source, destination, message@),
            ),
        ensures
            final(self)@ == old(self)@.server_message(now, source, destination, message@),
            final(self)@.orderly(),
    {
        let ghost s0 = self@;
        let prio = match message.prio() {
            Some(p) => p,
            None => {
                return;
            },
        };
        let remote_username = match message.split_username() {
            Some((_, left)) => left,
            None => {
                return;
            },
        };
        let req = StunRequest {
            now,
            source,
            destination,
            trans_id: message.trans_id(),
            prio,
            use_candidate: message.use_candidate(),
            remote_username,
        };
        assert(AgentView::request_of(now, source, destination, message@) == Some(req@));
        if self.remote_credentials.is_some() {
            self.stun_server_handle_request(now, req);
        } else {
            proof {
                lemma_enqueue_wf(s0, req@);
            }
            let ghost qb = self.stun_server_queue@;
            self.stun_server_queue.push_back(req);
            proof {
                lemma_views_push(qb, req);
            }
            let ghost q2 = views(self.stun_server_queue@);
            assert(q2.skip(0) =~= q2);
            while self.stun_server_queue.len() > MAX_QUEUED_REQUESTS
                invariant
                    self.stun_server_queue@.len() <= q2.len(),
                    q2.len() > MAX_QUEUED_REQUESTS ==> self.stun_server_queue@.len()
                        >= MAX_QUEUED_REQUESTS,
                    q2.len() <= MAX_QUEUED_REQUESTS ==> self.stun_server_queue@.len() == q2.len(),
                    views(self.stun_server_queue@) == q2.skip(
                        q2.len() - self.stun_server_queue@.len(),
                    ),
                    self@ == (AgentView { queue: views(self.stun_server_queue@), ..s0 }),
                decreases self.stun_server_queue@.len(),
            {
                let ghost cur = self.stun_server_queue@;
                let dropped = self.stun_server_queue.pop_front();
                proof {
                    assert(self.stun_server_queue@ =~= cur.drop_first());
                    lemma_views_drop_first(cur);
                    assert(views(cur).drop_first() =~= q2.skip(
                        q2.len() - self.stun_server_queue@.len(),
                    ));
                }
            }
        }
    }

    fn stun_client_handle_response(&mut self, now: Instant, trans_id: TransId, mapped: SocketAddr)
        requires
            old(self)@.orderly(),
        ensures
            final(self)@ == old(self)@.client_response(now, trans_id, mapped),
            final(self)@.orderly(),
    {
        let ghost s0 = self@;
        proof {
            lemma_client_response_wf(s0, now, trans_id, mapped);
        }
        let k = find_awaiting(&self.candidate_pairs, trans_id);
        if k >= self.candidate_pairs.len() {
            return;
        }
        assert(s0.pairs[k as int] == self.candidate_pairs@[k as int]@);
        let valid = find_with_addr(&self.local_candidates, mapped);
        if valid >= self.local_candidates.len() {
            let sent_from = &self.local_candidates[self.candidate_pairs[k].local_idx()];
            let c = Candidate::peer_reflexive(
                mapped,
                sent_from.base(),
                sent_from.prio_prflx(),
                None,
            );
            let ghost before = self.local_candidates@;
            self.local_candidates.push(c);
            proof {
                lemma_views_push(before, c);
                assert(c@ == AgentView::discovered_local(
                    s0.locals[s0.pairs[k as int].local_idx as int],
                    mapped,
                ));
            }
        }
        let ghost before = self.candidate_pairs@;
        self.candidate_pairs[k].record_binding_response(now, trans_id, valid);
        proof {
            lemma_views_update(before, k as int, self.candidate_pairs@[k as int]);
            assert(self.candidate_pairs@ =~= before.update(
                k as int,
                self.candidate_pairs@[k as int],
            ));
        }
        let p = &self.candidate_pairs[k];
        if self.controlling && !p.is_nominated() && p.remote_binding_requests() > 0
            && self.scheduled_nomination_check.is_none() {
            self.scheduled_nomination_check = Some(
                now.saturating_add(Duration::from_micros(TIMING_ADVANCE_MICROS)),
            );
        }
    }

    /// Handles a received datagram. Only a STUN message that
    /// [`IceAgent::accepts_message`] accepts has any effect: a Binding
    /// request is answered, or queued until the remote credentials are
    /// set, and a success response is recorded for the pair that waits
    /// for it.
    ///
    /// A Binding request that is answered at once must have come to the
    /// address of a host or relayed local candidate.
    pub fn handle_receive(&mut self, now: Instant, receive: Receive)
        requires
            old(self)@.wf(),
            old(self)@.answerable(
                old(self)@.received_request(
                    now,
                    receive.source,
                    receive.destination,
                    receive.contents@,
                ),
            ),
        ensures
            final(self)@ == old(self)@.receive(
                now,
                receive.source,
                receive.destination,
                receive.contents@,
            ),
            final(self)@.wf(),
    {
        proof {
            crate::keeping::lemma_receive_consistent(
                self@,
                now,
                receive.source,
                receive.destination,
                receive.contents@,
            );
        }
        let Receive { source, destination, contents } = receive;
        let message = match contents {
            Datagram::Stun(v) => v,
            Datagram::Other(_) => {
                proof {
                    self.lemma_sized();
                }
                return;
            },
        };
        if !self.accepts_message(&message) {
            proof {
                self.lemma_sized();
            }
            return;
        }
        if message.is_binding_request() {
            self.stun_server_handle_message(now, source, destination, &message);
        } else if message.is_successful_binding_response() {
            match message.mapped_address() {
                Some(mapped) => {
                    self.stun_client_handle_response(now, message.trans_id(), mapped);
                },
                None => {},
            }
        }
        proof {
            self.lemma_sized();
        }
    }

    fn attempt_nomination(&mut self)
        requires
            old(self)@.orderly(),
        ensures
            final(self)@ == old(self)@.nominate_best(),
            final(self)@.orderly(),
    {
        let ghost s0 = self@;
        proof {
            lemma_nominate_best_wf(s0);
        }
        let n = self.candidate_pairs.len();
        let mut best: usize = 0;
        let mut i: usize = 0;
        assert(s0.pairs.take(0) =~= Seq::<PairView>::empty());
        while i < n
            invariant
                n == self.candidate_pairs@.len(),
                i <= n,
                self@ == s0,
                best == best_index(s0.pairs.take(i as int)),
                best <= i,
            decreases n - i,
        {
            proof {
                let t = s0.pairs.take(i + 1);
                assert(t.drop_last() =~= s0.pairs.take(i as int));
                assert(t.last() == s0.pairs[i as int]);
                assert(s0.pairs[i as int] == self.candidate_pairs@[i as int]@);
                if best < i {
                    assert(s0.pairs.take(i as int)[best as int] == s0.pairs[best as int]);
                    assert(s0.pairs[best as int] == self.candidate_pairs@[best as int]@);
                }
            }
            let p = &self.candidate_pairs[i];
            let ok = p.state() == CheckState::Succeeded && p.remote_binding_requests() > 0;
            if ok && (best >= i || self.candidate_pairs[best].prio() <= p.prio()) {
                best = i;
            } else if best >= i {
                best = i + 1;
            }
            i += 1;
        }
        assert(s0.pairs.take(n as int) =~= s0.pairs);
        if best < n {
            let ghost before = self.candidate_pairs@;
            assert(views(before)[best as int] == before[best as int]@);
            self.candidate_pairs[best].nominate();
            proof {
                lemma_views_update(before, best as int, self.candidate_pairs@[best as int]);
                assert(self.candidate_pairs@ =~= before.update(
                    best as int,
                    self.candidate_pairs@[best as int],
                ));
            }
        }
    }

    fn stun_client_binding_request(&mut self, now: Instant, pair_idx: usize, trans_id: TransId)
        requires
            old(self)@.orderly(),
            old(self)@.remote is Some,
            pair_idx < old(self)@.pairs.len(),
        ensures
            final(self)@ == old(self)@.client_request(now, pair_idx as int, trans_id),
            final(self)@.orderly(),
    {
        let ghost s0 = self@;
        proof {
            lemma_client_request_wf(s0, now, pair_idx as int, trans_id);
        }
        let (username, password) = self.stun_credentials(false);
        assert(s0.pairs[pair_idx as int] == self.candidate_pairs@[pair_idx as int]@);
        let prio = self.local_candidates[self.candidate_pairs[pair_idx].local_idx()].prio_prflx();
        // Only the controlling side sends USE-CANDIDATE.
        let use_candidate = self.controlling && self.candidate_pairs[pair_idx].is_nominated();
        let binding = StunMessage::binding_request(
            username.as_slice(),
            trans_id,
            self.controlling,
            prio,
            use_candidate,
        );
        proof {
            crate::wire::lemma_request_fits(
                username@,
                trans_id,
                self.controlling,
                prio,
                use_candidate,
            );
        }
        let contents_opt = binding.to_bytes(password.as_slice(), DATAGRAM_MTU);
        let ghost before = self.candidate_pairs@;
        let source = self.local_candidates[self.candidate_pairs[pair_idx].local_idx()].base();
        let destination =
            self.remote_candidates[self.candidate_pairs[pair_idx].remote_idx()].addr();
        let id = self.candidate_pairs[pair_idx].new_attempt(now, trans_id);
        proof {
            lemma_views_update(before, pair_idx as int, self.candidate_pairs@[pair_idx as int]);
            assert(self.candidate_pairs@ =~= before.update(
                pair_idx as int,
                self.candidate_pairs@[pair_idx as int],
            ));
        }
        match contents_opt {
            Some(contents) => {
                let t = Transmit { source, destination, contents };
                let ghost tb = self.transmit@;
                self.transmit.push_back(t);
                proof {
                    lemma_views_push(tb, t);
                }
            },
            None => {},
        }
    }

    fn earliest_pair(&self, now: Instant) -> (e: usize)
        requires
            self@.pairs.len() > 0,
        ensures
            e == earliest_index(self@.pairs, now),
            e < self@.pairs.len(),
    {
        let n = self.candidate_pairs.len();
        let mut e: usize = 0;
        let mut i: usize = 1;
        while i < n
            invariant
                n == self.candidate_pairs@.len(),
                1 <= i <= n,
                e < i,
                e == earliest_index(self@.pairs.take(i as int), now),
            decreases n - i,
        {
            proof {
                let t = self@.pairs.take(i + 1);
                assert(t.drop_last() =~= self@.pairs.take(i as int));
                assert(t.last() == self@.pairs[i as int]);
                assert(self@.pairs[i as int] == self.candidate_pairs@[i as int]@);
                assert(self@.pairs.take(i as int)[e as int] == self@.pairs[e as int]);
                assert(self@.pairs[e as int] == self.candidate_pairs@[e as int]@);
            }
            let t = self.candidate_pairs[i].peek_next_binding_attempt(now);
            let b = self.candidate_pairs[e].peek_next_binding_attempt(now);
            if t.micros < b.micros {
                e = i;
            }
            i += 1;
        }
        assert(self@.pairs.take(n as int) =~= self@.pairs);
        e
    }

    fn drop_stale_requests(&mut self, now: Instant)
        requires
            old(self)@.orderly(),
        ensures
            final(self)@ == (AgentView {
                queue: drop_stale(old(self)@.queue, now),
                ..old(self)@
            }),
            final(self)@.orderly(),
            exists|n: int|
                0 <= n <= old(self)@.queue.len() && final(self)@.queue == old(self)@.queue.skip(
                    n,
                ),
    {
        let ghost s1 = self@;
        let ghost mut n: int = 0;
        proof {
            assert(s1.queue.skip(0) =~= s1.queue);
        }
        while self.stun_server_queue.len() > 0 && now.duration_since(
            self.stun_server_queue[0].now,
        ).micros >= STUN_TIMEOUT_MICROS
            invariant
                0 <= n <= s1.queue.len(),
                views(self.stun_server_queue@) == s1.queue.skip(n),
                drop_stale(s1.queue, now) == drop_stale(views(self.stun_server_queue@), now),
                self@ == (AgentView { queue: views(self.stun_server_queue@), ..s1 }),
            decreases self.stun_server_queue@.len(),
        {
            let ghost cur = self.stun_server_queue@;
            assert(views(cur)[0] == cur[0]@);
            let dropped = self.stun_server_queue.pop_front();
            proof {
                assert(self.stun_server_queue@ =~= cur.drop_first());
                lemma_views_drop_first(cur);
                assert(views(cur).drop_first() =~= s1.queue.skip(n + 1));
                n = n + 1;
            }
        }
        proof {
            let q = views(self.stun_server_queue@);
            if q.len() > 0 {
                assert(q[0] == self.stun_server_queue@[0]@);
            }
            assert(drop_stale(q, now) == q);
            lemma_queue_suffix_wf(s1, n);
        }
    }

    fn sweep_and_probe(&mut self, now: Instant, trans_id: TransId)
        requires
            old(self)@.orderly(),
        ensures
            final(self)@ == old(self)@.sweep_and_probe(now, trans_id),
            final(self)@.orderly(),
    {
        let ghost s2 = self@;
        proof {
            crate::laws::lemma_sweep_and_probe_wf(s2, now, trans_id);
        }
        drop_impossible_pairs(&mut self.candidate_pairs, now);
        if self.remote_credentials.is_none() {
            return;
        }
        if self.candidate_pairs.len() == 0 {
            return;
        }
        let e = self.earliest_pair(now);
        assert(self@.pairs[e as int] == self.candidate_pairs@[e as int]@);
        let deadline = self.candidate_pairs[e].peek_next_binding_attempt(now);
        if now.micros >= deadline.micros {
            self.stun_client_binding_request(now, e, trans_id);
        }
    }

    fn work(&mut self, now: Instant, trans_id: TransId)
        requires
            old(self)@.orderly(),
            old(self)@.answerable(old(self)@.queued_request(now)),
        ensures
            final(self)@ == old(self)@.work(now, trans_id),
            final(self)@.orderly(),
    {
        let ghost s0 = self@;
        self.last_now = Some(now);
        let ghost s1 = self@;
        proof {
            lemma_wf_frame(s0, s1);
        }
        self.drop_stale_requests(now);
        if self.remote_credentials.is_some() {
            let ghost s1b = self@;
            let ghost cur = self.stun_server_queue@;
            match self.stun_server_queue.pop_front() {
                Some(req) => {
                    proof {
                        assert(self.stun_server_queue@ =~= cur.drop_first());
                        lemma_views_drop_first(cur);
                        assert(views(cur)[0] == req@);
                        lemma_queue_suffix_wf(s1b, 1);
                        assert(s1b.queue.skip(1) =~= s1b.queue.drop_first());
                        assert(s0.queued_request(now) == Some(req@));
                        assert(self@.answers(req@) == s0.answers(req@));
                        assert(self@.is_local_socket(req@.destination) == s0.is_local_socket(
                            req@.destination,
                        ));
                    }
                    self.stun_server_handle_request(now, req);
                    return;
                },
                None => {},
            }
        }
        let ghost s2 = self@;
        match self.scheduled_nomination_check {
            Some(nom) => {
                if now.micros >= nom.micros {
                    self.scheduled_nomination_check = None;
                    proof {
                        lemma_wf_frame(s2, self@);
                    }
                    self.attempt_nomination();
                    return;
                }
            },
            None => {},
        }
        self.sweep_and_probe(now, trans_id);
    }

    /// Handles the tick at `now` with `trans_id` as the id of the request
    /// that may be sent.
    ///
    /// The first tick brings the state `Checking`. A tick less than the
    /// timing advance after the last round of work does no more. In a
    /// round of work one queued Binding request is answered, or a due
    /// nomination is made, or the failed pairs are dropped and the pair
    /// whose request is due first sends it.
    ///
    /// A queued Binding request that the tick answers must have come to
    /// the address of a host or relayed local candidate.
    pub fn handle_timeout_with(&mut self, now: Instant, trans_id: TransId)
        requires
            old(self)@.wf(),
            old(self)@.answerable(old(self)@.due_request(now)),
        ensures
            final(self)@ == old(self)@.timeout(now, trans_id),
            final(self)@.wf(),
    {
        let ghost s0 = self@;
        proof {
            crate::keeping::lemma_timeout_consistent(s0, now, trans_id);
        }
        if self.state == IceConnectionState::New {
            self.set_connection_state(IceConnectionState::Checking);
        }
        proof {
            lemma_wf_frame(s0, self@);
        }
        match self.last_now {
            Some(last) => {
                let floor = last.saturating_add(Duration::from_micros(TIMING_ADVANCE_MICROS));
                if now.micros < floor.micros {
                    proof {
                        self.lemma_sized();
                    }
                    return;
                }
            },
            None => {},
        }
        proof {
            assert(self@.queued_request(now) == s0.queued_request(now));
            match s0.queued_request(now) {
                Some(req) => {
                    assert(self@.answers(req) == s0.answers(req));
                    assert(self@.is_local_socket(req.destination) == s0.is_local_socket(
                        req.destination,
                    ));
                },
                None => {},
            }
        }
        self.work(now, trans_id);
        proof {
            self.lemma_sized();
        }
    }

    /// Handles the tick at `now`; the id of the request that may be sent
    /// is drawn at random.
    ///
    /// A queued Binding request that the tick answers must have come to
    /// the address of a host or relayed local candidate.
    pub fn handle_timeout(&mut self, now: Instant)
        requires
            old(self)@.wf(),
            old(self)@.answerable(old(self)@.due_request(now)),
        ensures
            exists|id: TransId| final(self)@ == old(self)@.timeout(now, id),
            final(self)@.wf(),
    {
        let id = trans_id_from_entropy(random_u64(), random_u64());
        self.handle_timeout_with(now, id);
    }

    /// Takes the next datagram to send, oldest first.
    pub fn poll_transmit(&mut self) -> (r: Option<Transmit>)
        ensures
            match r {
                Some(t) => old(self)@.transmit.len() > 0 && t@ == old(self)@.transmit[0]
                    && final(self)@ == (AgentView {
                    transmit: old(self)@.transmit.drop_first(),
                    ..old(self)@
                }),
                None => old(self)@.transmit.len() == 0 && final(self)@ == old(self)@,
            },
            old(self)@.wf() ==> final(self)@.wf(),
    {
        let ghost s0 = self@;
        let ghost cur = self.transmit@;
        let r = self.transmit.pop_front();
        proof {
            if r is Some {
                assert(self.transmit@ =~= cur.drop_first());
                lemma_views_drop_first(cur);
                assert(views(cur)[0] == cur[0]@);
            }
            if s0.wf() {
                crate::keeping::lemma_consistent_frame(s0, self@);
                self.lemma_sized();
            }
        }
        r
    }

    /// Takes the next event, oldest first.
    pub fn poll_event(&mut self) -> (r: Option<IceAgentEvent>)
        ensures
            match r {
                Some(e) => old(self)@.events.len() > 0 && e@ == old(self)@.events[0]
                    && final(self)@ == (AgentView {
                    events: old(self)@.events.drop_first(),
                    ..old(self)@
                }),
                None => old(self)@.events.len() == 0 && final(self)@ == old(self)@,
            },
            old(self)@.wf() ==> final(self)@.wf(),
    {
        let ghost s0 = self@;
        let ghost cur = self.events@;
        let r = self.events.pop_front();
        proof {
            if r is Some {
                assert(self.events@ =~= cur.drop_first());
                lemma_views_drop_first(cur);
                assert(views(cur)[0] == cur[0]@);
            }
            if s0.wf() {
                crate::keeping::lemma_consistent_frame(s0, self@);
                self.lemma_sized();
            }
        }
        r
    }

    /// The time of the next tick: the earlier of the next request of any
    /// pair and the planned nomination, but never earlier than the timing
    /// advance after the last round of work. None before the first tick.
    ///
    /// Pairs whose last wait was over at the last round of work have
    /// failed from now on.
    pub fn poll_timeout(&mut self) -> (r: Option<Instant>)
        requires
            old(self)@.wf(),
        ensures
            r == old(self)@.next_timeout(),
            final(self)@ == old(self)@.after_poll_timeout(),
            final(self)@.wf(),
            r matches Some(t) ==> old(self)@.last_now matches Some(l) && t.micros >= ta_after(
                l,
            ).micros,
    {
        let ghost s0 = self@;
        proof {
            crate::keeping::lemma_poll_timeout_consistent(s0);
        }
        let last_now = match self.last_now {
            Some(l) => l,
            None => {
                proof {
                    self.lemma_sized();
                }
                return None;
            },
        };
        let n = self.candidate_pairs.len();
        let mut best: Option<Instant> = None;
        let mut i: usize = 0;
        proof {
            assert(s0.pairs.take(0) =~= Seq::<PairView>::empty());
            assert(noticed(s0.pairs.take(0), last_now) + s0.pairs.skip(0) =~= s0.pairs);
        }
        while i < n
            invariant
                n == s0.pairs.len(),
                n == self.candidate_pairs@.len(),
                i <= n,
                views(self.candidate_pairs@) == noticed(s0.pairs.take(i as int), last_now)
                    + s0.pairs.skip(i as int),
                self@ == (AgentView { pairs: views(self.candidate_pairs@), ..s0 }),
                best == earliest_attempt(s0.pairs.take(i as int), last_now),
            decreases n - i,
        {
            let ghost before = self.candidate_pairs@;
            proof {
                assert(views(before)[i as int] == before[i as int]@);
                assert(views(before)[i as int] == s0.pairs[i as int]);
                let t = s0.pairs.take(i + 1);
                assert(t.drop_last() =~= s0.pairs.take(i as int));
                assert(t.last() == s0.pairs[i as int]);
                crate::laws::lemma_earliest_index(s0.pairs.take(i as int), last_now);
                if i > 0 {
                    let e = earliest_index(s0.pairs.take(i as int), last_now);
                    assert(t[e] == s0.pairs.take(i as int)[e]);
                }
            }
            let t = self.candidate_pairs[i].next_binding_attempt(last_now);
            proof {
                lemma_views_update(before, i as int, self.candidate_pairs@[i as int]);
                assert(self.candidate_pairs@ =~= before.update(
                    i as int,
                    self.candidate_pairs@[i as int],
                ));
                assert(views(self.candidate_pairs@) =~= noticed(s0.pairs.take(i + 1), last_now)
                    + s0.pairs.skip(i + 1));
            }
            best = match best {
                None => Some(t),
                Some(b) => if t.micros < b.micros {
                    Some(t)
                } else {
                    Some(b)
                },
            };
            i += 1;
        }
        proof {
            assert(s0.pairs.take(n as int) =~= s0.pairs);
            assert(views(self.candidate_pairs@) =~= noticed(s0.pairs, last_now));
        }
        proof {
            self.lemma_sized();
        }
        let next = smallest(best, self.scheduled_nomination_check);
        match next {
            Some(t) => {
                let floor = last_now.saturating_add(Duration::from_micros(TIMING_ADVANCE_MICROS));
                if t.micros < floor.micros {
                    Some(floor)
                } else {
                    Some(t)
                }
            },
            None => None,
        }
    }

    /// An agent with fresh random credentials: a username fragment of four
    /// characters and a password of twenty-two.
    pub fn new() -> (r: IceAgent)
        ensures
            exists|a: u64, b: u64, c: u64|
                r@ == AgentView::fresh(
                    CredsView {
                        ufrag: vstd::utf8::encode_utf8(ufrag_from(a)),
                        pwd: vstd::utf8::encode_utf8(pwd_from(a, b, c)),
                    },
                ),
            r@.wf(),
    {
        let a = random_u64();
        let b = random_u64();
        let c = random_u64();
        let local = creds_from_entropy(a, b, c);
        proof {
            crate::entropy::lemma_ice_chars_ascii(a, 4);
            vstd::utf8::is_ascii_chars_encode_utf8(ufrag_from(a));
        }
        let r = IceAgent {
            last_now: None,
            ice_lite: false,
            max_candidate_pairs: None,
            local_credentials: local,
            remote_credentials: None,
            controlling: false,
            state: IceConnectionState::New,
            local_candidates: Vec::new(),
            remote_candidates: Vec::new(),
            candidate_pairs: Vec::new(),
            transmit: VecDeque::new(),
            events: VecDeque::new(),
            stun_server_queue: VecDeque::new(),
            scheduled_nomination_check: None,
        };
        proof {
            lemma_views_empty::<Candidate>();
            lemma_views_empty::<CandidatePair>();
            lemma_views_empty::<Transmit>();
            lemma_views_empty::<IceAgentEvent>();
            lemma_views_empty::<StunRequest>();
            assert(r@ == AgentView::fresh(
                CredsView {
                    ufrag: vstd::utf8::encode_utf8(ufrag_from(a)),
                    pwd: vstd::utf8::encode_utf8(pwd_from(a, b, c)),
                },
            ));
        }
        proof {
            r.lemma_sized();
        }
        r
    }
}

impl IceAgent {
    /// The lists of the agent are no longer than a machine can count.
    proof fn lemma_sized(&self)
        ensures
            self@.sized(),
    {
        assert(self.local_candidates.len() == self.local_candidates@.len());
        assert(self.remote_candidates.len() == self.remote_candidates@.len());
        assert(self.candidate_pairs.len() == self.candidate_pairs@.len());
    }

    /// Whether the received datagram is a Binding request that
    /// [`IceAgent::handle_receive`] answers at once: it is accepted, has a
    /// priority, the remote credentials are known, the part of its
    /// username before the colon is the remote fragment, and it does not
    /// ask a controlling agent to use the candidate. Such a request must
    /// have come to a local socket.
    pub fn answers_at_once(&self, now: Instant, receive: &Receive) -> (r: bool)
        ensures
            r == (self@.received_request(
                now,
                receive.source,
                receive.destination,
                receive.contents@,
            ) matches Some(req) && self@.answers(req)),
    {
        match &receive.contents {
            Datagram::Other(_) => false,
            Datagram::Stun(m) => {
                if !self.accepts_message(m) || !m.is_binding_request() {
                    return false;
                }
                let rc = match &self.remote_credentials {
                    Some(rc) => rc,
                    None => {
                        return false;
                    },
                };
                if m.prio().is_none() {
                    return false;
                }
                match m.split_username() {
                    None => false,
                    Some((_, left)) => bytes_eq(left.as_slice(), rc.username.as_str().as_bytes())
                        && !(m.use_candidate() && self.controlling),
                }
            },
        }
    }

    /// The address that the queued Binding request came to which the tick
    /// at `now` answers, if it answers one. That address must be a local
    /// socket.
    pub fn due_destination(&self, now: Instant) -> (r: Option<SocketAddr>)
        ensures
            r == self@.due_destination(now),
    {
        match self.last_now {
            Some(last) => {
                let floor = last.saturating_add(Duration::from_micros(TIMING_ADVANCE_MICROS));
                if now.micros < floor.micros {
                    return None;
                }
            },
            None => {},
        }
        let rc = match &self.remote_credentials {
            Some(rc) => rc,
            None => {
                return None;
            },
        };
        let n = self.stun_server_queue.len();
        let ghost q = self@.queue;
        let mut i: usize = 0;
        assert(q.skip(0) =~= q);
        while i < n && now.duration_since(self.stun_server_queue[i].now).micros
            >= STUN_TIMEOUT_MICROS
            invariant
                n == q.len(),
                q == views(self.stun_server_queue@),
                i <= n,
                drop_stale(q, now) == drop_stale(q.skip(i as int), now),
            decreases n - i,
        {
            assert(q.skip(i as int)[0] == self.stun_server_queue@[i as int]@);
            assert(q.skip(i as int).drop_first() =~= q.skip(i + 1));
            i += 1;
        }
        if i >= n {
            assert(q.skip(i as int).len() == 0);
            return None;
        }
        assert(q.skip(i as int)[0] == self.stun_server_queue@[i as int]@);
        let req = &self.stun_server_queue[i];
        if bytes_eq(req.remote_username.as_slice(), rc.username.as_str().as_bytes()) && !(
        req.use_candidate && self.controlling) {
            Some(req.destination)
        } else {
            None
        }
    }

    /// The time of the last round of work; none before the first tick.
    pub fn last_now(&self) -> (r: Option<Instant>)
        ensures
            r == self@.last_now,
    {
        self.last_now
    }

    /// The local candidates, in the order in which they were added or
    /// discovered; a discarded one keeps its place.
    pub fn local_candidates(&self) -> (r: &Vec<Candidate>)
        ensures
            views(r@) == self@.locals,
    {
        &self.local_candidates
    }

    /// The remote candidates, in the order in which they were added or
    /// discovered.
    pub fn remote_candidates(&self) -> (r: &Vec<Candidate>)
        ensures
            views(r@) == self@.remotes,
    {
        &self.remote_candidates
    }

    /// The checklist, highest priority first.
    pub fn candidate_pairs(&self) -> (r: &Vec<CandidatePair>)
        ensures
            views(r@) == self@.pairs,
    {
        &self.candidate_pairs
    }

    /// Sets whether the agent is ice-lite: an ice-lite agent takes host
    /// candidates only.
    pub fn set_ice_lite(&mut self, v: bool)
        ensures
            final(self)@ == (AgentView { ice_lite: v, ..old(self)@ }),
            old(self)@.wf() ==> final(self)@.wf(),
    {
        let ghost s0 = self@;
        self.ice_lite = v;
        proof {
            if s0.wf() {
                crate::keeping::lemma_consistent_frame(s0, self@);
                self.lemma_sized();
            }
        }
    }

    /// Sets how many pairs the checklist holds at most, and drops the
    /// pairs of lowest priority that are too many.
    pub fn set_max_candidate_pairs(&mut self, max: usize)
        requires
            old(self)@.wf(),
        ensures
            final(self)@ == (AgentView {
                max_candidate_pairs: Some(max),
                pairs: crate::checklist::capped(old(self)@.pairs, max as int),
                ..old(self)@
            }),
            final(self)@.wf(),
    {
        let ghost s0 = self@;
        self.max_candidate_pairs = Some(max);
        cap_checklist(&mut self.candidate_pairs, max);
        proof {
            crate::keeping::lemma_capped_consistent(s0, max);
            self.lemma_sized();
        }
    }
}

} // verus!
