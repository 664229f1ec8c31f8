//! ICE candidates: a transport address with its kind, base and priority.

use vstd::prelude::*;
use crate::addr::SocketAddr;

verus! {

/// Why a candidate was refused.
#[derive(Debug)]
pub enum IceError {
    /// The candidate cannot be used; the text says why.
    BadCandidate(String),
}

impl IceError {
    /// The error as one line of text.
    pub fn message(&self) -> (r: String)
        ensures
            r@ == (match *self {
                IceError::BadCandidate(s) => "ICE bad candidate: "@ + s@,
            }),
    {
        match self {
            IceError::BadCandidate(s) => {
                let mut r = "ICE bad candidate: ".to_owned();
                r.append(s.as_str());
                r
            },
        }
    }
}

/// How a candidate's address was learned.
#[derive(Debug, Clone, Copy, PartialEq, Eq, Structural, Hash)]
pub enum CandidateKind {
    /// An address of a local interface.
    Host,
    /// Learned from a connectivity check.
    PeerReflexive,
    /// Learned from a STUN server.
    ServerReflexive,
    /// Allocated on a relay.
    Relayed,
}

/// The highest local preference a candidate can have.
pub const MAX_LOCAL_PREFERENCE: u32 = 65_535;

/// The foundation of a remote peer-reflexive candidate until signalling
/// brings the real one.
pub open spec fn temp_foundation() -> Seq<char> {
    "tmp_prflx"@
}

impl CandidateKind {
    /// The type preference that enters the priority.
    pub open spec fn spec_type_preference(&self) -> u32 {
        match *self {
            CandidateKind::Host => 126,
            CandidateKind::PeerReflexive => 110,
            CandidateKind::ServerReflexive => 100,
            CandidateKind::Relayed => 0,
        }
    }

    /// Where the descending counter of local preferences starts.
    pub open spec fn spec_counter_start(&self) -> u32 {
        match *self {
            CandidateKind::Host => 65_535,
            CandidateKind::PeerReflexive => 49_151,
            CandidateKind::ServerReflexive => 32_767,
            CandidateKind::Relayed => 16_383,
        }
    }

    #[verifier::when_used_as_spec(spec_type_preference)]
    pub fn type_preference(&self) -> (r: u32)
        ensures
            r == self.spec_type_preference(),
    {
        match self {
            CandidateKind::Host => 126,
            CandidateKind::PeerReflexive => 110,
            CandidateKind::ServerReflexive => 100,
            CandidateKind::Relayed => 0,
        }
    }

    #[verifier::when_used_as_spec(spec_counter_start)]
    pub fn counter_start(&self) -> (r: u32)
        ensures
            r == self.spec_counter_start(),
    {
        match self {
            CandidateKind::Host => 65_535,
            CandidateKind::PeerReflexive => 49_151,
            CandidateKind::ServerReflexive => 32_767,
            CandidateKind::Relayed => 16_383,
        }
    }
}

/// The priority of a candidate:
/// `2^24 * type_preference + 2^8 * local_preference + (256 - component_id)`.
pub open spec fn priority_of(type_preference: u32, local_preference: u32, component_id: u16) -> int {
    0x100_0000 * type_preference + 0x100 * local_preference + (256 - component_id)
}

/// What a candidate holds.
pub struct CandidateView {
    pub foundation: Option<Seq<char>>,
    pub component_id: u16,
    pub prio: Option<u32>,
    pub addr: SocketAddr,
    pub base: Option<SocketAddr>,
    pub kind: CandidateKind,
    pub raddr: Option<SocketAddr>,
    pub local_preference: Option<u32>,
    pub discarded: bool,
}

impl CandidateView {
    /// The component id is between 1 and 256 and the local preference, if
    /// assigned, at most 65535.
    pub open spec fn wf(self) -> bool {
        &&& 1 <= self.component_id <= 256
        &&& self.local_preference matches Some(p) ==> p <= MAX_LOCAL_PREFERENCE
    }

    /// The address that traffic of this candidate leaves from: the base if
    /// one was given, the candidate's own address otherwise.
    pub open spec fn base(self) -> SocketAddr {
        match self.base {
            Some(b) => b,
            None => self.addr,
        }
    }

    /// The assigned local preference; before one is assigned, the highest
    /// of the address family (odd for IPv6, even for IPv4).
    pub open spec fn local_preference(self) -> u32 {
        match self.local_preference {
            Some(p) => p,
            None => if self.addr.spec_is_ipv6() {
                65_535
            } else {
                65_534
            },
        }
    }

    /// The priority with `kind` as the candidate's kind, unless a priority
    /// was given outright.
    pub open spec fn prio_as(self, kind: CandidateKind) -> u32 {
        match self.prio {
            Some(p) => p,
            None => priority_of(
                kind.spec_type_preference(),
                self.local_preference(),
                self.component_id,
            ) as u32,
        }
    }

    /// The candidate's priority.
    pub open spec fn prio(self) -> u32 {
        self.prio_as(self.kind)
    }

    /// The priority this candidate would have as a peer-reflexive one.
    pub open spec fn prio_prflx(self) -> u32 {
        self.prio_as(CandidateKind::PeerReflexive)
    }

    /// The foundation, empty while none is known.
    pub open spec fn foundation(self) -> Seq<char> {
        match self.foundation {
            Some(f) => f,
            None => Seq::empty(),
        }
    }

    /// A fresh candidate of component 1 with nothing assigned yet.
    pub open spec fn fresh(kind: CandidateKind, addr: SocketAddr, base: SocketAddr) -> CandidateView {
        CandidateView {
            foundation: None,
            component_id: 1,
            prio: None,
            addr,
            base: Some(base),
            kind,
            raddr: None,
            local_preference: None,
            discarded: false,
        }
    }
}

/// A well-formed candidate's computed priority fits 32 bits.
pub proof fn lemma_priority_fits(c: CandidateView, kind: CandidateKind)
    requires
        c.wf(),
    ensures
        0 <= priority_of(kind.spec_type_preference(), c.local_preference(), c.component_id)
            <= u32::MAX,
{
}

/// A transport address that the agent advertises or has learned for the
/// peer.
#[derive(Debug)]
pub struct Candidate {
    foundation: Option<String>,
    component_id: u16,
    prio: Option<u32>,
    addr: SocketAddr,
    base: Option<SocketAddr>,
    kind: CandidateKind,
    raddr: Option<SocketAddr>,
    local_preference: Option<u32>,
    discarded: bool,
}

impl View for Candidate {
    type V = CandidateView;

    closed spec fn view(&self) -> CandidateView {
        CandidateView {
            foundation: match self.foundation {
                Some(s) => Some(s@),
                None => None,
            },
            component_id: self.component_id,
            prio: self.prio,
            addr: self.addr,
            base: self.base,
            kind: self.kind,
            raddr: self.raddr,
            local_preference: self.local_preference,
            discarded: self.discarded,
        }
    }
}

impl Clone for Candidate {
    fn clone(&self) -> (r: Candidate)
        ensures
            r@ == self@,
    {
        proof {
            use_type_invariant(self);
        }
        Candidate {
            foundation: match &self.foundation {
                Some(s) => Some(s.clone()),
                None => None,
            },
            component_id: self.component_id,
            prio: self.prio,
            addr: self.addr,
            base: self.base,
            kind: self.kind,
            raddr: self.raddr,
            local_preference: self.local_preference,
            discarded: self.discarded,
        }
    }
}

impl Candidate {
    #[verifier::type_invariant]
    spec fn inv(&self) -> bool {
        self@.wf()
    }

    /// A host candidate for `addr`, which is also its base.
    ///
    /// Fails if the IP address cannot be used: unspecified, multicast,
    /// IPv4 broadcast or IPv4 link-local.
    pub fn host(addr: SocketAddr) -> (r: Result<Candidate, IceError>)
        ensures
            r is Ok <==> addr.ip.spec_is_usable(),
            r matches Ok(c) ==> c@ == CandidateView::fresh(CandidateKind::Host, addr, addr),
            r matches Err(IceError::BadCandidate(why)) ==> why@ == "invalid ip"@,
    {
        if !addr.ip.is_usable() {
            return Err(IceError::BadCandidate("invalid ip".to_owned()));
        }
        Ok(
            Candidate {
                foundation: None,
                component_id: 1,
                prio: None,
                addr,
                base: Some(addr),
                kind: CandidateKind::Host,
                raddr: None,
                local_preference: None,
                discarded: false,
            },
        )
    }

    /// A server-reflexive candidate: `addr` as a STUN server saw it, sent
    /// from `base`.
    ///
    /// Fails if the IP address of `addr` cannot be used.
    pub fn server_reflexive(addr: SocketAddr, base: SocketAddr) -> (r: Result<Candidate, IceError>)
        ensures
            r is Ok <==> addr.ip.spec_is_usable(),
            r matches Ok(c) ==> c@ == CandidateView::fresh(
                CandidateKind::ServerReflexive,
                addr,
                base,
            ),
            r matches Err(IceError::BadCandidate(why)) ==> why@ == "invalid ip"@,
    {
        if !addr.ip.is_usable() {
            return Err(IceError::BadCandidate("invalid ip".to_owned()));
        }
        Ok(
            Candidate {
                foundation: None,
                component_id: 1,
                prio: None,
                addr,
                base: Some(base),
                kind: CandidateKind::ServerReflexive,
                raddr: None,
                local_preference: None,
                discarded: false,
            },
        )
    }

    /// A relayed candidate for `addr`, which is also its base.
    ///
    /// Fails if the IP address cannot be used.
    pub fn relayed(addr: SocketAddr) -> (r: Result<Candidate, IceError>)
        ensures
            r is Ok <==> addr.ip.spec_is_usable(),
            r matches Ok(c) ==> c@ == CandidateView::fresh(CandidateKind::Relayed, addr, addr),
            r matches Err(IceError::BadCandidate(why)) ==> why@ == "invalid ip"@,
    {
        if !addr.ip.is_usable() {
            return Err(IceError::BadCandidate("invalid ip".to_owned()));
        }
        Ok(
            Candidate {
                foundation: None,
                component_id: 1,
                prio: None,
                addr,
                base: Some(addr),
                kind: CandidateKind::Relayed,
                raddr: None,
                local_preference: None,
                discarded: false,
            },
        )
    }

    /// A peer-reflexive candidate with a given priority, as a connectivity
    /// check discovers it.
    pub fn peer_reflexive(
        addr: SocketAddr,
        base: SocketAddr,
        prio: u32,
        found: Option<String>,
    ) -> (c: Candidate)
        ensures
            c@ == (CandidateView {
                foundation: match found {
                    Some(s) => Some(s@),
                    None => None,
                },
                prio: Some(prio),
                ..CandidateView::fresh(CandidateKind::PeerReflexive, addr, base)
            }),
    {
        Candidate {
            foundation: found,
            component_id: 1,
            prio: Some(prio),
            addr,
            base: Some(base),
            kind: CandidateKind::PeerReflexive,
            raddr: None,
            local_preference: None,
            discarded: false,
        }
    }

    /// A peer-reflexive candidate whose priority is computed like that of
    /// any local candidate.
    pub fn test_peer_rflx(addr: SocketAddr, base: SocketAddr) -> (c: Candidate)
        ensures
            c@ == CandidateView::fresh(CandidateKind::PeerReflexive, addr, base),
    {
        Candidate {
            foundation: None,
            component_id: 1,
            prio: None,
            addr,
            base: Some(base),
            kind: CandidateKind::PeerReflexive,
            raddr: None,
            local_preference: None,
            discarded: false,
        }
    }

    /// A candidate as signalling describes it.
    ///
    /// Fails if the component id is not between 1 and 256.
    pub fn parsed(
        foundation: String,
        component_id: u16,
        prio: u32,
        addr: SocketAddr,
        kind: CandidateKind,
        raddr: Option<SocketAddr>,
    ) -> (r: Result<Candidate, IceError>)
        ensures
            r is Ok <==> 1 <= component_id <= 256,
            r matches Ok(c) ==> c@ == (CandidateView {
                foundation: Some(foundation@),
                component_id,
                prio: Some(prio),
                addr,
                base: None,
                kind,
                raddr,
                local_preference: None,
                discarded: false,
            }),
            r matches Err(IceError::BadCandidate(why)) ==> why@ == "invalid component id"@,
    {
        if component_id < 1 || component_id > 256 {
            return Err(IceError::BadCandidate("invalid component id".to_owned()));
        }
        Ok(
            Candidate {
                foundation: Some(foundation),
                component_id,
                prio: Some(prio),
                addr,
                base: None,
                kind,
                raddr,
                local_preference: None,
                discarded: false,
            },
        )
    }

    /// The foundation; empty while none is known.
    pub fn foundation(&self) -> (r: String)
        ensures
            r@ == self@.foundation(),
    {
        match &self.foundation {
            Some(s) => s.clone(),
            None => String::new(),
        }
    }

    /// Whether the foundation is the temporary one of a remote
    /// peer-reflexive candidate.
    pub fn has_temp_foundation(&self) -> (r: bool)
        ensures
            r == (self@.foundation() == temp_foundation()),
    {
        let t = "tmp_prflx".to_owned();
        match &self.foundation {
            Some(s) => *s == t,
            None => {
                proof {
                    reveal_strlit("tmp_prflx");
                    assert("tmp_prflx"@.len() == 9);
                    assert(Seq::<char>::empty().len() == 0);
                }
                false
            },
        }
    }

    pub fn component_id(&self) -> (r: u16)
        ensures
            r == self@.component_id,
    {
        self.component_id
    }

    pub fn addr(&self) -> (r: SocketAddr)
        ensures
            r == self@.addr,
    {
        self.addr
    }

    /// The address that this candidate's traffic leaves from.
    pub fn base(&self) -> (r: SocketAddr)
        ensures
            r == self@.base(),
    {
        match self.base {
            Some(b) => b,
            None => self.addr,
        }
    }

    pub fn kind(&self) -> (r: CandidateKind)
        ensures
            r == self@.kind,
    {
        self.kind
    }

    pub fn raddr(&self) -> (r: Option<SocketAddr>)
        ensures
            r == self@.raddr,
    {
        self.raddr
    }

    pub fn discarded(&self) -> (r: bool)
        ensures
            r == self@.discarded,
    {
        self.discarded
    }

    /// The local preference that enters the priority.
    pub fn local_preference(&self) -> (r: u32)
        ensures
            r == self@.local_preference(),
            r <= MAX_LOCAL_PREFERENCE,
    {
        proof {
            use_type_invariant(self);
        }
        match self.local_preference {
            Some(p) => p,
            None => if self.addr.is_ipv6() {
                65_535
            } else {
                65_534
            },
        }
    }

    fn do_prio(&self, kind: CandidateKind) -> (r: u32)
        ensures
            r == self@.prio_as(kind),
            self@.wf(),
    {
        proof {
            use_type_invariant(self);
        }
        match self.prio {
            Some(p) => p,
            None => {
                let tp: u32 = kind.type_preference();
                let lp: u32 = self.local_preference();
                let comp: u32 = self.component_id as u32;
                0x100_0000 * tp + 0x100 * lp + (256 - comp)
            },
        }
    }

    /// The candidate's priority. Every candidate is well formed.
    pub fn prio(&self) -> (r: u32)
        ensures
            r == self@.prio(),
            self@.wf(),
    {
        self.do_prio(self.kind)
    }

    /// The priority this candidate would have if it were peer-reflexive.
    pub fn prio_prflx(&self) -> (r: u32)
        ensures
            r == self@.prio_prflx(),
    {
        self.do_prio(CandidateKind::PeerReflexive)
    }

    /// Assigns the local preference.
    pub(crate) fn set_local_preference(&mut self, v: u32)
        requires
            v <= MAX_LOCAL_PREFERENCE,
        ensures
            final(self)@ == (CandidateView { local_preference: Some(v), ..old(self)@ }),
    {
        proof {
            use_type_invariant(&*self);
        }
        self.local_preference = Some(v);
    }

    /// Marks the candidate as no longer in use.
    pub(crate) fn set_discarded(&mut self)
        ensures
            final(self)@ == (CandidateView { discarded: true, ..old(self)@ }),
    {
        proof {
            use_type_invariant(&*self);
        }
        self.discarded = true;
    }
}

} // verus!
