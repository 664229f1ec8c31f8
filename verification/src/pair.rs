//! A pair of a local and a remote candidate and the state of its
//! connectivity check.

use vstd::prelude::*;
use crate::stun::{resend_delay_micros, STUN_MAX_RETRANS, stun_resend_delay, TransId};
use crate::time::{Duration, Instant};

verus! {

/// Where the connectivity check of a pair stands.
#[derive(Debug, Clone, Copy, PartialEq, Eq, Structural, Hash)]
pub enum CheckState {
    /// No request was sent yet.
    Waiting,
    /// A request was sent and no response has come.
    InProgress,
    /// A response has come.
    Succeeded,
    /// All requests went unanswered.
    Failed,
}

/// A Binding request that has not been answered.
#[derive(Debug, Clone, Copy, PartialEq, Eq, Structural)]
pub struct BindingAttempt {
    pub trans_id: TransId,
    pub sent: Instant,
}

/// The priority of a pair from the priorities of its two candidates: with
/// `g` the priority of the controlling side's candidate and `d` that of the
/// controlled side's, `2^32 * min(g, d) + 2 * max(g, d) + (1 if g > d)`.
pub open spec fn pair_prio(controlling: bool, remote_prio: u32, local_prio: u32) -> u64 {
    let g: int = if controlling { local_prio as int } else { remote_prio as int };
    let d: int = if controlling { remote_prio as int } else { local_prio as int };
    let lo: int = if g < d { g } else { d };
    let hi: int = if g < d { d } else { g };
    let bit: int = if g > d { 1 } else { 0 };
    let v: int = 0x1_0000_0000 * lo + 2 * hi + bit;
    if v > u64::MAX {
        u64::MAX
    } else {
        v as u64
    }
}

/// What a candidate pair holds.
pub struct PairView {
    pub local_idx: usize,
    pub remote_idx: usize,
    pub valid_idx: Option<usize>,
    pub prio: u64,
    pub state: CheckState,
    /// The unanswered requests, oldest first.
    pub attempts: Seq<BindingAttempt>,
    /// When the latest request was sent.
    pub last_attempt: Option<Instant>,
    pub last_rtt: Option<Duration>,
    pub remote_binding_requests: u32,
    pub nominated: bool,
}

impl PairView {
    /// At most seven requests are unanswered; a pair in progress has an
    /// unanswered request; a pair that succeeded has a valid local
    /// candidate; the latest unanswered request is the latest request.
    pub open spec fn wf(self) -> bool {
        &&& self.attempts.len() <= STUN_MAX_RETRANS
        &&& self.state is InProgress ==> self.attempts.len() >= 1
        &&& self.state is Succeeded ==> self.valid_idx is Some
        &&& self.attempts.len() >= 1 ==> self.last_attempt == Some(self.attempts.last().sent)
    }

    /// A new pair, waiting.
    pub open spec fn fresh(local_idx: usize, remote_idx: usize, prio: u64) -> PairView {
        PairView {
            local_idx,
            remote_idx,
            valid_idx: None,
            prio,
            state: CheckState::Waiting,
            attempts: Seq::empty(),
            last_attempt: None,
            last_rtt: None,
            remote_binding_requests: 0,
            nominated: false,
        }
    }

    /// The position of the first unanswered request with this id, or the
    /// number of unanswered requests if there is none.
    pub open spec fn attempt_index(self, id: TransId) -> int {
        first_attempt_with(self.attempts, id)
    }

    /// Whether a request with this id is unanswered.
    pub open spec fn has_attempt(self, id: TransId) -> bool {
        self.attempt_index(id) < self.attempts.len()
    }

    /// The pair after a request with id `id` was sent at `now`. The oldest
    /// unanswered request is forgotten if there are seven already.
    pub open spec fn with_attempt(self, now: Instant, id: TransId) -> PairView {
        let kept = if self.attempts.len() >= STUN_MAX_RETRANS {
            self.attempts.drop_first()
        } else {
            self.attempts
        };
        PairView {
            state: if self.state is Waiting {
                CheckState::InProgress
            } else {
                self.state
            },
            attempts: kept.push(BindingAttempt { trans_id: id, sent: now }),
            last_attempt: Some(now),
            ..self
        }
    }

    /// The pair after the response to the request with id `id` came at
    /// `now` and showed the local candidate `valid_idx`. Without such a
    /// request the pair is unchanged.
    pub open spec fn with_response(self, now: Instant, id: TransId, valid_idx: usize) -> PairView {
        if self.has_attempt(id) {
            PairView {
                state: CheckState::Succeeded,
                valid_idx: Some(valid_idx),
                attempts: Seq::empty(),
                last_rtt: Some(now.since(self.attempts[self.attempt_index(id)].sent)),
                ..self
            }
        } else {
            self
        }
    }

    /// When the next request is due: at `now` if none was sent yet, else
    /// after the wait that follows the latest request.
    pub open spec fn next_attempt_time(self, now: Instant) -> Instant {
        match self.last_attempt {
            None => now,
            Some(t) => t.plus(Duration { micros: resend_delay_micros(self.attempts.len()) }),
        }
    }

    /// Whether all seven requests went unanswered and the wait after the
    /// last one is over at `now`.
    pub open spec fn timed_out(self, now: Instant) -> bool {
        &&& self.attempts.len() >= STUN_MAX_RETRANS
        &&& self.last_attempt matches Some(t)
        &&& now.micros >= t.plus(Duration { micros: resend_delay_micros(self.attempts.len()) }).micros
    }

    /// Whether the check can still succeed at `now`.
    pub open spec fn is_still_possible(self, now: Instant) -> bool {
        !(self.state is Failed) && !self.timed_out(now)
    }

    /// The pair after its timeout at `now` was noticed.
    pub open spec fn with_timeout_noticed(self, now: Instant) -> PairView {
        if self.timed_out(now) {
            PairView { state: CheckState::Failed, ..self }
        } else {
            self
        }
    }

    /// The pair after one more Binding request of the peer; the count
    /// stays at its highest value once reached.
    pub open spec fn with_remote_request(self) -> PairView {
        PairView {
            remote_binding_requests: if self.remote_binding_requests == u32::MAX {
                u32::MAX
            } else {
                (self.remote_binding_requests + 1) as u32
            },
            ..self
        }
    }

    /// The pair, nominated.
    pub open spec fn with_nomination(self) -> PairView {
        PairView { nominated: true, ..self }
    }
}

/// The position of the first request with id `id` in `attempts`, or their
/// number if there is none.
pub open spec fn first_attempt_with(attempts: Seq<BindingAttempt>, id: TransId) -> int
    decreases attempts.len(),
{
    if attempts.len() == 0 {
        0
    } else if attempts[0].trans_id == id {
        0
    } else {
        1 + first_attempt_with(attempts.drop_first(), id)
    }
}

/// `first_attempt_with` finds the first position with the id, if any.
pub proof fn lemma_first_attempt_with(attempts: Seq<BindingAttempt>, id: TransId)
    ensures
        0 <= first_attempt_with(attempts, id) <= attempts.len(),
        first_attempt_with(attempts, id) < attempts.len() ==> attempts[first_attempt_with(
            attempts,
            id,
        )].trans_id == id,
        forall|j: int|
            0 <= j < first_attempt_with(attempts, id) ==> (#[trigger] attempts[j]).trans_id != id,
    decreases attempts.len(),
{
    if attempts.len() == 0 {
    } else if attempts[0].trans_id == id {
    } else {
        let rest = attempts.drop_first();
        lemma_first_attempt_with(rest, id);
        let k = first_attempt_with(rest, id);
        assert forall|j: int| 0 <= j < 1 + k implies (#[trigger] attempts[j]).trans_id != id by {
            if j > 0 {
                assert(attempts[j] == rest[j - 1]);
            }
        }
        if k < rest.len() {
            assert(attempts[1 + k] == rest[k]);
        }
    }
}

/// A request that was recorded is unanswered.
pub proof fn lemma_attempt_recorded(p: PairView, now: Instant, id: TransId)
    ensures
        p.with_attempt(now, id).has_attempt(id),
        p.state is Waiting ==> p.with_attempt(now, id).state is InProgress,
        !(p.state is Waiting) ==> p.with_attempt(now, id).state == p.state,
{
    let a = p.with_attempt(now, id).attempts;
    lemma_first_attempt_with(a, id);
    let last = a.len() - 1;
    assert(a[last].trans_id == id);
    if first_attempt_with(a, id) > last {
        assert(a[last].trans_id != id);
    }
}

/// Every operation on a pair keeps it well formed: a pair in progress has
/// an unanswered request, a pair that succeeded has a valid local
/// candidate.
pub proof fn lemma_pair_wf_preserved(p: PairView, now: Instant, id: TransId, valid_idx: usize)
    requires
        p.wf(),
    ensures
        p.with_attempt(now, id).wf(),
        p.with_response(now, id, valid_idx).wf(),
        p.with_timeout_noticed(now).wf(),
        p.with_remote_request().wf(),
        p.with_nomination().wf(),
{
}

/// A new pair is well formed.
pub proof fn lemma_fresh_pair_wf(local_idx: usize, remote_idx: usize, prio: u64)
    ensures
        PairView::fresh(local_idx, remote_idx, prio).wf(),
{
}

/// A pair of a local and a remote candidate, by their positions in the
/// agent's lists, with the state of its connectivity check.
#[derive(Debug)]
pub struct CandidatePair {
    local_idx: usize,
    remote_idx: usize,
    valid_idx: Option<usize>,
    prio: u64,
    state: CheckState,
    attempts: Vec<BindingAttempt>,
    last_attempt: Option<Instant>,
    last_rtt: Option<Duration>,
    remote_binding_requests: u32,
    nominated: bool,
}

impl View for CandidatePair {
    type V = PairView;

    closed spec fn view(&self) -> PairView {
        PairView {
            local_idx: self.local_idx,
            remote_idx: self.remote_idx,
            valid_idx: self.valid_idx,
            prio: self.prio,
            state: self.state,
            attempts: self.attempts@,
            last_attempt: self.last_attempt,
            last_rtt: self.last_rtt,
            remote_binding_requests: self.remote_binding_requests,
            nominated: self.nominated,
        }
    }
}

impl CandidatePair {
    /// A new pair in state `Waiting`.
    pub fn new(local_idx: usize, remote_idx: usize, prio: u64) -> (p: CandidatePair)
        ensures
            p@ == PairView::fresh(local_idx, remote_idx, prio),
    {
        CandidatePair {
            local_idx,
            remote_idx,
            valid_idx: None,
            prio,
            state: CheckState::Waiting,
            attempts: Vec::new(),
            last_attempt: None,
            last_rtt: None,
            remote_binding_requests: 0,
            nominated: false,
        }
    }

    /// The priority of a pair from those of its candidates.
    pub fn calculate_prio(controlling: bool, remote_prio: u32, local_prio: u32) -> (r: u64)
        ensures
            r == pair_prio(controlling, remote_prio, local_prio),
    {
        let (g, d) = if controlling {
            (local_prio as u128, remote_prio as u128)
        } else {
            (remote_prio as u128, local_prio as u128)
        };
        let lo: u128 = if g < d { g } else { d };
        let hi: u128 = if g < d { d } else { g };
        let bit: u128 = if g > d { 1 } else { 0 };
        let v: u128 = 0x1_0000_0000 * lo + 2 * hi + bit;
        if v > 0xffff_ffff_ffff_ffff {
            u64::MAX
        } else {
            v as u64
        }
    }

    pub fn local_idx(&self) -> (r: usize)
        ensures
            r == self@.local_idx,
    {
        self.local_idx
    }

    pub fn remote_idx(&self) -> (r: usize)
        ensures
            r == self@.remote_idx,
    {
        self.remote_idx
    }

    /// The local candidate that the peer saw the check come from, once a
    /// response has shown it.
    pub fn valid_idx(&self) -> (r: Option<usize>)
        ensures
            r == self@.valid_idx,
    {
        self.valid_idx
    }

    pub fn prio(&self) -> (r: u64)
        ensures
            r == self@.prio,
    {
        self.prio
    }

    pub fn state(&self) -> (r: CheckState)
        ensures
            r == self@.state,
    {
        self.state
    }

    /// The round-trip time of the latest answered request.
    pub fn last_rtt(&self) -> (r: Option<Duration>)
        ensures
            r == self@.last_rtt,
    {
        self.last_rtt
    }

    /// Records a request sent at `now` under the id `trans_id` and hands
    /// the id back. A waiting pair is in progress from now on.
    pub fn new_attempt(&mut self, now: Instant, trans_id: TransId) -> (r: TransId)
        ensures
            r == trans_id,
            final(self)@ == old(self)@.with_attempt(now, trans_id),
    {
        if self.attempts.len() >= STUN_MAX_RETRANS {
            self.attempts.remove(0);
            assert(self.attempts@ =~= old(self).attempts@.drop_first());
        }
        self.attempts.push(BindingAttempt { trans_id, sent: now });
        self.last_attempt = Some(now);
        if self.state == CheckState::Waiting {
            self.state = CheckState::InProgress;
        }
        trans_id
    }

    fn find_attempt(&self, trans_id: TransId) -> (i: usize)
        ensures
            i == self@.attempt_index(trans_id),
            i <= self@.attempts.len(),
    {
        let mut i: usize = 0;
        assert(self.attempts@.skip(0) =~= self.attempts@);
        while i < self.attempts.len()
            invariant
                i <= self.attempts@.len(),
                first_attempt_with(self.attempts@, trans_id) == i + first_attempt_with(
                    self.attempts@.skip(i as int),
                    trans_id,
                ),
            decreases self.attempts@.len() - i,
        {
            let ghost rest = self.attempts@.skip(i as int);
            assert(rest[0] == self.attempts@[i as int]);
            assert(rest.drop_first() =~= self.attempts@.skip(i + 1));
            if self.attempts[i].trans_id == trans_id {
                return i;
            }
            i += 1;
        }
        i
    }

    /// Whether a request with this id is unanswered.
    pub fn has_binding_attempt(&self, trans_id: TransId) -> (r: bool)
        ensures
            r == self@.has_attempt(trans_id),
    {
        self.find_attempt(trans_id) < self.attempts.len()
    }

    /// Records the response to the request `trans_id`, which came at `now`
    /// and showed the local candidate `valid_idx`: the pair has succeeded.
    /// A response to no unanswered request changes nothing.
    pub fn record_binding_response(&mut self, now: Instant, trans_id: TransId, valid_idx: usize)
        ensures
            final(self)@ == old(self)@.with_response(now, trans_id, valid_idx),
    {
        let i = self.find_attempt(trans_id);
        if i < self.attempts.len() {
            let sent = self.attempts[i].sent;
            self.last_rtt = Some(now.duration_since(sent));
            self.valid_idx = Some(valid_idx);
            self.attempts.clear();
            self.state = CheckState::Succeeded;
        }
    }

    /// When the next request of this pair is due. A pair whose seven
    /// requests went unanswered, and whose last wait is over at `now`, has
    /// failed from now on.
    pub fn next_binding_attempt(&mut self, now: Instant) -> (t: Instant)
        ensures
            t == old(self)@.next_attempt_time(now),
            final(self)@ == old(self)@.with_timeout_noticed(now),
    {
        match self.last_attempt {
            None => now,
            Some(last) => {
                let due = last.saturating_add(stun_resend_delay(self.attempts.len()));
                if self.attempts.len() >= STUN_MAX_RETRANS && now.micros >= due.micros {
                    self.state = CheckState::Failed;
                }
                due
            },
        }
    }

    /// When the next request of this pair is due, without noticing a
    /// timeout.
    pub fn peek_next_binding_attempt(&self, now: Instant) -> (t: Instant)
        ensures
            t == self@.next_attempt_time(now),
    {
        match self.last_attempt {
            None => now,
            Some(last) => last.saturating_add(stun_resend_delay(self.attempts.len())),
        }
    }

    /// Whether the check can still succeed at `now`.
    pub fn is_still_possible(&self, now: Instant) -> (r: bool)
        ensures
            r == self@.is_still_possible(now),
    {
        if self.state == CheckState::Failed {
            return false;
        }
        match self.last_attempt {
            None => true,
            Some(last) => {
                let due = last.saturating_add(stun_resend_delay(self.attempts.len()));
                !(self.attempts.len() >= STUN_MAX_RETRANS && now.micros >= due.micros)
            },
        }
    }

    /// Counts one more Binding request of the peer for this pair.
    pub fn increase_remote_binding_requests(&mut self)
        ensures
            final(self)@ == old(self)@.with_remote_request(),
    {
        if self.remote_binding_requests < u32::MAX {
            self.remote_binding_requests += 1;
        }
    }

    /// How many Binding requests of the peer were counted.
    pub fn remote_binding_requests(&self) -> (r: u32)
        ensures
            r == self@.remote_binding_requests,
    {
        self.remote_binding_requests
    }

    /// Nominates the pair.
    pub fn nominate(&mut self)
        ensures
            final(self)@ == old(self)@.with_nomination(),
    {
        self.nominated = true;
    }

    pub fn is_nominated(&self) -> (r: bool)
        ensures
            r == self@.nominated,
    {
        self.nominated
    }
}

} // verus!
