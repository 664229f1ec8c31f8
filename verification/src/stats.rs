//! Byte counters of a session and what they grew by between two
//! snapshots.

use vstd::prelude::*;
use std::collections::VecDeque;
use crate::time::{Duration, Instant, sat_add, sat_sub};

verus! {

/// The least time between two reports, in microseconds (one second).
pub const STATS_INTERVAL_MICROS: u64 = 1_000_000;

/// Bits sent and received.
#[derive(Debug, Clone, Copy, PartialEq, Eq, Structural)]
pub struct BitsCount {
    pub tx: usize,
    pub rx: usize,
}

/// The bytes that the sources of one media have received and sent.
#[derive(Debug)]
pub struct MediaBytes {
    /// Bytes received, per receiving source.
    pub sources_rx: Vec<u64>,
    /// Bytes sent, per sending source.
    pub sources_tx: Vec<u64>,
}

/// The byte counters of a session at one instant.
#[derive(Debug, Clone, Copy, PartialEq, Eq, Structural)]
pub struct StatsSnapshot {
    pub peer_tx: u64,
    pub peer_rx: u64,
    pub tx: u64,
    pub rx: u64,
    pub ts: Instant,
}

/// By how much the counters grew from one snapshot to the next.
#[derive(Debug, Clone, Copy, PartialEq, Eq, Structural)]
pub struct StatsDelta {
    pub peer_rx: u64,
    pub peer_tx: u64,
    pub rx: u64,
    pub tx: u64,
    /// The time between the two snapshots.
    pub elapsed: Duration,
    /// The time of the later snapshot.
    pub ts: Instant,
}

/// The sum of the counters, or the highest 64-bit number where the sum
/// would be higher still.
pub open spec fn total(counters: Seq<u64>) -> u64
    decreases counters.len(),
{
    if counters.len() == 0 {
        0
    } else {
        sat_add(total(counters.drop_last()), counters.last())
    }
}

/// The bytes that all receiving sources of all media have received
/// together, saturating.
pub open spec fn total_rx(media: Seq<MediaBytes>) -> u64
    decreases media.len(),
{
    if media.len() == 0 {
        0
    } else {
        sat_add(total_rx(media.drop_last()), total(media.last().sources_rx@))
    }
}

/// The bytes that all sending sources of all media have sent together,
/// saturating.
pub open spec fn total_tx(media: Seq<MediaBytes>) -> u64
    decreases media.len(),
{
    if media.len() == 0 {
        0
    } else {
        sat_add(total_tx(media.drop_last()), total(media.last().sources_tx@))
    }
}

fn saturating_sum(a: u64, b: u64) -> (r: u64)
    ensures
        r == sat_add(a, b),
{
    if a > u64::MAX - b {
        u64::MAX
    } else {
        a + b
    }
}

fn saturating_diff(a: u64, b: u64) -> (r: u64)
    ensures
        r == sat_sub(a, b),
{
    if a >= b {
        a - b
    } else {
        0
    }
}

/// Adds up the counters, saturating.
pub fn sum_counters(counters: &Vec<u64>) -> (r: u64)
    ensures
        r == total(counters@),
{
    let mut r: u64 = 0;
    let mut i: usize = 0;
    assert(counters@.take(0) =~= Seq::<u64>::empty());
    while i < counters.len()
        invariant
            i <= counters@.len(),
            r == total(counters@.take(i as int)),
        decreases counters@.len() - i,
    {
        proof {
            let t = counters@.take(i + 1);
            assert(t.drop_last() =~= counters@.take(i as int));
            assert(t.last() == counters@[i as int]);
        }
        r = saturating_sum(r, counters[i]);
        i += 1;
    }
    assert(counters@.take(counters@.len() as int) =~= counters@);
    r
}

impl StatsSnapshot {
    /// A snapshot at `ts` with all counters at zero.
    pub fn new(ts: Instant) -> (r: StatsSnapshot)
        ensures
            r == (StatsSnapshot { peer_tx: 0, peer_rx: 0, tx: 0, rx: 0, ts }),
    {
        StatsSnapshot { peer_rx: 0, peer_tx: 0, tx: 0, rx: 0, ts }
    }

    /// The snapshot at `now` of a session whose peer has sent `peer_tx`
    /// and received `peer_rx` bytes: the media counters are the sums over
    /// all sources of all media.
    pub fn from(peer_tx: u64, peer_rx: u64, media: &Vec<MediaBytes>, now: Instant) -> (r:
        StatsSnapshot)
        ensures
            r == (StatsSnapshot {
                peer_tx,
                peer_rx,
                tx: total_tx(media@),
                rx: total_rx(media@),
                ts: now,
            }),
    {
        let mut rx: u64 = 0;
        let mut tx: u64 = 0;
        let mut i: usize = 0;
        assert(media@.take(0) =~= Seq::<MediaBytes>::empty());
        while i < media.len()
            invariant
                i <= media@.len(),
                rx == total_rx(media@.take(i as int)),
                tx == total_tx(media@.take(i as int)),
            decreases media@.len() - i,
        {
            proof {
                let t = media@.take(i + 1);
                assert(t.drop_last() =~= media@.take(i as int));
                assert(t.last() == media@[i as int]);
            }
            rx = saturating_sum(rx, sum_counters(&media[i].sources_rx));
            tx = saturating_sum(tx, sum_counters(&media[i].sources_tx));
            i += 1;
        }
        assert(media@.take(media@.len() as int) =~= media@);
        StatsSnapshot { peer_tx, peer_rx, tx, rx, ts: now }
    }
}

/// What the statistics hold.
pub struct StatsView {
    pub peer: BitsCount,
    pub last_peer: BitsCount,
    pub last_now: Option<Instant>,
    pub last_snapshot: StatsSnapshot,
    pub events: Seq<StatsDelta>,
}

/// By how much the counters grew from `before` to `after`, a counter that
/// fell counting as unchanged, over the time from `last_now` to the later
/// snapshot.
pub open spec fn delta(before: StatsSnapshot, after: StatsSnapshot, last_now: Instant)
    -> StatsDelta {
    StatsDelta {
        peer_rx: sat_sub(after.peer_rx, before.peer_rx),
        peer_tx: sat_sub(after.peer_tx, before.peer_tx),
        rx: sat_sub(after.rx, before.rx),
        tx: sat_sub(after.tx, before.tx),
        elapsed: after.ts.since(last_now),
        ts: after.ts,
    }
}

impl StatsView {
    /// The statistics after the snapshot was handled. The first snapshot
    /// only sets the time. A snapshot less than a second after the last
    /// report changes nothing. Any other is reported and remembered.
    pub open spec fn handle(self, snapshot: StatsSnapshot) -> StatsView {
        match self.last_now {
            None => StatsView { last_now: Some(snapshot.ts), ..self },
            Some(last) => if snapshot.ts.micros < sat_add(last.micros, STATS_INTERVAL_MICROS) {
                self
            } else {
                StatsView {
                    events: self.events.push(delta(self.last_snapshot, snapshot, last)),
                    last_peer: self.peer,
                    last_snapshot: snapshot,
                    last_now: Some(snapshot.ts),
                    ..self
                }
            },
        }
    }
}

/// Paces the reports of a session's byte counters.
pub struct Stats {
    pub peer: BitsCount,
    last_peer: BitsCount,
    last_now: Option<Instant>,
    last_snapshot: StatsSnapshot,
    events: VecDeque<StatsDelta>,
}

impl View for Stats {
    type V = StatsView;

    closed spec fn view(&self) -> StatsView {
        StatsView {
            peer: self.peer,
            last_peer: self.last_peer,
            last_now: self.last_now,
            last_snapshot: self.last_snapshot,
            events: self.events@,
        }
    }
}

impl Stats {
    /// Statistics that start at `now` with all counters at zero.
    pub fn new(now: Instant) -> (r: Stats)
        ensures
            r@ == (StatsView {
                peer: BitsCount { tx: 0, rx: 0 },
                last_peer: BitsCount { tx: 0, rx: 0 },
                last_now: None,
                last_snapshot: StatsSnapshot { peer_tx: 0, peer_rx: 0, tx: 0, rx: 0, ts: now },
                events: Seq::empty(),
            }),
    {
        Stats {
            last_now: None,
            peer: BitsCount { rx: 0, tx: 0 },
            last_peer: BitsCount { rx: 0, tx: 0 },
            last_snapshot: StatsSnapshot::new(now),
            events: VecDeque::new(),
        }
    }

    /// Handles a snapshot: at most once a second the growth of the
    /// counters since the last report is queued as a report.
    pub fn handle_timeout(&mut self, snapshot: StatsSnapshot)
        ensures
            final(self)@ == old(self)@.handle(snapshot),
    {
        let now = snapshot.ts;
        let last_now = match self.last_now {
            None => {
                self.last_now = Some(now);
                return;
            },
            Some(l) => l,
        };
        let min_step = last_now.saturating_add(Duration::from_micros(STATS_INTERVAL_MICROS));
        if now.micros < min_step.micros {
            return;
        }
        let event = StatsDelta {
            peer_rx: saturating_diff(snapshot.peer_rx, self.last_snapshot.peer_rx),
            peer_tx: saturating_diff(snapshot.peer_tx, self.last_snapshot.peer_tx),
            rx: saturating_diff(snapshot.rx, self.last_snapshot.rx),
            tx: saturating_diff(snapshot.tx, self.last_snapshot.tx),
            elapsed: now.duration_since(last_now),
            ts: now,
        };
        self.events.push_back(event);
        self.last_peer = self.peer;
        self.last_snapshot = snapshot;
        self.last_now = Some(now);
    }

    /// The time of the next snapshot: a second after the last one that was
    /// handled, none before the first.
    pub fn poll_timeout(&mut self) -> (r: Option<Instant>)
        ensures
            final(self)@ == old(self)@,
            r == (match old(self)@.last_now {
                Some(l) => Some(l.plus(Duration { micros: STATS_INTERVAL_MICROS })),
                None => None,
            }),
    {
        match self.last_now {
            Some(l) => Some(l.saturating_add(Duration::from_micros(STATS_INTERVAL_MICROS))),
            None => None,
        }
    }

    /// Takes the next report, oldest first.
    pub fn poll_output(&mut self) -> (r: Option<StatsDelta>)
        ensures
            match r {
                Some(e) => old(self)@.events.len() > 0 && e == old(self)@.events[0] && final(self)@
                    == (StatsView { events: old(self)@.events.drop_first(), ..old(self)@ }),
                None => old(self)@.events.len() == 0 && final(self)@ == old(self)@,
            },
    {
        let ghost cur = self.events@;
        let r = self.events.pop_front();
        proof {
            if r is Some {
                assert(self.events@ =~= cur.drop_first());
            }
        }
        r
    }
}

} // verus!
