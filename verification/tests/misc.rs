use ice_agent::entropy::{creds_from_entropy, trans_id_from_entropy};
use ice_agent::{
    smallest, Duration, Instant, IpAddr, MediaBytes, SocketAddr, Stats, StatsSnapshot, TransId,
};

#[test]
fn smallest_of_two_instants() {
    let a = Instant::from_micros(5);
    let b = Instant::from_micros(9);
    assert_eq!(smallest(None, None), None);
    assert_eq!(smallest(None, Some(b)), Some(b));
    assert_eq!(smallest(Some(a), None), Some(a));
    assert_eq!(smallest(Some(a), Some(b)), Some(a));
    assert_eq!(smallest(Some(b), Some(a)), Some(a));
    assert_eq!(smallest(Some(a), Some(a)), Some(a));
}

#[test]
fn time_arithmetic_saturates() {
    let t = Instant::from_micros(u64::MAX - 5);
    assert_eq!(t.saturating_add(Duration::from_micros(10)), Instant::from_micros(u64::MAX));
    assert_eq!(t.saturating_add(Duration::from_micros(5)), Instant::from_micros(u64::MAX));
    assert_eq!(Instant::from_micros(3).saturating_add(Duration::from_millis(2)).as_micros(), 2003);
    assert_eq!(Instant::from_micros(3).duration_since(Instant::from_micros(7)), Duration::zero());
    assert_eq!(Instant::from_micros(7).duration_since(Instant::from_micros(3)).as_micros(), 4);
    assert_eq!(Duration::from_millis(u64::MAX).as_micros(), u64::MAX);
}

#[test]
fn socket_addresses() {
    let a = SocketAddr::v4(1, 2, 3, 4, 5000);
    assert_eq!(a.ip(), IpAddr::V4(0x0102_0304));
    assert_eq!(a.port(), 5000);
    assert!(a.is_ipv4());
    assert!(!a.is_ipv6());
    assert!(SocketAddr::v6(1, 2).is_ipv6());
    assert!(IpAddr::V4(0x7f00_0001).is_usable());
    assert!(!IpAddr::V4(0xe000_0001).is_usable());
}

#[test]
fn credentials_from_entropy() {
    let c = creds_from_entropy(0, 0, 0);
    assert_eq!(c.username, "AAAA");
    assert_eq!(c.password, "AAAAAAAAAAAAAAAAAAAAAA");
    // six bits a character, lowest first: 1 -> B, 26 -> a, 52 -> 0, 62 -> +, 63 -> /
    let a = 1 | (26 << 6) | (52 << 12) | (62 << 18) | (63 << 24) | (25 << 30);
    let c = creds_from_entropy(a, 0, 63 << 54);
    assert_eq!(c.username, "Ba0+");
    assert_eq!(c.password, "AAAAAAAAAAAAAAAAAAA//Z");
    assert_eq!(
        trans_id_from_entropy(0x1234_5678_9abc_def0, 7),
        TransId { hi: 0x1234_5678, lo: 7 }
    );
}

#[test]
fn snapshot_sums_all_sources() {
    let media = vec![
        MediaBytes { sources_rx: vec![1, 2, 3], sources_tx: vec![10] },
        MediaBytes { sources_rx: vec![], sources_tx: vec![20, 30] },
    ];
    let now = Instant::from_micros(42);
    let s = StatsSnapshot::from(7, 8, &media, now);
    assert_eq!(s, StatsSnapshot { peer_tx: 7, peer_rx: 8, tx: 60, rx: 6, ts: now });
    let zero = StatsSnapshot::new(now);
    assert_eq!(zero, StatsSnapshot { peer_tx: 0, peer_rx: 0, tx: 0, rx: 0, ts: now });
    let big = vec![MediaBytes { sources_rx: vec![u64::MAX, 1], sources_tx: vec![] }];
    assert_eq!(StatsSnapshot::from(0, 0, &big, now).rx, u64::MAX);
}

#[test]
fn stats_report_once_a_second() {
    let t0 = Instant::from_micros(1_000_000);
    let mut stats = Stats::new(t0);
    assert_eq!(stats.poll_timeout(), None);
    let snap = |micros: u64, n: u64| StatsSnapshot {
        peer_tx: n,
        peer_rx: 2 * n,
        tx: 3 * n,
        rx: 4 * n,
        ts: Instant::from_micros(micros),
    };
    // the first snapshot only sets the time
    stats.handle_timeout(snap(2_000_000, 100));
    assert!(stats.poll_output().is_none());
    assert_eq!(stats.poll_timeout(), Some(Instant::from_micros(3_000_000)));
    // too early
    stats.handle_timeout(snap(2_999_999, 150));
    assert!(stats.poll_output().is_none());
    // due: the growth since the start is reported
    stats.handle_timeout(snap(3_000_000, 200));
    let d = stats.poll_output().unwrap();
    assert_eq!(d.peer_tx, 200);
    assert_eq!(d.peer_rx, 400);
    assert_eq!(d.tx, 600);
    assert_eq!(d.rx, 800);
    assert_eq!(d.elapsed, Duration::from_micros(1_000_000));
    assert_eq!(d.ts, Instant::from_micros(3_000_000));
    assert!(stats.poll_output().is_none());
    // the next report counts from the last one
    stats.handle_timeout(snap(4_500_000, 250));
    let d = stats.poll_output().unwrap();
    assert_eq!(d.peer_tx, 50);
    assert_eq!(d.elapsed, Duration::from_micros(1_500_000));
}
