use ice_agent::{
    Candidate, CheckState, Datagram, Duration, IceAgent, IceAgentEvent, IceConnectionState,
    IceCreds, Instant, Receive, SocketAddr, StunMessage, TransId,
};

fn ipv4_1() -> SocketAddr {
    SocketAddr::v4(1, 2, 3, 4, 5000)
}
fn ipv4_2() -> SocketAddr {
    SocketAddr::v4(2, 3, 4, 5, 5000)
}
fn ipv4_3() -> SocketAddr {
    SocketAddr::v4(3, 4, 5, 6, 5000)
}
fn ipv4_4() -> SocketAddr {
    SocketAddr::v4(4, 5, 6, 7, 5000)
}
fn ipv6_1() -> SocketAddr {
    SocketAddr::v6(0x1001_u128 << 112, 5000)
}
fn ipv6_2() -> SocketAddr {
    SocketAddr::v6(0x1002_u128 << 112, 5000)
}

fn remote_creds() -> IceCreds {
    IceCreds { username: "rmte".to_string(), password: "remotepasswordremotepw".to_string() }
}

fn at(millis: u64) -> Instant {
    Instant::from_micros(1_000_000_000 + millis * 1000)
}

/// The bytes of a Binding request as a peer of `agent` with the
/// credentials `remote` writes it.
fn request_bytes(agent: &IceAgent, remote: &IceCreds, id: TransId, use_candidate: bool) -> Vec<u8> {
    let mut username = remote.username.as_bytes().to_vec();
    username.push(b':');
    username.extend_from_slice(agent.local_credentials().username.as_bytes());
    let m = StunMessage::binding_request(&username, id, true, 12345, use_candidate);
    m.to_bytes(remote.password.as_bytes(), 1150).unwrap()
}

fn receive(source: SocketAddr, destination: SocketAddr, bytes: &[u8]) -> Receive {
    Receive { source, destination, contents: Datagram::Stun(StunMessage::parse(bytes).unwrap()) }
}

#[test]
fn local_preference_host() {
    let mut agent = IceAgent::new();

    agent.add_local_candidate(Candidate::host(ipv4_1()).unwrap());
    agent.add_local_candidate(Candidate::host(ipv6_1()).unwrap());
    agent.add_local_candidate(Candidate::host(ipv6_2()).unwrap());
    agent.add_local_candidate(Candidate::host(ipv4_2()).unwrap());

    let v: Vec<_> = agent.local_candidates().iter().map(|c| c.local_preference()).collect();

    assert_eq!(v, vec![65534, 65535, 65533, 65532]);
}

#[test]
fn discard_adding_redundant() {
    let mut agent = IceAgent::new();

    let x2 = agent.add_local_candidate(Candidate::host(ipv4_1()).unwrap());
    assert!(x2);

    // this is redundant given we have the direct host candidate above.
    let x1 = agent.add_local_candidate(Candidate::test_peer_rflx(ipv4_1(), ipv4_1()));
    assert!(x1 == false);
}

#[test]
fn discard_already_added_redundant() {
    let mut agent = IceAgent::new();

    // this is contrived, but it is redundant when we add the host candidate below.
    let x1 = agent.add_local_candidate(Candidate::test_peer_rflx(ipv4_1(), ipv4_1()));
    assert!(x1);

    let x2 = agent.add_local_candidate(Candidate::host(ipv4_1()).unwrap());
    assert!(x2);

    let v: Vec<_> = agent.local_candidates().iter().map(|v| v.discarded()).collect();

    assert_eq!(v, vec![true, false]);
}

#[test]
fn form_pairs() {
    let mut agent = IceAgent::new();

    // local 0
    agent.add_local_candidate(Candidate::host(ipv4_1()).unwrap());
    // local 1
    agent.add_local_candidate(Candidate::test_peer_rflx(ipv4_4(), ipv4_2()));

    // remote 0
    agent.add_remote_candidate(Candidate::test_peer_rflx(ipv4_4(), ipv4_3()));
    // remote 1
    agent.add_remote_candidate(Candidate::host(ipv4_3()).unwrap());

    assert_eq!(agent.pair_indexes(), [(0, 1), (0, 0), (1, 1), (1, 0)]);
}

#[test]
fn form_pairs_skip_redundant() {
    let mut agent = IceAgent::new();

    agent.add_remote_candidate(Candidate::host(ipv4_3()).unwrap());
    agent.add_local_candidate(Candidate::host(ipv4_1()).unwrap());

    assert_eq!(agent.pair_indexes(), [(0, 0)]);

    // this local candidate is redundant an won't form a new pair.
    agent.add_local_candidate(Candidate::test_peer_rflx(ipv4_2(), ipv4_1()));

    assert_eq!(agent.pair_indexes(), [(0, 0)]);
}

#[test]
fn form_pairs_replace_redundant() {
    let mut agent = IceAgent::new();

    agent.add_remote_candidate(Candidate::host(ipv4_3()).unwrap());
    agent.add_local_candidate(Candidate::test_peer_rflx(ipv4_2(), ipv4_1()));

    assert_eq!(agent.pair_indexes(), [(0, 0)]);

    // this local candidate is redundant, but has higher prio than then existing pair.
    // it replaces the existing pair.
    agent.add_local_candidate(Candidate::host(ipv4_1()).unwrap());

    assert_eq!(agent.pair_indexes(), [(1, 0)]);
}

#[test]
fn poll_time_must_timing_advance() {
    let mut agent = IceAgent::new();
    agent.add_local_candidate(Candidate::host(ipv4_1()).unwrap());
    agent.add_remote_candidate(Candidate::host(ipv4_3()).unwrap());

    let now1 = at(0);
    agent.handle_timeout(now1);
    let now2 = agent.poll_timeout().unwrap();

    assert!(now2.duration_since(now1) == Duration::from_millis(50));
}

#[test]
fn poll_timeout_is_none_before_first_tick() {
    let mut agent = IceAgent::new();
    agent.add_local_candidate(Candidate::host(ipv4_1()).unwrap());
    agent.add_remote_candidate(Candidate::host(ipv4_3()).unwrap());
    assert_eq!(agent.poll_timeout(), None);
}

#[test]
fn first_tick_enters_checking_and_tells_the_host() {
    let mut agent = IceAgent::new();
    assert_eq!(agent.state(), IceConnectionState::New);
    agent.handle_timeout(at(0));
    assert_eq!(agent.state(), IceConnectionState::Checking);
    match agent.poll_event() {
        Some(IceAgentEvent::IceConnectionStateChange(s)) => {
            assert_eq!(s, IceConnectionState::Checking)
        }
        other => panic!("unexpected event {:?}", other),
    }
    assert!(agent.poll_event().is_none());
    // a second tick changes the state no more
    agent.handle_timeout(at(100));
    assert!(agent.poll_event().is_none());
}

#[test]
fn add_local_candidate_emits_event_with_preference() {
    let mut agent = IceAgent::new();
    assert!(agent.add_local_candidate(Candidate::host(ipv4_1()).unwrap()));
    match agent.poll_event() {
        Some(IceAgentEvent::NewLocalCandidate(c)) => {
            assert_eq!(c.addr(), ipv4_1());
            assert_eq!(c.local_preference(), 65534);
            assert_eq!(c.prio(), 2130706175);
        }
        other => panic!("unexpected event {:?}", other),
    }
}

#[test]
fn same_candidate_twice_adds_nothing() {
    let mut agent = IceAgent::new();
    agent.add_remote_candidate(Candidate::host(ipv4_3()).unwrap());
    assert!(agent.add_local_candidate(Candidate::host(ipv4_1()).unwrap()));
    let pairs = agent.pair_indexes();
    let prefs: Vec<_> = agent.local_candidates().iter().map(|c| c.local_preference()).collect();

    assert!(!agent.add_local_candidate(Candidate::host(ipv4_1()).unwrap()));
    assert_eq!(agent.pair_indexes(), pairs);
    let prefs2: Vec<_> = agent.local_candidates().iter().map(|c| c.local_preference()).collect();
    assert_eq!(prefs, prefs2);

    // the same remote candidate again forms no new pair either
    assert!(agent.add_remote_candidate(Candidate::host(ipv4_3()).unwrap()));
    assert_eq!(agent.pair_indexes(), pairs);
}

#[test]
fn server_reflexive_with_addr_and_base_of_host_is_rejected() {
    let mut agent = IceAgent::new();
    assert!(agent.add_local_candidate(Candidate::host(ipv4_1()).unwrap()));
    assert!(!agent.add_local_candidate(Candidate::server_reflexive(ipv4_1(), ipv4_1()).unwrap()));
    assert_eq!(agent.local_candidates().len(), 1);
}

#[test]
fn higher_priority_redundant_candidate_drops_pairs_of_older() {
    let mut agent = IceAgent::new();
    agent.add_remote_candidate(Candidate::host(ipv4_3()).unwrap());
    agent.add_remote_candidate(Candidate::host(ipv4_4()).unwrap());
    assert!(agent.add_local_candidate(Candidate::test_peer_rflx(ipv4_1(), ipv4_1())));
    assert_eq!(agent.pair_indexes().len(), 2);
    assert!(agent.add_local_candidate(Candidate::host(ipv4_1()).unwrap()));
    assert!(agent.local_candidates()[0].discarded());
    assert!(agent.pair_indexes().iter().all(|(l, _)| *l == 1));
    assert_eq!(agent.pair_indexes().len(), 2);
}

#[test]
fn pairs_are_formed_within_one_address_family() {
    let mut agent = IceAgent::new();
    agent.add_local_candidate(Candidate::host(ipv4_1()).unwrap());
    agent.add_local_candidate(Candidate::host(ipv6_1()).unwrap());
    agent.add_remote_candidate(Candidate::host(ipv6_2()).unwrap());
    assert_eq!(agent.pair_indexes(), [(1, 0)]);
}

#[test]
fn remote_candidate_of_other_component_is_rejected() {
    let mut agent = IceAgent::new();
    let c = Candidate::parsed("f".to_string(), 2, 1000, ipv4_3(), ice_agent::CandidateKind::Host, None)
        .unwrap();
    assert!(!agent.add_remote_candidate(c));
    assert!(agent.remote_candidates().is_empty());
}

#[test]
fn ice_lite_takes_host_candidates_only() {
    let mut agent = IceAgent::new();
    agent.set_ice_lite(true);
    assert!(!agent.add_local_candidate(Candidate::test_peer_rflx(ipv4_2(), ipv4_1())));
    assert!(agent.add_local_candidate(Candidate::host(ipv4_1()).unwrap()));
}

#[test]
fn invalidate_candidate_discards_and_drops_pairs() {
    let mut agent = IceAgent::new();
    agent.add_local_candidate(Candidate::host(ipv4_1()).unwrap());
    agent.add_local_candidate(Candidate::host(ipv4_2()).unwrap());
    agent.add_remote_candidate(Candidate::host(ipv4_3()).unwrap());
    assert_eq!(agent.pair_indexes().len(), 2);
    assert!(agent.invalidate_candidate(&Candidate::host(ipv4_1()).unwrap()));
    assert_eq!(agent.pair_indexes(), [(1, 0)]);
    assert!(agent.local_candidates()[0].discarded());
    // a second time there is nothing live to invalidate
    assert!(!agent.invalidate_candidate(&Candidate::host(ipv4_1()).unwrap()));
    // nor for an unknown candidate
    assert!(!agent.invalidate_candidate(&Candidate::host(ipv4_4()).unwrap()));
}

#[test]
fn checklist_is_sorted_and_capped() {
    let mut agent = IceAgent::new();
    agent.set_max_candidate_pairs(3);
    agent.add_local_candidate(Candidate::host(ipv4_1()).unwrap());
    agent.add_local_candidate(Candidate::host(ipv4_2()).unwrap());
    for port in 0..4u16 {
        agent.add_remote_candidate(Candidate::host(SocketAddr::v4(9, 9, 9, 9, 6000 + port)).unwrap());
    }
    let pairs = agent.candidate_pairs();
    assert_eq!(pairs.len(), 3);
    for w in pairs.windows(2) {
        assert!(w[0].prio() >= w[1].prio());
    }
}

#[test]
fn no_probe_without_remote_credentials() {
    let mut agent = IceAgent::new();
    agent.add_local_candidate(Candidate::host(ipv4_1()).unwrap());
    agent.add_remote_candidate(Candidate::host(ipv4_3()).unwrap());
    agent.handle_timeout(at(0));
    assert!(agent.poll_transmit().is_none());
}

#[test]
fn probe_is_sent_with_credentials_and_paced() {
    let mut agent = IceAgent::new();
    agent.add_local_candidate(Candidate::host(ipv4_1()).unwrap());
    agent.add_remote_candidate(Candidate::host(ipv4_3()).unwrap());
    let remote = remote_creds();
    agent.set_remote_credentials(remote.clone());
    agent.handle_timeout(at(0));
    let t = agent.poll_transmit().expect("a probe");
    assert_eq!(t.source, ipv4_1());
    assert_eq!(t.destination, ipv4_3());
    let m = StunMessage::parse(&t.contents).unwrap();
    assert!(m.is_binding_request());
    let mut expected = remote.username.as_bytes().to_vec();
    expected.push(b':');
    expected.extend_from_slice(agent.local_credentials().username.as_bytes());
    assert_eq!(m.username().unwrap(), expected);
    assert!(m.check_integrity(remote.password.as_bytes()));
    assert!(!m.check_integrity(b"wrong"));
    assert_eq!(m.prio(), Some((110 << 24) + (65534 << 8) + 255));
    assert!(!m.use_candidate());
    assert_eq!(m.ice_controlled(), Some(0));
    assert_eq!(m.ice_controlling(), None);
    assert_eq!(agent.candidate_pairs()[0].state(), CheckState::InProgress);

    // within the timing advance nothing more happens
    agent.handle_timeout(at(10));
    assert!(agent.poll_transmit().is_none());
    // the retransmission is due 500 ms after the first request
    assert_eq!(agent.poll_timeout(), Some(at(500)));
    agent.handle_timeout(at(499));
    assert!(agent.poll_transmit().is_none());
    agent.handle_timeout(at(550));
    assert!(agent.poll_transmit().is_some());
    // and the next one second after that
    assert_eq!(agent.poll_timeout(), Some(at(1550)));
}

#[test]
fn pair_fails_after_seven_unanswered_requests() {
    let mut agent = IceAgent::new();
    agent.add_local_candidate(Candidate::host(ipv4_1()).unwrap());
    agent.add_remote_candidate(Candidate::host(ipv4_3()).unwrap());
    agent.set_remote_credentials(remote_creds());
    let mut now = at(0);
    let mut sent = 0;
    for _ in 0..2000 {
        agent.handle_timeout(now);
        while agent.poll_transmit().is_some() {
            sent += 1;
        }
        if agent.candidate_pairs().is_empty() {
            break;
        }
        now = now.saturating_add(Duration::from_millis(50));
    }
    assert_eq!(sent, 7);
    assert!(agent.candidate_pairs().is_empty());
    // 39.5 s after the first request the pair is gone
    assert_eq!(now, at(39_500));
}

#[test]
fn early_stun_request_is_queued_until_credentials() {
    let mut agent = IceAgent::new();
    agent.add_local_candidate(Candidate::host(ipv4_1()).unwrap());
    let remote = remote_creds();
    let id = TransId { hi: 7, lo: 9 };
    let bytes = request_bytes(&agent, &remote, id, false);

    agent.handle_receive(at(0), receive(ipv4_3(), ipv4_1(), &bytes));
    assert!(agent.poll_transmit().is_none());
    agent.handle_timeout(at(10));
    assert!(agent.poll_transmit().is_none());

    agent.set_remote_credentials(remote);
    agent.handle_timeout(at(100));
    let t = agent.poll_transmit().expect("a response");
    assert_eq!(t.source, ipv4_1());
    assert_eq!(t.destination, ipv4_3());
    let m = StunMessage::parse(&t.contents).unwrap();
    assert!(m.is_successful_binding_response());
    assert_eq!(m.trans_id(), id);
    assert_eq!(m.mapped_address(), Some(ipv4_3()));
    assert!(m.check_integrity(agent.local_credentials().password.as_bytes()));
    assert!(agent.poll_transmit().is_none());

    // the source became a peer-reflexive remote candidate with a pair
    assert_eq!(agent.remote_candidates().len(), 1);
    assert_eq!(agent.remote_candidates()[0].foundation(), "tmp_prflx");
    assert_eq!(agent.remote_candidates()[0].prio(), 12345);
    assert_eq!(agent.pair_indexes(), [(0, 0)]);
    assert_eq!(agent.candidate_pairs()[0].remote_binding_requests(), 1);
}

#[test]
fn stale_queued_request_is_dropped() {
    let mut agent = IceAgent::new();
    agent.add_local_candidate(Candidate::host(ipv4_1()).unwrap());
    let remote = remote_creds();
    let bytes = request_bytes(&agent, &remote, TransId { hi: 1, lo: 2 }, false);
    agent.handle_receive(at(0), receive(ipv4_3(), ipv4_1(), &bytes));
    agent.set_remote_credentials(remote);
    agent.handle_timeout(at(39_500));
    assert!(agent.poll_transmit().is_none());
    assert!(agent.remote_candidates().is_empty());
}

#[test]
fn request_for_another_agent_is_ignored() {
    let mut agent = IceAgent::new();
    agent.add_local_candidate(Candidate::host(ipv4_1()).unwrap());
    let remote = remote_creds();
    agent.set_remote_credentials(remote.clone());
    let m = StunMessage::binding_request(b"rmte:nobody", TransId { hi: 1, lo: 2 }, true, 1, false);
    let bytes = m.to_bytes(remote.password.as_bytes(), 1150).unwrap();
    let parsed = StunMessage::parse(&bytes).unwrap();
    assert!(!agent.accepts_message(&parsed));
    agent.handle_receive(at(0), receive(ipv4_3(), ipv4_1(), &bytes));
    assert!(agent.poll_transmit().is_none());
}

#[test]
fn request_with_bad_integrity_is_ignored() {
    let mut agent = IceAgent::new();
    agent.add_local_candidate(Candidate::host(ipv4_1()).unwrap());
    let remote = remote_creds();
    agent.set_remote_credentials(remote.clone());
    let wrong = IceCreds { username: remote.username.clone(), password: "bad".to_string() };
    let bytes = request_bytes(&agent, &wrong, TransId { hi: 1, lo: 2 }, false);
    let parsed = StunMessage::parse(&bytes).unwrap();
    assert!(!agent.accepts_message(&parsed));
    agent.handle_receive(at(0), receive(ipv4_3(), ipv4_1(), &bytes));
    assert!(agent.poll_transmit().is_none());
    // with the right password it is answered at once
    let bytes = request_bytes(&agent, &remote, TransId { hi: 1, lo: 2 }, false);
    agent.handle_receive(at(0), receive(ipv4_3(), ipv4_1(), &bytes));
    assert!(agent.poll_transmit().is_some());
}

#[test]
fn use_candidate_nominates_on_controlled_side() {
    let mut agent = IceAgent::new();
    agent.add_local_candidate(Candidate::host(ipv4_1()).unwrap());
    agent.add_remote_candidate(Candidate::host(ipv4_3()).unwrap());
    let remote = remote_creds();
    agent.set_remote_credentials(remote.clone());
    let bytes = request_bytes(&agent, &remote, TransId { hi: 1, lo: 2 }, true);
    agent.handle_receive(at(0), receive(ipv4_3(), ipv4_1(), &bytes));
    assert!(agent.candidate_pairs()[0].is_nominated());
    assert!(agent.poll_transmit().is_some());
}

#[test]
fn use_candidate_is_rejected_on_controlling_side() {
    let mut agent = IceAgent::new();
    agent.set_controlling(true);
    agent.add_local_candidate(Candidate::host(ipv4_1()).unwrap());
    agent.add_remote_candidate(Candidate::host(ipv4_3()).unwrap());
    let remote = remote_creds();
    agent.set_remote_credentials(remote.clone());
    let bytes = request_bytes(&agent, &remote, TransId { hi: 1, lo: 2 }, true);
    agent.handle_receive(at(0), receive(ipv4_3(), ipv4_1(), &bytes));
    assert!(!agent.candidate_pairs()[0].is_nominated());
    assert!(agent.poll_transmit().is_none());
}

#[test]
fn nomination_on_controlling_side() {
    let mut agent = IceAgent::new();
    agent.set_controlling(true);
    assert!(agent.controlling());
    agent.add_local_candidate(Candidate::host(ipv4_1()).unwrap());
    agent.add_remote_candidate(Candidate::host(ipv4_3()).unwrap());
    let remote = remote_creds();
    agent.set_remote_credentials(remote.clone());

    // our probe goes out
    agent.handle_timeout(at(0));
    let probe = agent.poll_transmit().expect("a probe");
    let probe = StunMessage::parse(&probe.contents).unwrap();
    assert!(!probe.use_candidate());
    assert_eq!(probe.ice_controlling(), Some(0));

    // the response comes back and shows our own address
    let reply = StunMessage::reply(probe.trans_id(), ipv4_1());
    let bytes = reply.to_bytes(agent.local_credentials().password.as_bytes(), 1150).unwrap();
    agent.handle_receive(at(20), receive(ipv4_3(), ipv4_1(), &bytes));
    {
        let pair = &agent.candidate_pairs()[0];
        assert_eq!(pair.state(), CheckState::Succeeded);
        assert_eq!(pair.valid_idx(), Some(0));
        assert_eq!(pair.last_rtt(), Some(Duration::from_millis(20)));
        assert!(!pair.is_nominated());
    }

    // the peer's request makes the pair eligible and plans the nomination
    let bytes = request_bytes(&agent, &remote, TransId { hi: 3, lo: 4 }, false);
    agent.handle_receive(at(30), receive(ipv4_3(), ipv4_1(), &bytes));
    assert!(agent.poll_transmit().is_some());
    assert_eq!(agent.poll_timeout(), Some(at(80)));

    // at the planned tick the pair is nominated
    agent.handle_timeout(at(80));
    assert!(agent.candidate_pairs()[0].is_nominated());
    assert!(agent.poll_transmit().is_none());

    // and its next probe carries USE-CANDIDATE
    assert_eq!(agent.poll_timeout(), Some(at(500)));
    agent.handle_timeout(at(500));
    let probe = agent.poll_transmit().expect("a probe");
    let probe = StunMessage::parse(&probe.contents).unwrap();
    assert!(probe.use_candidate());
}

#[test]
fn response_with_unknown_mapped_address_adds_peer_reflexive_local() {
    let mut agent = IceAgent::new();
    agent.add_local_candidate(Candidate::host(ipv4_1()).unwrap());
    agent.add_remote_candidate(Candidate::host(ipv4_3()).unwrap());
    agent.set_remote_credentials(remote_creds());
    agent.handle_timeout(at(0));
    let probe = agent.poll_transmit().unwrap();
    let probe = StunMessage::parse(&probe.contents).unwrap();
    let reply = StunMessage::reply(probe.trans_id(), ipv4_2());
    let bytes = reply.to_bytes(agent.local_credentials().password.as_bytes(), 1150).unwrap();
    agent.handle_receive(at(5), receive(ipv4_3(), ipv4_1(), &bytes));
    assert_eq!(agent.local_candidates().len(), 2);
    let c = &agent.local_candidates()[1];
    assert_eq!(c.kind(), ice_agent::CandidateKind::PeerReflexive);
    assert_eq!(c.addr(), ipv4_2());
    assert_eq!(c.base(), ipv4_1());
    assert_eq!(c.prio(), (110 << 24) + (65534 << 8) + 255);
    assert_eq!(c.foundation(), "");
    assert_eq!(agent.candidate_pairs()[0].valid_idx(), Some(1));
    assert_eq!(agent.candidate_pairs()[0].state(), CheckState::Succeeded);
}

#[test]
fn late_response_is_dropped() {
    let mut agent = IceAgent::new();
    agent.add_local_candidate(Candidate::host(ipv4_1()).unwrap());
    agent.add_remote_candidate(Candidate::host(ipv4_3()).unwrap());
    agent.set_remote_credentials(remote_creds());
    let reply = StunMessage::reply(TransId { hi: 5, lo: 5 }, ipv4_2());
    let bytes = reply.to_bytes(agent.local_credentials().password.as_bytes(), 1150).unwrap();
    agent.handle_receive(at(5), receive(ipv4_3(), ipv4_1(), &bytes));
    assert_eq!(agent.local_candidates().len(), 1);
    assert_eq!(agent.candidate_pairs()[0].state(), CheckState::Waiting);
}

#[test]
fn other_datagrams_are_ignored() {
    let mut agent = IceAgent::new();
    agent.add_local_candidate(Candidate::host(ipv4_1()).unwrap());
    agent.handle_receive(
        at(0),
        Receive { source: ipv4_3(), destination: ipv4_1(), contents: Datagram::Other(vec![1, 2, 3]) },
    );
    assert!(agent.poll_transmit().is_none());
    assert!(agent.remote_candidates().is_empty());
}

#[test]
fn signalled_candidate_replaces_temporary_peer_reflexive() {
    let mut agent = IceAgent::new();
    agent.add_local_candidate(Candidate::host(ipv4_1()).unwrap());
    let remote = remote_creds();
    agent.set_remote_credentials(remote.clone());
    let bytes = request_bytes(&agent, &remote, TransId { hi: 1, lo: 2 }, false);
    agent.handle_receive(at(0), receive(ipv4_3(), ipv4_1(), &bytes));
    assert_eq!(agent.remote_candidates()[0].foundation(), "tmp_prflx");
    let c = Candidate::parsed(
        "real".to_string(),
        1,
        12345,
        ipv4_3(),
        ice_agent::CandidateKind::PeerReflexive,
        None,
    )
    .unwrap();
    assert!(agent.add_remote_candidate(c));
    assert_eq!(agent.remote_candidates().len(), 1);
    assert_eq!(agent.remote_candidates()[0].foundation(), "real");
}

#[test]
fn new_agent_has_fresh_credentials() {
    let a = IceAgent::new();
    let b = IceAgent::new();
    assert_eq!(a.local_credentials().username.len(), 4);
    assert_eq!(a.local_credentials().password.len(), 22);
    assert!(a.remote_credentials().is_none());
    assert!(!a.controlling());
    assert_ne!(a.local_credentials().password, b.local_credentials().password);
    assert!(IceAgent::with_credentials(IceCreds {
        username: "x".repeat(257),
        password: "p".to_string()
    })
    .is_none());
}

#[test]
fn is_local_socket_tells_host_and_relayed_addresses() {
    let mut agent = IceAgent::new();
    agent.add_local_candidate(Candidate::host(ipv4_1()).unwrap());
    agent.add_local_candidate(Candidate::server_reflexive(ipv4_2(), ipv4_1()).unwrap());
    assert!(agent.is_local_socket(ipv4_1()));
    assert!(!agent.is_local_socket(ipv4_2()));
}

fn live_keys(agent: &IceAgent) -> Vec<(SocketAddr, SocketAddr)> {
    agent
        .local_candidates()
        .iter()
        .filter(|c| !c.discarded())
        .map(|c| (c.addr(), c.base()))
        .collect()
}

#[test]
fn live_local_candidates_never_share_addr_and_base() {
    let mut agent = IceAgent::new();
    assert!(agent.add_local_candidate(Candidate::test_peer_rflx(ipv4_1(), ipv4_1())));
    assert!(agent.add_local_candidate(Candidate::host(ipv4_1()).unwrap()));
    // a second host candidate has a lower preference than the live one
    assert!(!agent.add_local_candidate(Candidate::host(ipv4_1()).unwrap()));
    assert!(agent.add_local_candidate(Candidate::host(ipv4_2()).unwrap()));
    agent.invalidate_candidate(&Candidate::host(ipv4_2()).unwrap());
    assert!(agent.add_local_candidate(Candidate::host(ipv4_2()).unwrap()));
    let keys = live_keys(&agent);
    for (i, a) in keys.iter().enumerate() {
        for b in &keys[i + 1..] {
            assert_ne!(a, b);
        }
    }
    assert_eq!(keys.len(), 2);
}

#[test]
fn checklist_has_one_pair_for_each_base_and_remote_address() {
    let mut agent = IceAgent::new();
    agent.add_local_candidate(Candidate::host(ipv4_1()).unwrap());
    agent.add_local_candidate(Candidate::server_reflexive(ipv4_2(), ipv4_1()).unwrap());
    agent.add_local_candidate(Candidate::host(ipv4_4()).unwrap());
    agent.add_remote_candidate(Candidate::host(ipv4_3()).unwrap());
    agent.add_remote_candidate(Candidate::host(ipv4_3()).unwrap());
    let locals = agent.local_candidates();
    let remotes = agent.remote_candidates();
    let keys: Vec<_> = agent
        .pair_indexes()
        .iter()
        .map(|(l, r)| (locals[*l].base(), remotes[*r].addr()))
        .collect();
    assert_eq!(keys.len(), 2);
    assert_ne!(keys[0], keys[1]);
}

#[test]
fn tick_with_given_transaction_id() {
    let mut agent = IceAgent::new();
    agent.add_local_candidate(Candidate::host(ipv4_1()).unwrap());
    agent.add_remote_candidate(Candidate::host(ipv4_3()).unwrap());
    agent.set_remote_credentials(remote_creds());
    let id = TransId { hi: 0xaabb_ccdd, lo: 0x1122_3344_5566_7788 };
    agent.handle_timeout_with(at(0), id);
    assert_eq!(agent.last_now(), Some(at(0)));
    let t = agent.poll_transmit().unwrap();
    let m = StunMessage::parse(&t.contents).unwrap();
    assert_eq!(m.trans_id(), id);
    assert!(agent.candidate_pairs()[0].has_binding_attempt(id));
}

#[test]
fn queue_of_early_requests_holds_a_hundred() {
    let mut agent = IceAgent::new();
    agent.add_local_candidate(Candidate::host(ipv4_1()).unwrap());
    let remote = remote_creds();
    for k in 0..120u64 {
        let bytes = request_bytes(&agent, &remote, TransId { hi: 0, lo: k }, false);
        agent.handle_receive(at(0), receive(ipv4_3(), ipv4_1(), &bytes));
    }
    agent.set_remote_credentials(remote);
    let mut answered = Vec::new();
    let mut now = 0;
    for _ in 0..200 {
        agent.handle_timeout(at(now));
        while let Some(t) = agent.poll_transmit() {
            let m = StunMessage::parse(&t.contents).unwrap();
            if m.is_successful_binding_response() {
                answered.push(m.trans_id().lo);
            }
        }
        now += 50;
    }
    // the twenty oldest were dropped, the rest is answered in order
    assert_eq!(answered, (20..120).collect::<Vec<u64>>());
}

#[test]
fn request_never_makes_the_checklist_longer_than_it_may_be() {
    let mut agent = IceAgent::new();
    agent.add_local_candidate(Candidate::host(ipv4_1()).unwrap());
    agent.set_max_candidate_pairs(0);
    let remote = remote_creds();
    let id = TransId { hi: 1, lo: 2 };
    let bytes = request_bytes(&agent, &remote, id, false);
    agent.handle_receive(at(0), receive(ipv4_3(), ipv4_1(), &bytes));
    agent.set_remote_credentials(remote);
    agent.handle_timeout_with(at(10), TransId { hi: 0, lo: 0 });
    // the request is answered, but no pair finds room
    assert!(agent.candidate_pairs().is_empty());
    let t = agent.poll_transmit().expect("a response");
    let m = StunMessage::parse(&t.contents).unwrap();
    assert!(m.is_successful_binding_response());
    assert_eq!(m.trans_id(), id);
    assert_eq!(t.source, ipv4_1());
    assert_eq!(t.destination, ipv4_3());
    assert_eq!(agent.remote_candidates().len(), 1);
}

#[test]
fn full_checklist_keeps_its_size_when_a_request_brings_a_pair() {
    let mut agent = IceAgent::new();
    agent.set_max_candidate_pairs(2);
    agent.add_local_candidate(Candidate::host(ipv4_1()).unwrap());
    agent.add_remote_candidate(Candidate::host(ipv4_3()).unwrap());
    agent.add_remote_candidate(Candidate::host(ipv4_4()).unwrap());
    assert_eq!(agent.candidate_pairs().len(), 2);
    let remote = remote_creds();
    agent.set_remote_credentials(remote.clone());
    let bytes = request_bytes(&agent, &remote, TransId { hi: 1, lo: 2 }, false);
    agent.handle_receive(at(0), receive(ipv4_2(), ipv4_1(), &bytes));
    assert!(agent.poll_transmit().is_some());
    let pairs = agent.candidate_pairs();
    assert_eq!(pairs.len(), 2);
    assert!(pairs[0].prio() >= pairs[1].prio());
}

#[test]
fn request_to_a_host_that_was_added_again_keeps_one_pair() {
    let mut agent = IceAgent::new();
    agent.add_local_candidate(Candidate::host(ipv4_1()).unwrap());
    agent.invalidate_candidate(&Candidate::host(ipv4_1()).unwrap());
    agent.add_local_candidate(Candidate::host(ipv4_1()).unwrap());
    agent.add_remote_candidate(Candidate::host(ipv4_3()).unwrap());
    assert_eq!(agent.pair_indexes(), [(1, 0)]);
    let remote = remote_creds();
    let bytes = request_bytes(&agent, &remote, TransId { hi: 1, lo: 2 }, false);
    agent.handle_receive(at(0), receive(ipv4_3(), ipv4_1(), &bytes));
    agent.set_remote_credentials(remote);
    agent.handle_timeout_with(at(10), TransId { hi: 0, lo: 0 });
    assert!(agent.poll_transmit().is_some());
    // one pair for the base and the remote address, and it has counted the request
    let locals = agent.local_candidates();
    let remotes = agent.remote_candidates();
    let keys: Vec<_> = agent
        .pair_indexes()
        .iter()
        .map(|(l, r)| (locals[*l].base(), remotes[*r].addr()))
        .collect();
    assert_eq!(keys, vec![(ipv4_1(), ipv4_3())]);
    assert_eq!(agent.candidate_pairs()[0].remote_binding_requests(), 1);
}

#[test]
fn request_to_an_unknown_socket_may_wait_in_the_queue() {
    let mut agent = IceAgent::new();
    let remote = remote_creds();
    let bytes = request_bytes(&agent, &remote, TransId { hi: 1, lo: 2 }, false);
    let r = receive(ipv4_3(), ipv4_1(), &bytes);
    assert!(!agent.answers_at_once(at(0), &r));
    agent.handle_receive(at(0), r);
    assert_eq!(agent.due_destination(at(10)), None);
    agent.set_remote_credentials(remote.clone());
    // with the credentials the tick would answer it, at the address it came to
    assert_eq!(agent.due_destination(at(10)), Some(ipv4_1()));
    assert!(!agent.is_local_socket(ipv4_1()));
    agent.add_local_candidate(Candidate::host(ipv4_1()).unwrap());
    assert!(agent.is_local_socket(ipv4_1()));
    agent.handle_timeout(at(10));
    assert!(agent.poll_transmit().is_some());
    // a request that comes now is answered at once
    let bytes = request_bytes(&agent, &remote, TransId { hi: 1, lo: 3 }, false);
    let r = receive(ipv4_3(), ipv4_1(), &bytes);
    assert!(agent.answers_at_once(at(20), &r));
    // within the timing advance no queued request is due
    assert_eq!(agent.due_destination(at(20)), None);
}

#[test]
fn local_preferences_of_one_kind_and_family_differ() {
    let mut agent = IceAgent::new();
    for k in 0..6u8 {
        agent.add_local_candidate(Candidate::host(SocketAddr::v4(10, 0, 0, k + 1, 5000)).unwrap());
        agent.add_local_candidate(Candidate::host(SocketAddr::v6(k as u128 + 1, 5000)).unwrap());
    }
    agent.invalidate_candidate(&Candidate::host(SocketAddr::v4(10, 0, 0, 2, 5000)).unwrap());
    agent.add_local_candidate(Candidate::host(SocketAddr::v4(10, 0, 0, 2, 5000)).unwrap());
    let prefs: Vec<_> = agent
        .local_candidates()
        .iter()
        .map(|c| (c.addr().is_ipv6(), c.local_preference()))
        .collect();
    for (i, a) in prefs.iter().enumerate() {
        for b in &prefs[i + 1..] {
            assert_ne!(a, b);
        }
    }
    assert_eq!(prefs[12], (false, 65534 - 2 * 6));
}
