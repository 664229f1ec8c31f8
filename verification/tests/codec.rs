use ice_agent::crc::checksum;
use ice_agent::stun::AttributeName;
use ice_agent::{
    sha1_hmac, Candidate, CandidateKind, CandidatePair, CheckState, CryptoProvider, Duration,
    IceError, Instant, SocketAddr, StunClass, StunError, StunMessage, TransId,
};

fn hex(s: &str) -> Vec<u8> {
    let digits: Vec<u8> = s.bytes().filter(|b| b.is_ascii_hexdigit()).collect();
    digits
        .chunks(2)
        .map(|p| {
            let hi = (p[0] as char).to_digit(16).unwrap() as u8;
            let lo = (p[1] as char).to_digit(16).unwrap() as u8;
            hi * 16 + lo
        })
        .collect()
}

const SAMPLE_REQUEST: &str = "
    00 01 00 58 21 12 a4 42 b7 e7 a7 01 bc 34 d6 86 fa 87 df ae
    80 22 00 10 53 54 55 4e 20 74 65 73 74 20 63 6c 69 65 6e 74
    00 24 00 04 6e 00 01 ff
    80 29 00 08 93 2f f9 b1 51 26 3b 36
    00 06 00 09 65 76 74 6a 3a 68 36 76 59 20 20 20
    00 08 00 14 9a ea a7 0c bf d8 cb 56 78 1e f2 b5 b2 d3 f2 49 c1 b5 71 a2
    80 28 00 04 e5 7a 3b cf";

#[test]
fn crc32_check_value() {
    assert_eq!(checksum(b"123456789"), 0xCBF4_3926);
    assert_eq!(checksum(b""), 0);
}

#[test]
fn hmac_sha1_known_answer() {
    let mac = sha1_hmac(b"Jefe", &[b"what do ya want for nothing?"]);
    assert_eq!(mac.to_vec(), hex("effcdf6ae5eb2fa2d27416d5f184df9c259a7c79"));
    // the payloads are taken together
    let split = sha1_hmac(b"Jefe", &[b"what do ya ", b"want for nothing?"]);
    assert_eq!(split, mac);
}

#[test]
fn parses_sample_request() {
    let bytes = hex(SAMPLE_REQUEST);
    let m = StunMessage::parse(&bytes).unwrap();
    assert_eq!(m.class(), StunClass::Request);
    assert!(m.is_binding_request());
    assert!(!m.is_response());
    assert_eq!(m.trans_id(), TransId { hi: 0xb7e7a701, lo: 0xbc34d686fa87dfae });
    assert_eq!(m.prio(), Some(0x6e0001ff));
    assert_eq!(m.ice_controlled(), Some(0x932ff9b151263b36));
    assert_eq!(m.ice_controlling(), None);
    assert!(!m.use_candidate());
    assert_eq!(m.username().unwrap(), b"evtj:h6vY".to_vec());
    let (after, before) = m.split_username().unwrap();
    assert_eq!(after, b"h6vY".to_vec());
    assert_eq!(before, b"evtj".to_vec());
    assert!(m.check_integrity(b"VOkJxbRl1RmTxUk/WvJxBt"));
    assert!(!m.check_integrity(b"VOkJxbRl1RmTxUk/WvJxBx"));
}

#[test]
fn bad_fingerprint_is_reported() {
    let mut bytes = hex(SAMPLE_REQUEST);
    let n = bytes.len();
    bytes[n - 1] ^= 1;
    assert_eq!(StunMessage::parse(&bytes).unwrap_err(), StunError::BadFingerprint);
    // so is a change anywhere before it
    let mut bytes = hex(SAMPLE_REQUEST);
    bytes[30] ^= 1;
    assert_eq!(StunMessage::parse(&bytes).unwrap_err(), StunError::BadFingerprint);
}

#[test]
fn malformed_messages_are_reported() {
    assert_eq!(StunMessage::parse(&[]).unwrap_err(), StunError::MalformedMessage);
    assert_eq!(StunMessage::parse(&[0u8; 19]).unwrap_err(), StunError::MalformedMessage);
    let good = hex(SAMPLE_REQUEST);
    // wrong magic cookie
    let mut b = good.clone();
    b[4] = 0;
    assert_eq!(StunMessage::parse(&b).unwrap_err(), StunError::MalformedMessage);
    // another method
    let mut b = good.clone();
    b[1] = 2;
    assert_eq!(StunMessage::parse(&b).unwrap_err(), StunError::MalformedMessage);
    // a length that does not count the rest
    let mut b = good.clone();
    b.push(0);
    assert_eq!(StunMessage::parse(&b).unwrap_err(), StunError::MalformedMessage);
    let b = &good[..good.len() - 4];
    assert_eq!(StunMessage::parse(b).unwrap_err(), StunError::MalformedMessage);
    // an attribute that runs over the end
    let mut b = good.clone();
    b[23] = 0xff;
    assert_eq!(StunMessage::parse(&b).unwrap_err(), StunError::MalformedMessage);
}

fn header(typ: u16, len: u16) -> Vec<u8> {
    let mut b = vec![(typ >> 8) as u8, typ as u8, (len >> 8) as u8, len as u8];
    b.extend_from_slice(&[0x21, 0x12, 0xa4, 0x42]);
    b.extend_from_slice(&[1, 2, 3, 4, 5, 6, 7, 8, 9, 10, 11, 12]);
    b
}

#[test]
fn missing_attributes_are_reported() {
    // a request with nothing in it
    assert_eq!(
        StunMessage::parse(&header(0x0001, 0)).unwrap_err(),
        StunError::MissingAttribute(AttributeName::Username)
    );
    // a success response with nothing in it
    assert_eq!(
        StunMessage::parse(&header(0x0101, 0)).unwrap_err(),
        StunError::MissingAttribute(AttributeName::MappedAddress)
    );
    // a request with a username only
    let mut b = header(0x0001, 8);
    b.extend_from_slice(&[0x00, 0x06, 0x00, 0x03, b'a', b':', b'b', 0]);
    assert_eq!(
        StunMessage::parse(&b).unwrap_err(),
        StunError::MissingAttribute(AttributeName::MessageIntegrity)
    );
    // a request with username and integrity but no fingerprint
    let mut b = header(0x0001, 32);
    b.extend_from_slice(&[0x00, 0x06, 0x00, 0x03, b'a', b':', b'b', 0]);
    b.extend_from_slice(&[0x00, 0x08, 0x00, 0x14]);
    b.extend_from_slice(&[0u8; 20]);
    assert_eq!(
        StunMessage::parse(&b).unwrap_err(),
        StunError::MissingAttribute(AttributeName::Fingerprint)
    );
    assert_eq!(AttributeName::Fingerprint.name(), "FINGERPRINT");
    // an indication needs none of them
    let m = StunMessage::parse(&header(0x0011, 0)).unwrap();
    assert_eq!(m.class(), StunClass::Indication);
    assert!(!m.check_integrity(b"any"));
}

#[test]
fn request_round_trip() {
    let id = TransId { hi: 0xdead_beef, lo: 0x0123_4567_89ab_cdef };
    for (controlling, use_candidate) in [(true, true), (true, false), (false, false)] {
        let m = StunMessage::binding_request(b"left:right", id, controlling, 0x7e00_01ff, use_candidate);
        let bytes = m.to_bytes(b"secret", 1150).unwrap();
        assert_eq!(bytes.len() % 4, 0);
        let p = StunMessage::parse(&bytes).unwrap();
        assert_eq!(p.class(), StunClass::Request);
        assert_eq!(p.trans_id(), id);
        assert_eq!(p.prio(), Some(0x7e00_01ff));
        assert_eq!(p.use_candidate(), use_candidate);
        assert_eq!(p.ice_controlling().is_some(), controlling);
        assert_eq!(p.ice_controlled().is_some(), !controlling);
        assert_eq!(p.username().unwrap(), b"left:right".to_vec());
        assert!(p.check_integrity(b"secret"));
        assert!(!p.check_integrity(b"other"));
    }
}

#[test]
fn request_bytes_are_exact() {
    let id = TransId { hi: 0x0102_0304, lo: 0x0506_0708_090a_0b0c };
    let m = StunMessage::binding_request(b"a:b", id, true, 1, true);
    let bytes = m.to_bytes(b"pw", 1150).unwrap();
    let expected_start = hex(
        "00 01 00 40 21 12 a4 42 01 02 03 04 05 06 07 08 09 0a 0b 0c
         00 06 00 03 61 3a 62 00
         00 24 00 04 00 00 00 01
         80 2a 00 08 00 00 00 00 00 00 00 00
         00 25 00 00
         00 08 00 14",
    );
    assert_eq!(&bytes[..expected_start.len()], &expected_start[..]);
    assert_eq!(bytes.len(), 20 + 0x40);
    assert_eq!(&bytes[bytes.len() - 8..bytes.len() - 4], &[0x80, 0x28, 0x00, 0x04]);
}

#[test]
fn reply_round_trip_ipv4_and_ipv6() {
    let id = TransId { hi: 1, lo: 2 };
    for addr in [
        SocketAddr::v4(192, 0, 2, 1, 32853),
        SocketAddr::v6(0x2001_0db8_1234_5678_0011_2233_4455_6677, 32853),
    ] {
        let m = StunMessage::reply(id, addr);
        let bytes = m.to_bytes(b"pw", 1150).unwrap();
        let p = StunMessage::parse(&bytes).unwrap();
        assert!(p.is_successful_binding_response());
        assert!(p.is_response());
        assert_eq!(p.mapped_address(), Some(addr));
        assert_eq!(p.trans_id(), id);
        assert!(p.check_integrity(b"pw"));
    }
}

#[test]
fn xor_mapped_address_is_xored_on_the_wire() {
    let m = StunMessage::reply(TransId { hi: 0, lo: 0 }, SocketAddr::v4(192, 0, 2, 1, 32853));
    let bytes = m.to_bytes(b"pw", 1150).unwrap();
    // 32853 = 0x8055; 0x8055 ^ 0x2112 = 0xa147; 192.0.2.1 ^ 0x2112a442 = e1 12 a6 43
    assert_eq!(&bytes[20..32], &hex("00 20 00 08 00 01 a1 47 e1 12 a6 43")[..]);
}

#[test]
fn too_long_message_is_not_written() {
    let m = StunMessage::binding_request(&[b'x'; 514], TransId { hi: 0, lo: 0 }, true, 1, false);
    assert!(m.to_bytes(b"pw", 1150).is_none());
    let m = StunMessage::binding_request(&[b'x'; 100], TransId { hi: 0, lo: 0 }, true, 1, false);
    assert!(m.to_bytes(b"pw", 100).is_none());
    assert!(m.to_bytes(b"pw", 1150).is_some());
}

#[test]
fn candidate_priority_formula() {
    let c = Candidate::host(SocketAddr::v4(1, 2, 3, 4, 5000)).unwrap();
    // 2^24 * 126 + 2^8 * 65534 + (256 - 1)
    assert_eq!(c.prio(), 2130706175);
    assert_eq!(c.prio_prflx(), (110 << 24) + (65534 << 8) + 255);
    let c6 = Candidate::host(SocketAddr::v6(1, 5000)).unwrap();
    assert_eq!(c6.prio(), (126 << 24) + (65535 << 8) + 255);
    let r = Candidate::relayed(SocketAddr::v4(1, 2, 3, 4, 5000)).unwrap();
    assert_eq!(r.prio(), (65534 << 8) + 255);
    let s = Candidate::server_reflexive(SocketAddr::v4(1, 2, 3, 4, 5000), SocketAddr::v4(10, 0, 0, 1, 1)).unwrap();
    assert_eq!(s.prio(), (100 << 24) + (65534 << 8) + 255);
    assert_eq!(s.base(), SocketAddr::v4(10, 0, 0, 1, 1));
    assert_eq!(s.kind(), CandidateKind::ServerReflexive);
    let p = Candidate::peer_reflexive(SocketAddr::v4(1, 2, 3, 4, 5000), SocketAddr::v4(1, 2, 3, 4, 1), 77, None);
    assert_eq!(p.prio(), 77);
    assert_eq!(p.prio_prflx(), 77);
    assert_eq!(CandidateKind::Host.type_preference(), 126);
    assert_eq!(CandidateKind::Relayed.counter_start(), 16383);
}

#[test]
fn bad_candidates_are_refused() {
    for addr in [
        SocketAddr::v4(0, 0, 0, 0, 1),
        SocketAddr::v4(255, 255, 255, 255, 1),
        SocketAddr::v4(224, 0, 0, 1, 1),
        SocketAddr::v4(169, 254, 1, 1, 1),
        SocketAddr::v6(0, 1),
        SocketAddr::v6(0xff02_u128 << 112, 1),
    ] {
        match Candidate::host(addr) {
            Err(IceError::BadCandidate(_)) => {}
            Ok(_) => panic!("accepted {:?}", addr),
        }
    }
    let e = Candidate::host(SocketAddr::v4(0, 0, 0, 0, 1)).unwrap_err();
    assert_eq!(e.message(), "ICE bad candidate: invalid ip");
    assert!(Candidate::parsed("f".into(), 0, 1, SocketAddr::v4(1, 1, 1, 1, 1), CandidateKind::Host, None).is_err());
    assert!(Candidate::parsed("f".into(), 257, 1, SocketAddr::v4(1, 1, 1, 1, 1), CandidateKind::Host, None).is_err());
    assert!(Candidate::parsed("f".into(), 256, 1, SocketAddr::v4(1, 1, 1, 1, 1), CandidateKind::Host, None).is_ok());
}

#[test]
fn pair_priority_formula() {
    // g = controlling side's priority, d = controlled side's
    // 2^32 * min + 2 * max + (g > d)
    assert_eq!(CandidatePair::calculate_prio(true, 10, 20), (10u64 << 32) + 2 * 20 + 1);
    assert_eq!(CandidatePair::calculate_prio(false, 10, 20), (10u64 << 32) + 2 * 20);
    assert_eq!(CandidatePair::calculate_prio(true, 5, 5), (5u64 << 32) + 10);
    assert_eq!(CandidatePair::calculate_prio(true, u32::MAX, u32::MAX), u64::MAX);
}

#[test]
fn pair_attempts_and_responses() {
    let t0 = Instant::from_micros(1_000_000);
    let mut p = CandidatePair::new(1, 2, 99);
    assert_eq!(p.state(), CheckState::Waiting);
    assert_eq!(p.local_idx(), 1);
    assert_eq!(p.remote_idx(), 2);
    assert_eq!(p.prio(), 99);
    assert_eq!(p.next_binding_attempt(t0), t0);
    assert!(p.is_still_possible(t0));

    let id = TransId { hi: 1, lo: 1 };
    assert_eq!(p.new_attempt(t0, id), id);
    assert_eq!(p.state(), CheckState::InProgress);
    assert!(p.has_binding_attempt(id));
    assert!(!p.has_binding_attempt(TransId { hi: 1, lo: 2 }));
    assert_eq!(p.next_binding_attempt(t0), t0.saturating_add(Duration::from_millis(500)));

    // a response to an unknown request changes nothing
    p.record_binding_response(t0, TransId { hi: 9, lo: 9 }, 0);
    assert_eq!(p.state(), CheckState::InProgress);

    let t1 = t0.saturating_add(Duration::from_millis(30));
    p.record_binding_response(t1, id, 4);
    assert_eq!(p.state(), CheckState::Succeeded);
    assert_eq!(p.valid_idx(), Some(4));
    assert_eq!(p.last_rtt(), Some(Duration::from_millis(30)));
    assert!(!p.has_binding_attempt(id));

    assert_eq!(p.remote_binding_requests(), 0);
    p.increase_remote_binding_requests();
    assert_eq!(p.remote_binding_requests(), 1);
    assert!(!p.is_nominated());
    p.nominate();
    assert!(p.is_nominated());
}

#[test]
fn pair_retransmit_schedule_and_failure() {
    let t0 = Instant::from_micros(0);
    let mut p = CandidatePair::new(0, 0, 1);
    let waits = [500u64, 1000, 2000, 4000, 8000, 16000, 8000];
    let mut now = t0;
    for (k, wait) in waits.iter().enumerate() {
        p.new_attempt(now, TransId { hi: 0, lo: k as u64 });
        let due = p.peek_next_binding_attempt(now);
        assert_eq!(due, now.saturating_add(Duration::from_millis(*wait)));
        assert!(p.is_still_possible(now));
        now = due;
    }
    assert_eq!(now, Instant::from_micros(39_500_000));
    assert!(!p.is_still_possible(now));
    assert!(p.is_still_possible(Instant::from_micros(39_499_999)));
    assert_eq!(p.state(), CheckState::InProgress);
    p.next_binding_attempt(now);
    assert_eq!(p.state(), CheckState::Failed);
    assert_eq!(ice_agent::stun::stun_resend_delay(3), Duration::from_millis(2000));
}

#[test]
fn crypto_provider_names() {
    assert_eq!(CryptoProvider::OpenSsl.name(), "openssl");
    assert_eq!(CryptoProvider::WinCrypto.name(), "wincrypto");
}

#[test]
fn integrity_failure_as_error() {
    let m = StunMessage::parse(&hex(SAMPLE_REQUEST)).unwrap();
    assert_eq!(m.verify_integrity(b"VOkJxbRl1RmTxUk/WvJxBt"), Ok(()));
    assert_eq!(m.verify_integrity(b"wrong"), Err(StunError::BadIntegrity));
}
