//! The STUN messages of ICE connectivity checks: Binding requests and
//! Binding success responses, with message integrity and fingerprint.

use vstd::prelude::*;
use crate::addr::{IpAddr, SocketAddr};
use crate::bytes::{
    bytes_eq,
    copy_range,
    extend,
    push_be128,
    push_be16,
    push_be32,
    push_be64,
    push_zeros,
    read_be128,
    read_be16,
    read_be32,
    read_be64,
};
use crate::crc::checksum;
use crate::crypto::sha1_hmac;
use crate::time::Duration;
use crate::wire::{
    ATTR_FINGERPRINT,
    ATTR_ICE_CONTROLLED,
    ATTR_ICE_CONTROLLING,
    ATTR_MAPPED_ADDRESS,
    ATTR_MESSAGE_INTEGRITY,
    ATTR_PRIORITY,
    ATTR_USE_CANDIDATE,
    ATTR_USERNAME,
    ATTR_XOR_MAPPED_ADDRESS,
    FINGERPRINT_XOR,
    HEADER_LEN,
    MAGIC_COOKIE,
    MAX_USERNAME_LEN,
    Scan,
};

verus! {

/// The class of a STUN message.
#[derive(Debug, Clone, Copy, PartialEq, Eq, Structural, Hash)]
pub enum StunClass {
    Request,
    Indication,
    Success,
    Failure,
}

/// The attributes that a message can be refused for lacking.
#[derive(Debug, Clone, Copy, PartialEq, Eq, Structural, Hash)]
pub enum AttributeName {
    Username,
    MessageIntegrity,
    Fingerprint,
    MappedAddress,
}

/// Why bytes were not taken as a STUN message.
#[derive(Debug, Clone, Copy, PartialEq, Eq, Structural, Hash)]
pub enum StunError {
    /// The bytes are not a well-formed Binding message.
    MalformedMessage,
    /// An attribute that the message's class requires is absent.
    MissingAttribute(AttributeName),
    /// The fingerprint does not match the bytes before it.
    BadFingerprint,
    /// The message integrity does not verify.
    BadIntegrity,
}

/// The message-integrity attribute of a received message.
pub struct IntegrityView {
    /// The twenty bytes of the attribute's value.
    pub mac: Seq<u8>,
    /// The bytes that the code covers: the message up to the attribute,
    /// its length field counting up to the attribute's end.
    pub covered: Seq<u8>,
}

/// What a STUN Binding message holds.
pub struct StunMessageView {
    pub class: StunClass,
    pub trans_id: TransId,
    pub username: Option<Seq<u8>>,
    pub prio: Option<u32>,
    pub use_candidate: bool,
    pub ice_controlling: Option<u64>,
    pub ice_controlled: Option<u64>,
    pub mapped_address: Option<SocketAddr>,
    pub integrity: Option<IntegrityView>,
}

/// The 96-bit transaction id of a STUN message: on the wire the four bytes
/// of `hi`, then the eight bytes of `lo`, each most significant first.
#[derive(Debug, Clone, Copy, PartialEq, Eq, Structural, Hash)]
pub struct TransId {
    pub hi: u32,
    pub lo: u64,
}

/// The initial retransmission timeout in microseconds (500 ms).
pub const STUN_INITIAL_RTO_MICROS: u64 = 500_000;

/// How many requests are sent for one check before it fails.
pub const STUN_MAX_RETRANS: usize = 7;

/// How long the last request of a check is waited for, in microseconds:
/// sixteen times the initial timeout.
pub const STUN_LAST_WAIT_MICROS: u64 = 8_000_000;

/// The time after which a check has failed, in microseconds (39.5 s): the
/// waits after each of the seven requests together.
pub const STUN_TIMEOUT_MICROS: u64 = 39_500_000;

/// The wait after a request when `outstanding` requests of the check are
/// unanswered: 500 ms after the first, doubling with each further one, and
/// 8 s after the seventh. With none outstanding it is 500 ms.
pub open spec fn resend_delay_micros(outstanding: nat) -> u64 {
    if outstanding <= 1 {
        500_000
    } else if outstanding == 2 {
        1_000_000
    } else if outstanding == 3 {
        2_000_000
    } else if outstanding == 4 {
        4_000_000
    } else if outstanding == 5 {
        8_000_000
    } else if outstanding == 6 {
        16_000_000
    } else {
        8_000_000
    }
}

/// The wait after a request when `outstanding` requests are unanswered.
pub fn stun_resend_delay(outstanding: usize) -> (d: Duration)
    ensures
        d.micros == resend_delay_micros(outstanding as nat),
{
    let micros: u64 = if outstanding <= 1 {
        500_000
    } else if outstanding == 2 {
        1_000_000
    } else if outstanding == 3 {
        2_000_000
    } else if outstanding == 4 {
        4_000_000
    } else if outstanding == 5 {
        8_000_000
    } else if outstanding == 6 {
        16_000_000
    } else {
        8_000_000
    };
    Duration::from_micros(micros)
}

/// The waits after the seven requests of a check add up to the timeout.
pub proof fn lemma_resend_delays_sum()
    ensures
        resend_delay_micros(1) + resend_delay_micros(2) + resend_delay_micros(3)
            + resend_delay_micros(4) + resend_delay_micros(5) + resend_delay_micros(6)
            + resend_delay_micros(7) == STUN_TIMEOUT_MICROS,
{
}


impl AttributeName {
    /// The attribute's name as the STUN documents write it.
    pub fn name(&self) -> (r: &'static str)
        ensures
            r@ == (match *self {
                AttributeName::Username => "USERNAME"@,
                AttributeName::MessageIntegrity => "MESSAGE-INTEGRITY"@,
                AttributeName::Fingerprint => "FINGERPRINT"@,
                AttributeName::MappedAddress => "XOR-MAPPED-ADDRESS"@,
            }),
    {
        match self {
            AttributeName::Username => "USERNAME",
            AttributeName::MessageIntegrity => "MESSAGE-INTEGRITY",
            AttributeName::Fingerprint => "FINGERPRINT",
            AttributeName::MappedAddress => "XOR-MAPPED-ADDRESS",
        }
    }
}

/// The message-integrity attribute of a received message.
#[derive(Debug)]
pub struct Integrity {
    mac: Vec<u8>,
    covered: Vec<u8>,
}

/// A STUN Binding message.
#[derive(Debug)]
pub struct StunMessage {
    class: StunClass,
    trans_id: TransId,
    username: Option<Vec<u8>>,
    prio: Option<u32>,
    use_candidate: bool,
    ice_controlling: Option<u64>,
    ice_controlled: Option<u64>,
    mapped_address: Option<SocketAddr>,
    integrity: Option<Integrity>,
}

impl View for StunMessage {
    type V = StunMessageView;

    closed spec fn view(&self) -> StunMessageView {
        StunMessageView {
            class: self.class,
            trans_id: self.trans_id,
            username: match self.username {
                Some(u) => Some(u@),
                None => None,
            },
            prio: self.prio,
            use_candidate: self.use_candidate,
            ice_controlling: self.ice_controlling,
            ice_controlled: self.ice_controlled,
            mapped_address: self.mapped_address,
            integrity: match self.integrity {
                Some(i) => Some(IntegrityView { mac: i.mac@, covered: i.covered@ }),
                None => None,
            },
        }
    }
}

impl StunMessageView {
    /// The Binding request that an agent sends: the username, the
    /// priority, its role with tie-breaker zero, and USE-CANDIDATE if
    /// asked for.
    pub open spec fn binding_request(
        username: Seq<u8>,
        trans_id: TransId,
        controlling: bool,
        prio: u32,
        use_candidate: bool,
    ) -> StunMessageView {
        StunMessageView {
            class: StunClass::Request,
            trans_id,
            username: Some(username),
            prio: Some(prio),
            use_candidate,
            ice_controlling: if controlling {
                Some(0u64)
            } else {
                None
            },
            ice_controlled: if controlling {
                None
            } else {
                Some(0u64)
            },
            mapped_address: None,
            integrity: None,
        }
    }

    /// The Binding success response to the request `trans_id` that came
    /// from `mapped`.
    pub open spec fn reply(trans_id: TransId, mapped: SocketAddr) -> StunMessageView {
        StunMessageView {
            class: StunClass::Success,
            trans_id,
            username: None,
            prio: None,
            use_candidate: false,
            ice_controlling: None,
            ice_controlled: None,
            mapped_address: Some(mapped),
            integrity: None,
        }
    }
}

fn push_attr(dst: &mut Vec<u8>, typ: u16, value: &[u8])
    requires
        value@.len() <= 0xffff,
    ensures
        final(dst)@ == old(dst)@ + crate::wire::attr(typ, value@),
{
    let n: usize = value.len();
    push_be16(dst, typ);
    push_be16(dst, n as u16);
    extend(dst, value);
    let pad: usize = (4 - n % 4) % 4;
    push_zeros(dst, pad);
    assert(dst@ =~= old(dst)@ + crate::wire::attr(typ, value@));
}

fn xor_address_value(addr: SocketAddr, id: TransId) -> (r: Vec<u8>)
    ensures
        r@ == crate::wire::xor_address_value(addr, id),
        r@.len() == 8 || r@.len() == 20,
{
    let mut r: Vec<u8> = Vec::new();
    r.push(0);
    match addr.ip {
        IpAddr::V4(v) => {
            r.push(1);
            push_be16(&mut r, addr.port ^ 0x2112);
            push_be32(&mut r, v ^ MAGIC_COOKIE);
            assert(r@ =~= crate::wire::xor_address_value(addr, id));
        },
        IpAddr::V6(v) => {
            r.push(2);
            push_be16(&mut r, addr.port ^ 0x2112);
            let key: u128 = ((MAGIC_COOKIE as u128) << 96) | ((id.hi as u128) << 64) | (id.lo
                as u128);
            push_be128(&mut r, v ^ key);
            assert(r@ =~= crate::wire::xor_address_value(addr, id));
        },
    }
    r
}

fn push_header(dst: &mut Vec<u8>, class: StunClass, length: u16, id: TransId)
    ensures
        final(dst)@ == old(dst)@ + crate::wire::header(class, length, id),
{
    let typ: u16 = match class {
        StunClass::Request => 0x0001,
        StunClass::Indication => 0x0011,
        StunClass::Success => 0x0101,
        StunClass::Failure => 0x0111,
    };
    push_be16(dst, typ);
    push_be16(dst, length);
    push_be32(dst, MAGIC_COOKIE);
    push_be32(dst, id.hi);
    push_be64(dst, id.lo);
    assert(dst@ =~= old(dst)@ + crate::wire::header(class, length, id));
}

impl StunMessage {
    /// A Binding request with the given username and priority, the role
    /// attribute that `controlling` asks for, and USE-CANDIDATE if
    /// `use_candidate`.
    pub fn binding_request(
        username: &[u8],
        trans_id: TransId,
        controlling: bool,
        prio: u32,
        use_candidate: bool,
    ) -> (m: StunMessage)
        ensures
            m@ == StunMessageView::binding_request(
                username@,
                trans_id,
                controlling,
                prio,
                use_candidate,
            ),
    {
        let name = copy_range(username, 0, username.len());
        assert(name@ =~= username@);
        StunMessage {
            class: StunClass::Request,
            trans_id,
            username: Some(name),
            prio: Some(prio),
            use_candidate,
            ice_controlling: if controlling {
                Some(0u64)
            } else {
                None
            },
            ice_controlled: if controlling {
                None
            } else {
                Some(0u64)
            },
            mapped_address: None,
            integrity: None,
        }
    }

    /// The Binding success response to the request `trans_id` received
    /// from `mapped`.
    pub fn reply(trans_id: TransId, mapped: SocketAddr) -> (m: StunMessage)
        ensures
            m@ == StunMessageView::reply(trans_id, mapped),
    {
        StunMessage {
            class: StunClass::Success,
            trans_id,
            username: None,
            prio: None,
            use_candidate: false,
            ice_controlling: None,
            ice_controlled: None,
            mapped_address: Some(mapped),
            integrity: None,
        }
    }

    pub fn class(&self) -> (r: StunClass)
        ensures
            r == self@.class,
    {
        self.class
    }

    pub fn trans_id(&self) -> (r: TransId)
        ensures
            r == self@.trans_id,
    {
        self.trans_id
    }

    pub fn is_binding_request(&self) -> (r: bool)
        ensures
            r == (self@.class is Request),
    {
        self.class == StunClass::Request
    }

    /// Whether the message is a response, successful or not.
    pub fn is_response(&self) -> (r: bool)
        ensures
            r == (self@.class is Success || self@.class is Failure),
    {
        self.class == StunClass::Success || self.class == StunClass::Failure
    }

    pub fn is_successful_binding_response(&self) -> (r: bool)
        ensures
            r == (self@.class is Success),
    {
        self.class == StunClass::Success
    }

    /// The value of PRIORITY.
    pub fn prio(&self) -> (r: Option<u32>)
        ensures
            r == self@.prio,
    {
        self.prio
    }

    /// Whether USE-CANDIDATE is present.
    pub fn use_candidate(&self) -> (r: bool)
        ensures
            r == self@.use_candidate,
    {
        self.use_candidate
    }

    /// The tie-breaker of ICE-CONTROLLING.
    pub fn ice_controlling(&self) -> (r: Option<u64>)
        ensures
            r == self@.ice_controlling,
    {
        self.ice_controlling
    }

    /// The tie-breaker of ICE-CONTROLLED.
    pub fn ice_controlled(&self) -> (r: Option<u64>)
        ensures
            r == self@.ice_controlled,
    {
        self.ice_controlled
    }

    /// The address of XOR-MAPPED-ADDRESS, or else of MAPPED-ADDRESS.
    pub fn mapped_address(&self) -> (r: Option<SocketAddr>)
        ensures
            r == self@.mapped_address,
    {
        self.mapped_address
    }

    /// The value of USERNAME.
    pub fn username(&self) -> (r: Option<Vec<u8>>)
        ensures
            match r {
                Some(u) => self@.username == Some(u@),
                None => self@.username is None,
            },
    {
        match &self.username {
            Some(u) => {
                let c = copy_range(u.as_slice(), 0, u.len());
                assert(c@ =~= u@);
                Some(c)
            },
            None => None,
        }
    }

    /// The username split on its first colon: first what follows the
    /// colon, then what precedes it. None without a username or a colon.
    pub fn split_username(&self) -> (r: Option<(Vec<u8>, Vec<u8>)>)
        ensures
            match r {
                Some((right, left)) => self@.username is Some && crate::wire::split_username(
                    self@.username->0,
                ) == Some((right@, left@)),
                None => self@.username is None || crate::wire::split_username(self@.username->0)
                    is None,
            },
    {
        match &self.username {
            None => None,
            Some(u) => {
                let n = u.len();
                let mut i: usize = 0;
                assert(u@.skip(0) =~= u@);
                while i < n && u[i] != 0x3a
                    invariant
                        n == u@.len(),
                        i <= n,
                        crate::wire::first_colon(u@) == i + crate::wire::first_colon(
                            u@.skip(i as int),
                        ),
                    decreases n - i,
                {
                    assert(u@.skip(i as int).drop_first() =~= u@.skip(i + 1));
                    i += 1;
                }
                if i < n {
                    assert(u@.skip(i as int)[0] == u@[i as int]);
                    let left = copy_range(u.as_slice(), 0, i);
                    let right = copy_range(u.as_slice(), i + 1, n);
                    Some((right, left))
                } else {
                    None
                }
            },
        }
    }

    /// Whether `mac` is the value of the message's integrity attribute.
    pub fn integrity_matches(&self, mac: &[u8; 20]) -> (r: bool)
        ensures
            r == (self@.integrity matches Some(i) && i.mac == mac@),
    {
        match &self.integrity {
            None => false,
            Some(i) => bytes_eq(i.mac.as_slice(), mac.as_slice()),
        }
    }

    /// Whether the message integrity verifies under `password`. A message
    /// without the attribute does not verify.
    pub fn check_integrity(&self, password: &[u8]) -> (r: bool)
        ensures
            r == crate::wire::integrity_verifies(self@, password@),
    {
        match &self.integrity {
            None => false,
            Some(i) => {
                let payloads: [&[u8]; 1] = [i.covered.as_slice()];
                proof {
                    let ps = payloads@;
                    assert(ps.len() == 1);
                    assert(ps.drop_last() =~= Seq::<&[u8]>::empty());
                    assert(crate::crypto::concat_payloads(ps.drop_last()) =~= Seq::<u8>::empty());
                    assert(crate::crypto::concat_payloads(ps) =~= i.covered@);
                }
                let mac = sha1_hmac(password, payloads.as_slice());
                self.integrity_matches(&mac)
            },
        }
    }

    /// Tests the message integrity under `password` and reports a failure
    /// as an error.
    pub fn verify_integrity(&self, password: &[u8]) -> (r: Result<(), StunError>)
        ensures
            r is Ok <==> crate::wire::integrity_verifies(self@, password@),
            r matches Err(e) ==> e == StunError::BadIntegrity,
    {
        if self.check_integrity(password) {
            Ok(())
        } else {
            Err(StunError::BadIntegrity)
        }
    }

    fn encode_body(&self) -> (r: Vec<u8>)
        requires
            self@.username matches Some(u) ==> u.len() <= MAX_USERNAME_LEN,
        ensures
            r@ == crate::wire::body(self@),
            r@.len() <= 600,
    {
        let mut r: Vec<u8> = Vec::new();
        match &self.username {
            Some(u) => {
                push_attr(&mut r, ATTR_USERNAME, u.as_slice());
            },
            None => {},
        }
        assert(r@ =~= crate::wire::username_attr(self@));
        match self.prio {
            Some(p) => {
                let mut v: Vec<u8> = Vec::new();
                push_be32(&mut v, p);
                assert(v@ =~= crate::bytes::be32(p));
                push_attr(&mut r, ATTR_PRIORITY, v.as_slice());
            },
            None => {},
        }
        assert(r@ =~= crate::wire::username_attr(self@) + crate::wire::prio_attr(self@));
        match self.ice_controlling {
            Some(t) => {
                let mut v: Vec<u8> = Vec::new();
                push_be64(&mut v, t);
                assert(v@ =~= crate::bytes::be64(t));
                push_attr(&mut r, ATTR_ICE_CONTROLLING, v.as_slice());
            },
            None => {},
        }
        assert(r@ =~= crate::wire::username_attr(self@) + crate::wire::prio_attr(self@)
            + crate::wire::controlling_attr(self@));
        match self.ice_controlled {
            Some(t) => {
                let mut v: Vec<u8> = Vec::new();
                push_be64(&mut v, t);
                assert(v@ =~= crate::bytes::be64(t));
                push_attr(&mut r, ATTR_ICE_CONTROLLED, v.as_slice());
            },
            None => {},
        }
        assert(r@ =~= crate::wire::username_attr(self@) + crate::wire::prio_attr(self@)
            + crate::wire::controlling_attr(self@) + crate::wire::controlled_attr(self@));
        if self.use_candidate {
            let v: Vec<u8> = Vec::new();
            push_attr(&mut r, ATTR_USE_CANDIDATE, v.as_slice());
        }
        assert(r@ =~= crate::wire::username_attr(self@) + crate::wire::prio_attr(self@)
            + crate::wire::controlling_attr(self@) + crate::wire::controlled_attr(self@)
            + crate::wire::use_candidate_attr(self@));
        match self.mapped_address {
            Some(a) => {
                let v = xor_address_value(a, self.trans_id);
                push_attr(&mut r, ATTR_XOR_MAPPED_ADDRESS, v.as_slice());
            },
            None => {},
        }
        assert(r@ =~= crate::wire::body(self@));
        r
    }

    /// Writes the message with its integrity under `password` and its
    /// fingerprint. None if the username has more than 513 bytes or the
    /// message would have more than `max_len` bytes.
    pub fn to_bytes(&self, password: &[u8], max_len: usize) -> (r: Option<Vec<u8>>)
        ensures
            match r {
                Some(v) => crate::wire::fits(self@, max_len as int) && v@ == crate::wire::serialized(
                    self@,
                    password@,
                ),
                None => !crate::wire::fits(self@, max_len as int),
            },
    {
        match &self.username {
            Some(u) => {
                if u.len() > MAX_USERNAME_LEN {
                    return None;
                }
            },
            None => {},
        }
        let body = self.encode_body();
        let n: usize = body.len();
        if n + 52 > max_len || n + 52 > 0xffff {
            return None;
        }
        let mut covered: Vec<u8> = Vec::new();
        push_header(&mut covered, self.class, (n + 24) as u16, self.trans_id);
        extend(&mut covered, body.as_slice());
        assert(covered@ =~= crate::wire::integrity_input(self@));
        let payloads: [&[u8]; 1] = [covered.as_slice()];
        proof {
            let ps = payloads@;
            assert(ps.len() == 1);
            assert(ps.drop_last() =~= Seq::<&[u8]>::empty());
            assert(crate::crypto::concat_payloads(ps.drop_last()) =~= Seq::<u8>::empty());
            assert(crate::crypto::concat_payloads(ps) =~= covered@);
        }
        let mac = sha1_hmac(password, payloads.as_slice());
        let mut out: Vec<u8> = Vec::new();
        push_header(&mut out, self.class, (n + 32) as u16, self.trans_id);
        extend(&mut out, body.as_slice());
        push_attr(&mut out, ATTR_MESSAGE_INTEGRITY, mac.as_slice());
        assert(out@ =~= crate::wire::protected(self@, password@));
        let crc: u32 = checksum(out.as_slice()) ^ FINGERPRINT_XOR;
        let mut v: Vec<u8> = Vec::new();
        push_be32(&mut v, crc);
        assert(v@ =~= crate::bytes::be32(crc));
        push_attr(&mut out, ATTR_FINGERPRINT, v.as_slice());
        assert(out@ =~= crate::wire::serialized(self@, password@));
        Some(out)
    }
}


struct ScanState {
    username: Option<Vec<u8>>,
    prio: Option<u32>,
    use_candidate: bool,
    ice_controlling: Option<u64>,
    ice_controlled: Option<u64>,
    mapped: Option<SocketAddr>,
    xor_mapped: Option<SocketAddr>,
    integrity_at: Option<usize>,
    fingerprint_at: Option<usize>,
}

impl ScanState {
    spec fn view(&self) -> Scan {
        Scan {
            username: match self.username {
                Some(u) => Some(u@),
                None => None,
            },
            prio: self.prio,
            use_candidate: self.use_candidate,
            ice_controlling: self.ice_controlling,
            ice_controlled: self.ice_controlled,
            mapped: self.mapped,
            xor_mapped: self.xor_mapped,
            integrity_at: match self.integrity_at {
                Some(p) => Some(p as int),
                None => None,
            },
            fingerprint_at: match self.fingerprint_at {
                Some(p) => Some(p as int),
                None => None,
            },
        }
    }
}

fn decode_address(b: &[u8], at: usize, len: usize, xor: bool, id: TransId) -> (r: Option<
    SocketAddr,
>)
    requires
        at + len <= b@.len(),
    ensures
        r == crate::wire::decode_address(b@, at as int, len as int, xor, id),
{
    let n: usize = b.len();
    if len < 4 {
        return None;
    }
    let port_raw: u16 = read_be16(b, at + 2);
    let port: u16 = if xor {
        port_raw ^ 0x2112
    } else {
        port_raw
    };
    if b[at + 1] == 1 && len == 8 {
        let raw: u32 = read_be32(b, at + 4);
        Some(SocketAddr { ip: IpAddr::V4(if xor { raw ^ MAGIC_COOKIE } else { raw }), port })
    } else if b[at + 1] == 2 && len == 20 {
        let raw: u128 = read_be128(b, at + 4);
        let key: u128 = ((MAGIC_COOKIE as u128) << 96) | ((id.hi as u128) << 64) | (id.lo as u128);
        Some(SocketAddr { ip: IpAddr::V6(if xor { raw ^ key } else { raw }), port })
    } else {
        None
    }
}

fn read_attr(b: &[u8], pos: usize, typ: u16, len: usize, id: TransId, acc: ScanState) -> (r:
    Option<ScanState>)
    requires
        pos + 4 + len <= b@.len(),
    ensures
        match r {
            Some(a) => crate::wire::scan_attr(b@, pos as int, typ, len as int, id, acc.view())
                == Some(a.view()),
            None => crate::wire::scan_attr(b@, pos as int, typ, len as int, id, acc.view())
                is None,
        },
{
    let n: usize = b.len();
    let at: usize = pos + 4;
    let mut acc = acc;
    if acc.fingerprint_at.is_some() {
        None
    } else if typ == ATTR_FINGERPRINT {
        if len == 4 {
            acc.fingerprint_at = Some(pos);
            Some(acc)
        } else {
            None
        }
    } else if acc.integrity_at.is_some() {
        Some(acc)
    } else if typ == ATTR_MESSAGE_INTEGRITY {
        if len == 20 {
            acc.integrity_at = Some(pos);
            Some(acc)
        } else {
            None
        }
    } else if typ == ATTR_USERNAME {
        if acc.username.is_none() {
            acc.username = Some(copy_range(b, at, at + len));
        }
        Some(acc)
    } else if typ == ATTR_PRIORITY {
        if len != 4 {
            None
        } else {
            if acc.prio.is_none() {
                acc.prio = Some(read_be32(b, at));
            }
            Some(acc)
        }
    } else if typ == ATTR_USE_CANDIDATE {
        if len != 0 {
            None
        } else {
            acc.use_candidate = true;
            Some(acc)
        }
    } else if typ == ATTR_ICE_CONTROLLING {
        if len != 8 {
            None
        } else {
            if acc.ice_controlling.is_none() {
                acc.ice_controlling = Some(read_be64(b, at));
            }
            Some(acc)
        }
    } else if typ == ATTR_ICE_CONTROLLED {
        if len != 8 {
            None
        } else {
            if acc.ice_controlled.is_none() {
                acc.ice_controlled = Some(read_be64(b, at));
            }
            Some(acc)
        }
    } else if typ == ATTR_MAPPED_ADDRESS {
        match decode_address(b, at, len, false, id) {
            None => None,
            Some(a) => {
                if acc.mapped.is_none() {
                    acc.mapped = Some(a);
                }
                Some(acc)
            },
        }
    } else if typ == ATTR_XOR_MAPPED_ADDRESS {
        match decode_address(b, at, len, true, id) {
            None => None,
            Some(a) => {
                if acc.xor_mapped.is_none() {
                    acc.xor_mapped = Some(a);
                }
                Some(acc)
            },
        }
    } else {
        Some(acc)
    }
}

fn read_attrs(b: &[u8], id: TransId) -> (r: Option<ScanState>)
    requires
        b@.len() >= HEADER_LEN,
    ensures
        match r {
            Some(a) => crate::wire::scan(b@, HEADER_LEN as int, id, Scan::empty()) == Some(
                a.view(),
            ) && (a.integrity_at matches Some(p) ==> HEADER_LEN <= p && p + 24 <= b@.len()) && (
            a.fingerprint_at matches Some(p) ==> HEADER_LEN <= p && p + 8 <= b@.len()),
            None => crate::wire::scan(b@, HEADER_LEN as int, id, Scan::empty()) is None,
        },
{
    let n: usize = b.len();
    let mut pos: usize = HEADER_LEN;
    let mut acc = ScanState {
        username: None,
        prio: None,
        use_candidate: false,
        ice_controlling: None,
        ice_controlled: None,
        mapped: None,
        xor_mapped: None,
        integrity_at: None,
        fingerprint_at: None,
    };
    while pos < n
        invariant
            n == b@.len(),
            HEADER_LEN <= pos,
            crate::wire::scan(b@, HEADER_LEN as int, id, Scan::empty()) == crate::wire::scan(
                b@,
                pos as int,
                id,
                acc.view(),
            ),
            acc.integrity_at matches Some(p) ==> HEADER_LEN <= p && p + 24 <= b@.len(),
            acc.fingerprint_at matches Some(p) ==> HEADER_LEN <= p && p + 8 <= b@.len(),
        decreases n - pos,
    {
        if n - pos < 4 {
            return None;
        }
        let typ: u16 = read_be16(b, pos);
        let len: usize = read_be16(b, pos + 2) as usize;
        let padded: usize = len + (4 - len % 4) % 4;
        if padded > n - pos - 4 {
            return None;
        }
        match read_attr(b, pos, typ, len, id, acc) {
            None => {
                return None;
            },
            Some(a) => {
                acc = a;
            },
        }
        pos = pos + 4 + padded;
    }
    Some(acc)
}

impl StunMessage {
    /// Reads a STUN Binding message from `buf`, which must hold the
    /// message and nothing else.
    pub fn parse(buf: &[u8]) -> (r: Result<StunMessage, StunError>)
        ensures
            match r {
                Ok(m) => crate::wire::spec_parse(buf@) == Ok::<StunMessageView, StunError>(m@),
                Err(e) => crate::wire::spec_parse(buf@) == Err::<StunMessageView, StunError>(e),
            },
    {
        let n: usize = buf.len();
        if n < HEADER_LEN {
            return Err(StunError::MalformedMessage);
        }
        let typ: u16 = read_be16(buf, 0);
        let length: u16 = read_be16(buf, 2);
        let id = TransId { hi: read_be32(buf, 8), lo: read_be64(buf, 12) };
        let class = if typ == 0x0001 {
            StunClass::Request
        } else if typ == 0x0011 {
            StunClass::Indication
        } else if typ == 0x0101 {
            StunClass::Success
        } else if typ == 0x0111 {
            StunClass::Failure
        } else {
            return Err(StunError::MalformedMessage);
        };
        if read_be32(buf, 4) != MAGIC_COOKIE {
            return Err(StunError::MalformedMessage);
        }
        if length % 4 != 0 || n - HEADER_LEN != length as usize {
            return Err(StunError::MalformedMessage);
        }
        let s = match read_attrs(buf, id) {
            None => {
                return Err(StunError::MalformedMessage);
            },
            Some(s) => s,
        };
        let mapped = if s.xor_mapped.is_some() {
            s.xor_mapped
        } else {
            s.mapped
        };
        let checked = class == StunClass::Request || class == StunClass::Success;
        if class == StunClass::Request && s.username.is_none() {
            return Err(StunError::MissingAttribute(AttributeName::Username));
        }
        if class == StunClass::Success && mapped.is_none() {
            return Err(StunError::MissingAttribute(AttributeName::MappedAddress));
        }
        if checked && s.integrity_at.is_none() {
            return Err(StunError::MissingAttribute(AttributeName::MessageIntegrity));
        }
        if checked && s.fingerprint_at.is_none() {
            return Err(StunError::MissingAttribute(AttributeName::Fingerprint));
        }
        match s.fingerprint_at {
            Some(f) => {
                let before = copy_range(buf, 0, f);
                let crc: u32 = checksum(before.as_slice()) ^ FINGERPRINT_XOR;
                if crc != read_be32(buf, f + 4) {
                    return Err(StunError::BadFingerprint);
                }
            },
            None => {},
        }
        let integrity = match s.integrity_at {
            Some(p) => {
                let mut covered = copy_range(buf, 0, 2);
                push_be16(&mut covered, (p + 4) as u16);
                let rest = copy_range(buf, 4, p);
                extend(&mut covered, rest.as_slice());
                assert(covered@ =~= crate::wire::covered_bytes(buf@, p as int));
                Some(Integrity { mac: copy_range(buf, p + 4, p + 24), covered })
            },
            None => None,
        };
        Ok(
            StunMessage {
                class,
                trans_id: id,
                username: s.username,
                prio: s.prio,
                use_candidate: s.use_candidate,
                ice_controlling: s.ice_controlling,
                ice_controlled: s.ice_controlled,
                mapped_address: mapped,
                integrity,
            },
        )
    }
}

} // verus!
