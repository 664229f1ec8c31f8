//! The wire format of STUN Binding messages, as mathematical functions on
//! byte strings: what a message is written as, and what bytes are read as.

use vstd::prelude::*;
use crate::addr::{IpAddr, SocketAddr};
use crate::bytes::{be128, be16, be32, be64, from_be128, from_be16, from_be32, from_be64, zeros};
use crate::crc::crc32;
use crate::crypto::hmac_sha1;
use crate::stun::{AttributeName, IntegrityView, StunClass, StunError, StunMessageView, TransId};

verus! {

pub const MAGIC_COOKIE: u32 = 0x2112_A442;

pub const FINGERPRINT_XOR: u32 = 0x5354_554E;

pub const ATTR_MAPPED_ADDRESS: u16 = 0x0001;

pub const ATTR_USERNAME: u16 = 0x0006;

pub const ATTR_MESSAGE_INTEGRITY: u16 = 0x0008;

pub const ATTR_XOR_MAPPED_ADDRESS: u16 = 0x0020;

pub const ATTR_PRIORITY: u16 = 0x0024;

pub const ATTR_USE_CANDIDATE: u16 = 0x0025;

pub const ATTR_FINGERPRINT: u16 = 0x8028;

pub const ATTR_ICE_CONTROLLED: u16 = 0x8029;

pub const ATTR_ICE_CONTROLLING: u16 = 0x802A;

/// The length of the STUN header.
pub const HEADER_LEN: usize = 20;

/// The longest USERNAME that is written.
pub const MAX_USERNAME_LEN: usize = 513;

/// The message type of a Binding message of the given class.
pub open spec fn message_type(class: StunClass) -> u16 {
    match class {
        StunClass::Request => 0x0001,
        StunClass::Indication => 0x0011,
        StunClass::Success => 0x0101,
        StunClass::Failure => 0x0111,
    }
}

/// The class of a Binding message from its message type; none for the type
/// of another method.
pub open spec fn class_of_type(t: u16) -> Option<StunClass> {
    if t == 0x0001 {
        Some(StunClass::Request)
    } else if t == 0x0011 {
        Some(StunClass::Indication)
    } else if t == 0x0101 {
        Some(StunClass::Success)
    } else if t == 0x0111 {
        Some(StunClass::Failure)
    } else {
        None
    }
}

/// How many bytes pad a value of `n` bytes to a multiple of four.
pub open spec fn pad_len(n: int) -> int {
    (4 - n % 4) % 4
}

/// The bytes of a transaction id.
pub open spec fn trans_id_bytes(id: TransId) -> Seq<u8> {
    be32(id.hi) + be64(id.lo)
}

/// The twenty bytes of a header.
pub open spec fn header(class: StunClass, length: u16, id: TransId) -> Seq<u8> {
    be16(message_type(class)) + be16(length) + be32(MAGIC_COOKIE) + trans_id_bytes(id)
}

/// An attribute: type, length of the value, the value, padding.
pub open spec fn attr(typ: u16, value: Seq<u8>) -> Seq<u8> {
    be16(typ) + be16(value.len() as u16) + value + zeros(pad_len(value.len() as int))
}

/// What an IPv6 address is combined with in XOR-MAPPED-ADDRESS: the magic
/// cookie followed by the transaction id.
pub open spec fn xor_key128(id: TransId) -> u128 {
    ((MAGIC_COOKIE as u128) << 96) | ((id.hi as u128) << 64) | (id.lo as u128)
}

/// The value of XOR-MAPPED-ADDRESS for `addr`.
pub open spec fn xor_address_value(addr: SocketAddr, id: TransId) -> Seq<u8> {
    match addr.ip {
        IpAddr::V4(v) => seq![0u8, 1u8] + be16(addr.port ^ 0x2112) + be32(v ^ MAGIC_COOKIE),
        IpAddr::V6(v) => seq![0u8, 2u8] + be16(addr.port ^ 0x2112) + be128(v ^ xor_key128(id)),
    }
}

pub open spec fn username_attr(m: StunMessageView) -> Seq<u8> {
    match m.username {
        Some(u) => attr(ATTR_USERNAME, u),
        None => Seq::empty(),
    }
}

pub open spec fn prio_attr(m: StunMessageView) -> Seq<u8> {
    match m.prio {
        Some(p) => attr(ATTR_PRIORITY, be32(p)),
        None => Seq::empty(),
    }
}

pub open spec fn controlling_attr(m: StunMessageView) -> Seq<u8> {
    match m.ice_controlling {
        Some(t) => attr(ATTR_ICE_CONTROLLING, be64(t)),
        None => Seq::empty(),
    }
}

pub open spec fn controlled_attr(m: StunMessageView) -> Seq<u8> {
    match m.ice_controlled {
        Some(t) => attr(ATTR_ICE_CONTROLLED, be64(t)),
        None => Seq::empty(),
    }
}

pub open spec fn use_candidate_attr(m: StunMessageView) -> Seq<u8> {
    if m.use_candidate {
        attr(ATTR_USE_CANDIDATE, Seq::empty())
    } else {
        Seq::empty()
    }
}

pub open spec fn mapped_attr(m: StunMessageView) -> Seq<u8> {
    match m.mapped_address {
        Some(a) => attr(ATTR_XOR_MAPPED_ADDRESS, xor_address_value(a, m.trans_id)),
        None => Seq::empty(),
    }
}

/// The attributes of a message that precede its message integrity, in the
/// order in which they are written.
pub open spec fn body(m: StunMessageView) -> Seq<u8> {
    username_attr(m) + prio_attr(m) + controlling_attr(m) + controlled_attr(m)
        + use_candidate_attr(m) + mapped_attr(m)
}

/// Whether a message can be written into `max_len` bytes: its username has
/// at most 513 bytes and the whole message at most `max_len`.
pub open spec fn fits(m: StunMessageView, max_len: int) -> bool {
    &&& m.username matches Some(u) ==> u.len() <= MAX_USERNAME_LEN
    &&& body(m).len() + 52 <= max_len
    &&& body(m).len() + 52 <= 0xffff
}

/// The bytes that the message integrity of `m` covers: header and body,
/// the length field counting up to the end of the integrity attribute.
pub open spec fn integrity_input(m: StunMessageView) -> Seq<u8> {
    header(m.class, (body(m).len() + 24) as u16, m.trans_id) + body(m)
}

/// The message up to and including its message integrity under
/// `password`, the length field counting the fingerprint too.
pub open spec fn protected(m: StunMessageView, password: Seq<u8>) -> Seq<u8> {
    header(m.class, (body(m).len() + 32) as u16, m.trans_id) + body(m) + attr(
        ATTR_MESSAGE_INTEGRITY,
        hmac_sha1(password, integrity_input(m))@,
    )
}

/// The message as it is sent: header, body, message integrity under
/// `password`, fingerprint.
pub open spec fn serialized(m: StunMessageView, password: Seq<u8>) -> Seq<u8> {
    protected(m, password) + attr(
        ATTR_FINGERPRINT,
        be32(crc32(protected(m, password)) ^ FINGERPRINT_XOR),
    )
}

/// What has been read of a message's attributes.
pub struct Scan {
    pub username: Option<Seq<u8>>,
    pub prio: Option<u32>,
    pub use_candidate: bool,
    pub ice_controlling: Option<u64>,
    pub ice_controlled: Option<u64>,
    pub mapped: Option<SocketAddr>,
    pub xor_mapped: Option<SocketAddr>,
    /// Where the message-integrity attribute starts.
    pub integrity_at: Option<int>,
    /// Where the fingerprint attribute starts.
    pub fingerprint_at: Option<int>,
}

impl Scan {
    pub open spec fn empty() -> Scan {
        Scan {
            username: None,
            prio: None,
            use_candidate: false,
            ice_controlling: None,
            ice_controlled: None,
            mapped: None,
            xor_mapped: None,
            integrity_at: None,
            fingerprint_at: None,
        }
    }
}

/// The address in the value of a MAPPED-ADDRESS (`xor` false) or
/// XOR-MAPPED-ADDRESS (`xor` true) attribute of `len` bytes at `at`; none if
/// family and length do not agree.
pub open spec fn decode_address(b: Seq<u8>, at: int, len: int, xor: bool, id: TransId) -> Option<
    SocketAddr,
> {
    if len < 4 {
        None
    } else {
        let port_raw = from_be16(b[at + 2], b[at + 3]);
        let port = if xor { port_raw ^ 0x2112 } else { port_raw };
        if b[at + 1] == 1 && len == 8 {
            let raw = from_be32(b[at + 4], b[at + 5], b[at + 6], b[at + 7]);
            Some(SocketAddr { ip: IpAddr::V4(if xor { raw ^ MAGIC_COOKIE } else { raw }), port })
        } else if b[at + 1] == 2 && len == 20 {
            let raw = from_be128(b, at + 4);
            Some(SocketAddr { ip: IpAddr::V6(if xor { raw ^ xor_key128(id) } else { raw }), port })
        } else {
            None
        }
    }
}

/// What has been read after the attribute of type `typ` whose value of
/// `len` bytes starts at `pos + 4`; none if the attribute is malformed.
///
/// Nothing may follow the fingerprint. After the message integrity only
/// the fingerprint counts. Of an attribute that occurs twice the first
/// counts. Attributes of other types are passed over.
pub open spec fn scan_attr(b: Seq<u8>, pos: int, typ: u16, len: int, id: TransId, acc: Scan)
    -> Option<Scan> {
    let at = pos + 4;
    if acc.fingerprint_at is Some {
        None
    } else if typ == ATTR_FINGERPRINT {
        if len == 4 {
            Some(Scan { fingerprint_at: Some(pos), ..acc })
        } else {
            None
        }
    } else if acc.integrity_at is Some {
        Some(acc)
    } else if typ == ATTR_MESSAGE_INTEGRITY {
        if len == 20 {
            Some(Scan { integrity_at: Some(pos), ..acc })
        } else {
            None
        }
    } else if typ == ATTR_USERNAME {
        if acc.username is None {
            Some(Scan { username: Some(b.subrange(at, at + len)), ..acc })
        } else {
            Some(acc)
        }
    } else if typ == ATTR_PRIORITY {
        if len != 4 {
            None
        } else if acc.prio is None {
            Some(Scan { prio: Some(from_be32(b[at], b[at + 1], b[at + 2], b[at + 3])), ..acc })
        } else {
            Some(acc)
        }
    } else if typ == ATTR_USE_CANDIDATE {
        if len != 0 {
            None
        } else {
            Some(Scan { use_candidate: true, ..acc })
        }
    } else if typ == ATTR_ICE_CONTROLLING {
        if len != 8 {
            None
        } else if acc.ice_controlling is None {
            Some(Scan { ice_controlling: Some(from_be64(b, at)), ..acc })
        } else {
            Some(acc)
        }
    } else if typ == ATTR_ICE_CONTROLLED {
        if len != 8 {
            None
        } else if acc.ice_controlled is None {
            Some(Scan { ice_controlled: Some(from_be64(b, at)), ..acc })
        } else {
            Some(acc)
        }
    } else if typ == ATTR_MAPPED_ADDRESS {
        match decode_address(b, at, len, false, id) {
            None => None,
            Some(a) => if acc.mapped is None {
                Some(Scan { mapped: Some(a), ..acc })
            } else {
                Some(acc)
            },
        }
    } else if typ == ATTR_XOR_MAPPED_ADDRESS {
        match decode_address(b, at, len, true, id) {
            None => None,
            Some(a) => if acc.xor_mapped is None {
                Some(Scan { xor_mapped: Some(a), ..acc })
            } else {
                Some(acc)
            },
        }
    } else {
        Some(acc)
    }
}

/// What has been read when the attributes from `pos` to the end of `b`
/// are read after `acc`; none if one of them is malformed or does not end
/// within `b`.
pub open spec fn scan(b: Seq<u8>, pos: int, id: TransId, acc: Scan) -> Option<Scan>
    decreases b.len() - pos,
{
    if pos < 0 || pos >= b.len() {
        Some(acc)
    } else if pos + 4 > b.len() {
        None
    } else {
        let typ = from_be16(b[pos], b[pos + 1]);
        let len = from_be16(b[pos + 2], b[pos + 3]) as int;
        let next = pos + 4 + len + pad_len(len);
        if next > b.len() {
            None
        } else {
            match scan_attr(b, pos, typ, len, id, acc) {
                None => None,
                Some(a) => scan(b, next, id, a),
            }
        }
    }
}

/// The bytes that the message integrity starting at `p` covers.
pub open spec fn covered_bytes(b: Seq<u8>, p: int) -> Seq<u8> {
    b.subrange(0, 2) + be16((p + 4) as u16) + b.subrange(4, p)
}

/// Whether a class requires integrity and fingerprint.
pub open spec fn is_checked_class(class: StunClass) -> bool {
    class is Request || class is Success
}

/// The message that was read, from what was read of its attributes; the
/// error if a required attribute is absent or the fingerprint is wrong.
pub open spec fn finish(b: Seq<u8>, class: StunClass, id: TransId, s: Scan) -> Result<
    StunMessageView,
    StunError,
> {
    let mapped = if s.xor_mapped is Some {
        s.xor_mapped
    } else {
        s.mapped
    };
    if class is Request && s.username is None {
        Err(StunError::MissingAttribute(AttributeName::Username))
    } else if class is Success && mapped is None {
        Err(StunError::MissingAttribute(AttributeName::MappedAddress))
    } else if is_checked_class(class) && s.integrity_at is None {
        Err(StunError::MissingAttribute(AttributeName::MessageIntegrity))
    } else if is_checked_class(class) && s.fingerprint_at is None {
        Err(StunError::MissingAttribute(AttributeName::Fingerprint))
    } else if s.fingerprint_at is Some && (crc32(b.subrange(0, s.fingerprint_at->0))
        ^ FINGERPRINT_XOR) != from_be32(
        b[s.fingerprint_at->0 + 4],
        b[s.fingerprint_at->0 + 5],
        b[s.fingerprint_at->0 + 6],
        b[s.fingerprint_at->0 + 7],
    ) {
        Err(StunError::BadFingerprint)
    } else {
        Ok(
            StunMessageView {
                class,
                trans_id: id,
                username: s.username,
                prio: s.prio,
                use_candidate: s.use_candidate,
                ice_controlling: s.ice_controlling,
                ice_controlled: s.ice_controlled,
                mapped_address: mapped,
                integrity: match s.integrity_at {
                    Some(p) => Some(
                        IntegrityView {
                            mac: b.subrange(p + 4, p + 24),
                            covered: covered_bytes(b, p),
                        },
                    ),
                    None => None,
                },
            },
        )
    }
}

/// What the bytes `b` are read as.
///
/// They are a message if they are a whole Binding message (header with the
/// magic cookie, a length that is a multiple of four and counts the rest
/// of `b`, well-formed attributes), a request has USERNAME, a success
/// response a mapped address, both have MESSAGE-INTEGRITY and FINGERPRINT,
/// and a fingerprint, where present, matches.
pub open spec fn spec_parse(b: Seq<u8>) -> Result<StunMessageView, StunError> {
    if b.len() < HEADER_LEN {
        Err(StunError::MalformedMessage)
    } else {
        let typ = from_be16(b[0], b[1]);
        let length = from_be16(b[2], b[3]);
        let id = TransId { hi: from_be32(b[8], b[9], b[10], b[11]), lo: from_be64(b, 12) };
        if class_of_type(typ) is None {
            Err(StunError::MalformedMessage)
        } else if from_be32(b[4], b[5], b[6], b[7]) != MAGIC_COOKIE {
            Err(StunError::MalformedMessage)
        } else if length % 4 != 0 || HEADER_LEN + length != b.len() {
            Err(StunError::MalformedMessage)
        } else {
            match scan(b, HEADER_LEN as int, id, Scan::empty()) {
                None => Err(StunError::MalformedMessage),
                Some(s) => finish(b, class_of_type(typ)->0, id, s),
            }
        }
    }
}

/// Where the first colon of `u` is, or the length of `u` if it has none.
pub open spec fn first_colon(u: Seq<u8>) -> int
    decreases u.len(),
{
    if u.len() == 0 {
        0
    } else if u[0] == 0x3a {
        0
    } else {
        1 + first_colon(u.drop_first())
    }
}

/// The two halves of a username around its first colon: what follows the
/// colon, then what precedes it. None if there is no colon.
pub open spec fn split_username(u: Seq<u8>) -> Option<(Seq<u8>, Seq<u8>)> {
    let i = first_colon(u);
    if i < u.len() {
        Some((u.subrange(i + 1, u.len() as int), u.subrange(0, i)))
    } else {
        None
    }
}

/// Whether the message integrity of `m` verifies under `password`: its
/// value is the HMAC-SHA1 of the bytes it covers.
pub open spec fn integrity_verifies(m: StunMessageView, password: Seq<u8>) -> bool {
    m.integrity matches Some(i) && i.mac == hmac_sha1(password, i.covered)@
}


/// A success response fits any datagram.
pub proof fn lemma_reply_fits(id: TransId, mapped: SocketAddr)
    ensures
        fits(StunMessageView::reply(id, mapped), 1150),
{
    let m = StunMessageView::reply(id, mapped);
    let v = xor_address_value(mapped, id);
    assert(v.len() == 8 || v.len() == 20);
    assert(body(m) =~= attr(ATTR_XOR_MAPPED_ADDRESS, v));
}

/// A Binding request with a username of at most 513 bytes fits a
/// datagram.
pub proof fn lemma_request_fits(
    username: Seq<u8>,
    id: TransId,
    controlling: bool,
    prio: u32,
    use_candidate: bool,
)
    requires
        username.len() <= MAX_USERNAME_LEN,
    ensures
        fits(
            StunMessageView::binding_request(username, id, controlling, prio, use_candidate),
            1150,
        ),
{
    let m = StunMessageView::binding_request(username, id, controlling, prio, use_candidate);
    assert(username_attr(m).len() <= 520);
    assert(prio_attr(m).len() == 8);
    assert(controlling_attr(m).len() <= 12);
    assert(controlled_attr(m).len() <= 12);
    assert(use_candidate_attr(m).len() <= 4);
    assert(mapped_attr(m).len() == 0);
}

} // verus!
