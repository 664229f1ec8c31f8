//! Reading what was written gives back what was written.

use vstd::prelude::*;
use crate::addr::{IpAddr, SocketAddr};
use crate::bytes::{
    be128,
    be16,
    be32,
    be64,
    from_be128,
    from_be16,
    from_be32,
    from_be64,
    lemma_be128_round_trip,
    lemma_be16_round_trip,
    lemma_be32_round_trip,
    lemma_be64_round_trip,
};
use crate::crc::crc32;
use crate::crypto::hmac_sha1;
use crate::stun::{IntegrityView, StunClass, StunError, StunMessageView, TransId};
use crate::wire::{
    attr,
    ATTR_FINGERPRINT,
    ATTR_ICE_CONTROLLED,
    ATTR_ICE_CONTROLLING,
    ATTR_MESSAGE_INTEGRITY,
    ATTR_PRIORITY,
    ATTR_USE_CANDIDATE,
    ATTR_USERNAME,
    ATTR_XOR_MAPPED_ADDRESS,
    body,
    class_of_type,
    controlled_attr,
    controlling_attr,
    covered_bytes,
    decode_address,
    FINGERPRINT_XOR,
    finish,
    header,
    integrity_input,
    integrity_verifies,
    MAGIC_COOKIE,
    mapped_attr,
    MAX_USERNAME_LEN,
    message_type,
    pad_len,
    prio_attr,
    protected,
    scan,
    Scan,
    scan_attr,
    serialized,
    spec_parse,
    trans_id_bytes,
    use_candidate_attr,
    username_attr,
    xor_address_value,
    xor_key128,
};

verus! {

/// Whether a message can be written and read back: its username, if any,
/// has at most 513 bytes, a request has a username, and a success
/// response a mapped address.
pub open spec fn writable(m: StunMessageView) -> bool {
    &&& m.username matches Some(u) ==> u.len() <= MAX_USERNAME_LEN
    &&& m.class is Request ==> m.username is Some
    &&& m.class is Success ==> m.mapped_address is Some
}

/// The message that is read when `m` was written under `password`: `m`
/// with the message integrity that was written.
pub open spec fn received(m: StunMessageView, password: Seq<u8>) -> StunMessageView {
    StunMessageView {
        integrity: Some(
            IntegrityView {
                mac: hmac_sha1(password, integrity_input(m))@,
                covered: integrity_input(m),
            },
        ),
        ..m
    }
}

/// An attribute has four bytes before its value and is padded to a
/// multiple of four.
pub proof fn lemma_attr_len(typ: u16, value: Seq<u8>)
    ensures
        attr(typ, value).len() == 4 + value.len() + pad_len(value.len() as int),
        attr(typ, value).len() % 4 == 0,
        0 <= pad_len(value.len() as int) < 4,
{
    lemma_pad(value.len() as int);
    let n = value.len() as int;
    let total = 4 + n + pad_len(n);
    assert(attr(typ, value).len() == total);
    assert(total % 4 == 0) by {
        lemma_plus_four(n + pad_len(n));
    }
}

/// Padding brings a length to the next multiple of four.
pub proof fn lemma_pad(n: int)
    requires
        n >= 0,
    ensures
        0 <= pad_len(n) < 4,
        (n + pad_len(n)) % 4 == 0,
{
    let r = n % 4;
    let q = n / 4;
    assert(n == 4 * q + r && 0 <= r < 4) by (nonlinear_arith)
        requires
            r == n % 4,
            q == n / 4,
    ;
    if r == 0 {
        assert(pad_len(n) == 0);
    } else {
        assert(pad_len(n) == 4 - r);
        assert(n + pad_len(n) == 4 * (q + 1));
        assert((4 * (q + 1)) % 4 == 0) by (nonlinear_arith);
    }
}

/// Four more than a multiple of four is a multiple of four.
pub proof fn lemma_plus_four(k: int)
    requires
        k % 4 == 0,
    ensures
        (4 + k) % 4 == 0,
{
    assert((4 + k) % 4 == 0) by (nonlinear_arith)
        requires
            k % 4 == 0,
    ;
}

/// Reading an attribute that stands at `pos` goes on behind it with what
/// the attribute brings.
pub proof fn lemma_scan_step(b: Seq<u8>, pos: int, id: TransId, acc: Scan, typ: u16, value: Seq<u8>)
    requires
        0 <= pos,
        value.len() <= 0xffff,
        pos + attr(typ, value).len() <= b.len(),
        b.subrange(pos, pos + attr(typ, value).len()) == attr(typ, value),
    ensures
        scan(b, pos, id, acc) == (match scan_attr(b, pos, typ, value.len() as int, id, acc) {
            None => None,
            Some(a) => scan(b, pos + attr(typ, value).len(), id, a),
        }),
        b.subrange(pos + 4, pos + 4 + value.len()) == value,
        forall|j: int| 0 <= j < value.len() ==> b[pos + 4 + j] == value[j],
{
    let a = attr(typ, value);
    lemma_attr_len(typ, value);
    let sub = b.subrange(pos, pos + a.len());
    assert forall|j: int| 0 <= j < a.len() implies b[pos + j] == a[j] by {
        assert(sub[j] == b[pos + j]);
    }
    lemma_be16_round_trip(typ);
    lemma_be16_round_trip(value.len() as u16);
    assert(a[0] == be16(typ)[0] && a[1] == be16(typ)[1]);
    assert(a[2] == be16(value.len() as u16)[0] && a[3] == be16(value.len() as u16)[1]);
    assert(b[pos] == a[0] && b[pos + 1] == a[1] && b[pos + 2] == a[2] && b[pos + 3] == a[3]);
    assert(from_be16(b[pos], b[pos + 1]) == typ);
    assert(from_be16(b[pos + 2], b[pos + 3]) == value.len());
    assert forall|j: int| 0 <= j < value.len() implies b[pos + 4 + j] == value[j] by {
        assert(b[pos + (4 + j)] == a[4 + j]);
        assert(a[4 + j] == value[j]);
    }
    assert(b.subrange(pos + 4, pos + 4 + value.len()) =~= value);
}

/// Reading four bytes that were written for a number gives the number.
pub proof fn lemma_read_be32(b: Seq<u8>, at: int, v: u32)
    requires
        0 <= at,
        at + 4 <= b.len(),
        forall|j: int| 0 <= j < 4 ==> b[at + j] == be32(v)[j],
    ensures
        from_be32(b[at], b[at + 1], b[at + 2], b[at + 3]) == v,
{
    lemma_be32_round_trip(v);
    assert(b[at + 0] == be32(v)[0]);
    assert(b[at + 1] == be32(v)[1]);
    assert(b[at + 2] == be32(v)[2]);
    assert(b[at + 3] == be32(v)[3]);
}

/// Reading eight bytes that were written for a number gives the number.
pub proof fn lemma_read_be64(b: Seq<u8>, at: int, v: u64)
    requires
        0 <= at,
        at + 8 <= b.len(),
        forall|j: int| 0 <= j < 8 ==> b[at + j] == be64(v)[j],
    ensures
        from_be64(b, at) == v,
{
    lemma_be64_round_trip(v);
    let s = be64(v);
    assert(b[at + 0] == s[0]);
    assert(b[at + 1] == s[1]);
    assert(b[at + 2] == s[2]);
    assert(b[at + 3] == s[3]);
    assert(b[at + 4] == s[4]);
    assert(b[at + 5] == s[5]);
    assert(b[at + 6] == s[6]);
    assert(b[at + 7] == s[7]);
    assert(from_be64(b, at) == from_be64(s, 0));
}

/// Reading sixteen bytes that were written for a number gives the
/// number.
pub proof fn lemma_read_be128(b: Seq<u8>, at: int, v: u128)
    requires
        0 <= at,
        at + 16 <= b.len(),
        forall|j: int| 0 <= j < 16 ==> b[at + j] == be128(v)[j],
    ensures
        from_be128(b, at) == v,
{
    lemma_be128_round_trip(v);
    let s = be128(v);
    let hi = (v >> 64) as u64;
    let lo = (v & 0xffff_ffff_ffff_ffff) as u64;
    lemma_be64_round_trip(hi);
    lemma_be64_round_trip(lo);
    assert forall|j: int| 0 <= j < 8 implies b[at + j] == be64(hi)[j] by {
        assert(b[at + j] == s[j]);
        assert(s[j] == be64(hi)[j]);
    }
    assert forall|j: int| 0 <= j < 8 implies b[at + 8 + j] == be64(lo)[j] by {
        assert(b[at + (8 + j)] == s[8 + j]);
        assert(s[8 + j] == be64(lo)[j]);
    }
    lemma_read_be64(b, at, hi);
    lemma_read_be64(b, at + 8, lo);
    assert(from_be64(s, 0) == hi);
    assert(from_be64(s, 8) == lo) by {
        assert(s[8] == be64(lo)[0]);
        assert(s[9] == be64(lo)[1]);
        assert(s[10] == be64(lo)[2]);
        assert(s[11] == be64(lo)[3]);
        assert(s[12] == be64(lo)[4]);
        assert(s[13] == be64(lo)[5]);
        assert(s[14] == be64(lo)[6]);
        assert(s[15] == be64(lo)[7]);
        assert(from_be64(s, 8) == from_be64(be64(lo), 0));
    }
}

/// The address that XOR-MAPPED-ADDRESS was written for is read back.
pub proof fn lemma_read_xor_address(b: Seq<u8>, at: int, addr: SocketAddr, id: TransId)
    requires
        0 <= at,
        at + xor_address_value(addr, id).len() <= b.len(),
        forall|j: int|
            0 <= j < xor_address_value(addr, id).len() ==> b[at + j] == xor_address_value(
                addr,
                id,
            )[j],
    ensures
        decode_address(b, at, xor_address_value(addr, id).len() as int, true, id) == Some(addr),
{
    let v = xor_address_value(addr, id);
    let xport = addr.port ^ 0x2112;
    lemma_be16_round_trip(xport);
    let port: u16 = addr.port;
    assert((port ^ 0x2112u16) ^ 0x2112u16 == port) by (bit_vector);
    match addr.ip {
        IpAddr::V4(ip) => {
            assert(v.len() == 8);
            assert(b[at + 0] == v[0]);
            assert(b[at + 1] == v[1] && v[1] == 1);
            assert(b[at + 2] == v[2] && v[2] == be16(xport)[0]);
            assert(b[at + 3] == v[3] && v[3] == be16(xport)[1]);
            let x = ip ^ MAGIC_COOKIE;
            assert forall|j: int| 0 <= j < 4 implies b[at + 4 + j] == be32(x)[j] by {
                assert(b[at + (4 + j)] == v[4 + j]);
                assert(v[4 + j] == be32(x)[j]);
            }
            lemma_read_be32(b, at + 4, x);
            assert((ip ^ 0x2112_A442u32) ^ 0x2112_A442u32 == ip) by (bit_vector);
        },
        IpAddr::V6(ip) => {
            assert(v.len() == 20);
            assert(b[at + 0] == v[0]);
            assert(b[at + 1] == v[1] && v[1] == 2);
            assert(b[at + 2] == v[2] && v[2] == be16(xport)[0]);
            assert(b[at + 3] == v[3] && v[3] == be16(xport)[1]);
            let k = xor_key128(id);
            let x = ip ^ k;
            assert forall|j: int| 0 <= j < 16 implies b[at + 4 + j] == be128(x)[j] by {
                assert(b[at + (4 + j)] == v[4 + j]);
                assert(v[4 + j] == be128(x)[j]);
            }
            lemma_read_be128(b, at + 4, x);
            assert((ip ^ k) ^ k == ip) by (bit_vector);
        },
    }
}

/// What has been read after each attribute of the body of `m`.
pub open spec fn after_username(m: StunMessageView) -> Scan {
    Scan { username: m.username, ..Scan::empty() }
}

pub open spec fn after_prio(m: StunMessageView) -> Scan {
    Scan { prio: m.prio, ..after_username(m) }
}

pub open spec fn after_controlling(m: StunMessageView) -> Scan {
    Scan { ice_controlling: m.ice_controlling, ..after_prio(m) }
}

pub open spec fn after_controlled(m: StunMessageView) -> Scan {
    Scan { ice_controlled: m.ice_controlled, ..after_controlling(m) }
}

pub open spec fn after_use_candidate(m: StunMessageView) -> Scan {
    Scan { use_candidate: m.use_candidate, ..after_controlled(m) }
}

pub open spec fn after_mapped(m: StunMessageView) -> Scan {
    Scan { xor_mapped: m.mapped_address, ..after_use_candidate(m) }
}

pub open spec fn after_integrity(m: StunMessageView) -> Scan {
    Scan { integrity_at: Some(20 + body(m).len() as int), ..after_mapped(m) }
}

pub open spec fn after_fingerprint(m: StunMessageView) -> Scan {
    Scan { fingerprint_at: Some(44 + body(m).len() as int), ..after_integrity(m) }
}

/// The attributes of the body have lengths that are multiples of four
/// and bounded.
pub proof fn lemma_body_attr_lens(m: StunMessageView)
    requires
        m.username matches Some(u) ==> u.len() <= MAX_USERNAME_LEN,
    ensures
        username_attr(m).len() % 4 == 0,
        username_attr(m).len() <= 520,
        prio_attr(m).len() == (if m.prio is Some { 8int } else { 0int }),
        controlling_attr(m).len() == (if m.ice_controlling is Some { 12int } else { 0int }),
        controlled_attr(m).len() == (if m.ice_controlled is Some { 12int } else { 0int }),
        use_candidate_attr(m).len() == (if m.use_candidate { 4int } else { 0int }),
        mapped_attr(m).len() == (match m.mapped_address {
            Some(a) => if a.ip is V4 { 12int } else { 24int },
            None => 0int,
        }),
{
    match m.username {
        Some(u) => {
            lemma_attr_len(ATTR_USERNAME, u);
        },
        None => {},
    }
    match m.prio {
        Some(p) => {
            lemma_attr_len(ATTR_PRIORITY, be32(p));
        },
        None => {},
    }
    match m.ice_controlling {
        Some(t) => {
            lemma_attr_len(ATTR_ICE_CONTROLLING, be64(t));
        },
        None => {},
    }
    match m.ice_controlled {
        Some(t) => {
            lemma_attr_len(ATTR_ICE_CONTROLLED, be64(t));
        },
        None => {},
    }
    if m.use_candidate {
        lemma_attr_len(ATTR_USE_CANDIDATE, Seq::empty());
    }
    match m.mapped_address {
        Some(a) => {
            let v = xor_address_value(a, m.trans_id);
            lemma_attr_len(ATTR_XOR_MAPPED_ADDRESS, v);
            assert(v.len() == (if a.ip is V4 { 8int } else { 20int }));
        },
        None => {},
    }
}

/// The body of a writable message has at most 580 bytes, a multiple of
/// four.
pub proof fn lemma_body_len(m: StunMessageView)
    requires
        m.username matches Some(u) ==> u.len() <= MAX_USERNAME_LEN,
    ensures
        body(m).len() <= 580,
        body(m).len() % 4 == 0,
        body(m).len() == username_attr(m).len() + prio_attr(m).len() + controlling_attr(m).len()
            + controlled_attr(m).len() + use_candidate_attr(m).len() + mapped_attr(m).len(),
{
    lemma_body_attr_lens(m);
}


/// Reading an attribute that the rest of `b` from `pos` starts with goes
/// on behind it with what the attribute brings.
pub proof fn lemma_scan_next(
    b: Seq<u8>,
    pos: int,
    id: TransId,
    acc: Scan,
    typ: u16,
    value: Seq<u8>,
    rest: Seq<u8>,
)
    requires
        0 <= pos <= b.len(),
        value.len() <= 0xffff,
        b.skip(pos) == attr(typ, value) + rest,
    ensures
        pos + attr(typ, value).len() <= b.len(),
        scan(b, pos, id, acc) == (match scan_attr(b, pos, typ, value.len() as int, id, acc) {
            None => None,
            Some(a) => scan(b, pos + attr(typ, value).len(), id, a),
        }),
        b.skip(pos + attr(typ, value).len()) == rest,
        b.subrange(pos + 4, pos + 4 + value.len()) == value,
        forall|j: int| 0 <= j < value.len() ==> b[pos + 4 + j] == value[j],
{
    let a = attr(typ, value);
    lemma_attr_len(typ, value);
    assert(b.skip(pos).len() == a.len() + rest.len());
    assert(b.subrange(pos, pos + a.len()) =~= a) by {
        assert forall|j: int| 0 <= j < a.len() implies b.subrange(pos, pos + a.len())[j]
            == a[j] by {
            assert(b.skip(pos)[j] == b[pos + j]);
            assert((a + rest)[j] == a[j]);
        }
    }
    assert(b.skip(pos + a.len()) =~= rest) by {
        assert forall|j: int| 0 <= j < rest.len() implies b.skip(pos + a.len())[j]
            == rest[j] by {
            assert(b.skip(pos)[a.len() + j] == b[pos + a.len() + j]);
            assert((a + rest)[a.len() + j] == rest[j]);
        }
    }
    lemma_scan_step(b, pos, id, acc, typ, value);
}

/// Reading the username attribute of `m`.
pub proof fn lemma_stage_username(b: Seq<u8>, pos: int, m: StunMessageView, rest: Seq<u8>)
    requires
        0 <= pos <= b.len(),
        m.username matches Some(u) ==> u.len() <= MAX_USERNAME_LEN,
        b.skip(pos) == username_attr(m) + rest,
    ensures
        scan(b, pos, m.trans_id, Scan::empty()) == scan(
            b,
            pos + username_attr(m).len(),
            m.trans_id,
            after_username(m),
        ),
        b.skip(pos + username_attr(m).len()) == rest,
        pos + username_attr(m).len() <= b.len(),
{
    match m.username {
        Some(u) => {
            lemma_scan_next(b, pos, m.trans_id, Scan::empty(), ATTR_USERNAME, u, rest);
        },
        None => {
            assert(b.skip(pos) =~= rest);
            assert(after_username(m) == Scan::empty());
        },
    }
}

/// Reading the priority attribute of `m`.
pub proof fn lemma_stage_prio(b: Seq<u8>, pos: int, m: StunMessageView, rest: Seq<u8>)
    requires
        0 <= pos <= b.len(),
        b.skip(pos) == prio_attr(m) + rest,
    ensures
        scan(b, pos, m.trans_id, after_username(m)) == scan(
            b,
            pos + prio_attr(m).len(),
            m.trans_id,
            after_prio(m),
        ),
        b.skip(pos + prio_attr(m).len()) == rest,
        pos + prio_attr(m).len() <= b.len(),
{
    match m.prio {
        Some(p) => {
            lemma_scan_next(b, pos, m.trans_id, after_username(m), ATTR_PRIORITY, be32(p), rest);
            lemma_read_be32(b, pos + 4, p);
        },
        None => {
            assert(b.skip(pos) =~= rest);
            assert(after_prio(m) == after_username(m));
        },
    }
}

/// Reading the ICE-CONTROLLING attribute of `m`.
pub proof fn lemma_stage_controlling(b: Seq<u8>, pos: int, m: StunMessageView, rest: Seq<u8>)
    requires
        0 <= pos <= b.len(),
        b.skip(pos) == controlling_attr(m) + rest,
    ensures
        scan(b, pos, m.trans_id, after_prio(m)) == scan(
            b,
            pos + controlling_attr(m).len(),
            m.trans_id,
            after_controlling(m),
        ),
        b.skip(pos + controlling_attr(m).len()) == rest,
        pos + controlling_attr(m).len() <= b.len(),
{
    match m.ice_controlling {
        Some(t) => {
            lemma_scan_next(b, pos, m.trans_id, after_prio(m), ATTR_ICE_CONTROLLING, be64(t), rest);
            lemma_be64_round_trip(t);
            lemma_read_be64(b, pos + 4, t);
        },
        None => {
            assert(b.skip(pos) =~= rest);
            assert(after_controlling(m) == after_prio(m));
        },
    }
}

/// Reading the ICE-CONTROLLED attribute of `m`.
pub proof fn lemma_stage_controlled(b: Seq<u8>, pos: int, m: StunMessageView, rest: Seq<u8>)
    requires
        0 <= pos <= b.len(),
        b.skip(pos) == controlled_attr(m) + rest,
    ensures
        scan(b, pos, m.trans_id, after_controlling(m)) == scan(
            b,
            pos + controlled_attr(m).len(),
            m.trans_id,
            after_controlled(m),
        ),
        b.skip(pos + controlled_attr(m).len()) == rest,
        pos + controlled_attr(m).len() <= b.len(),
{
    match m.ice_controlled {
        Some(t) => {
            lemma_scan_next(
                b,
                pos,
                m.trans_id,
                after_controlling(m),
                ATTR_ICE_CONTROLLED,
                be64(t),
                rest,
            );
            lemma_be64_round_trip(t);
            lemma_read_be64(b, pos + 4, t);
        },
        None => {
            assert(b.skip(pos) =~= rest);
            assert(after_controlled(m) == after_controlling(m));
        },
    }
}

/// Reading the USE-CANDIDATE attribute of `m`.
pub proof fn lemma_stage_use_candidate(b: Seq<u8>, pos: int, m: StunMessageView, rest: Seq<u8>)
    requires
        0 <= pos <= b.len(),
        b.skip(pos) == use_candidate_attr(m) + rest,
    ensures
        scan(b, pos, m.trans_id, after_controlled(m)) == scan(
            b,
            pos + use_candidate_attr(m).len(),
            m.trans_id,
            after_use_candidate(m),
        ),
        b.skip(pos + use_candidate_attr(m).len()) == rest,
        pos + use_candidate_attr(m).len() <= b.len(),
{
    if m.use_candidate {
        lemma_scan_next(
            b,
            pos,
            m.trans_id,
            after_controlled(m),
            ATTR_USE_CANDIDATE,
            Seq::empty(),
            rest,
        );
    } else {
        assert(b.skip(pos) =~= rest);
        assert(after_use_candidate(m) == after_controlled(m));
    }
}

/// Reading the XOR-MAPPED-ADDRESS attribute of `m`.
pub proof fn lemma_stage_mapped(b: Seq<u8>, pos: int, m: StunMessageView, rest: Seq<u8>)
    requires
        0 <= pos <= b.len(),
        b.skip(pos) == mapped_attr(m) + rest,
    ensures
        scan(b, pos, m.trans_id, after_use_candidate(m)) == scan(
            b,
            pos + mapped_attr(m).len(),
            m.trans_id,
            after_mapped(m),
        ),
        b.skip(pos + mapped_attr(m).len()) == rest,
        pos + mapped_attr(m).len() <= b.len(),
{
    match m.mapped_address {
        Some(a) => {
            let v = xor_address_value(a, m.trans_id);
            assert(v.len() == 8 || v.len() == 20);
            lemma_scan_next(
                b,
                pos,
                m.trans_id,
                after_use_candidate(m),
                ATTR_XOR_MAPPED_ADDRESS,
                v,
                rest,
            );
            lemma_attr_len(ATTR_XOR_MAPPED_ADDRESS, v);
            lemma_read_xor_address(b, pos + 4, a, m.trans_id);
        },
        None => {
            assert(b.skip(pos) =~= rest);
            assert(after_mapped(m) == after_use_candidate(m));
        },
    }
}


/// A header has twenty bytes.
pub proof fn lemma_header_len(class: StunClass, length: u16, id: TransId)
    ensures
        header(class, length, id).len() == 20,
{
    assert(be64(id.lo).len() == 8);
    assert(trans_id_bytes(id).len() == 12);
}

/// The value of the message-integrity attribute that is written for `m`.
pub open spec fn written_mac(m: StunMessageView, password: Seq<u8>) -> Seq<u8> {
    hmac_sha1(password, integrity_input(m))@
}

/// The value of the fingerprint attribute that is written for `m`.
pub open spec fn written_fingerprint(m: StunMessageView, password: Seq<u8>) -> u32 {
    crc32(protected(m, password)) ^ FINGERPRINT_XOR
}

/// The attributes of a message as they follow the header: those of the
/// body, the message integrity with the value `mac`, the fingerprint with
/// the value `x`.
pub open spec fn attributes(m: StunMessageView, mac: Seq<u8>, x: u32) -> Seq<u8> {
    username_attr(m) + (prio_attr(m) + (controlling_attr(m) + (controlled_attr(m) + (
    use_candidate_attr(m) + (mapped_attr(m) + (attr(ATTR_MESSAGE_INTEGRITY, mac) + (attr(
        ATTR_FINGERPRINT,
        be32(x),
    ) + Seq::<u8>::empty())))))))
}

/// Where the attributes of the body end in a message.
pub open spec fn body_end(m: StunMessageView) -> int {
    (20 + username_attr(m).len() + prio_attr(m).len() + controlling_attr(m).len()
        + controlled_attr(m).len() + use_candidate_attr(m).len() + mapped_attr(m).len()) as int
}

/// What has been read when message integrity and fingerprint were found
/// at `p` and `p + 24`.
pub open spec fn after_all(m: StunMessageView, p: int) -> Scan {
    Scan { integrity_at: Some(p), fingerprint_at: Some(p + 24), ..after_mapped(m) }
}

/// Reading the attributes that follow a header gives the attributes that
/// were written, with the places of message integrity and fingerprint.
#[verifier::rlimit(40)]
pub proof fn lemma_chain(b: Seq<u8>, m: StunMessageView, mac: Seq<u8>, x: u32)
    requires
        m.username matches Some(u) ==> u.len() <= MAX_USERNAME_LEN,
        mac.len() == 20,
        b.len() >= 20,
        b.skip(20) == attributes(m, mac, x),
    ensures
        ({
            let p = body_end(m);
            &&& b.len() == p + 32
            &&& scan(b, 20, m.trans_id, Scan::empty()) == Some(after_all(m, p))
            &&& b.subrange(p + 4, p + 24) == mac
            &&& forall|j: int| 0 <= j < 4 ==> b[p + 28 + j] == be32(x)[j]
        }),
{
    let id = m.trans_id;
    let mi = attr(ATTR_MESSAGE_INTEGRITY, mac);
    let fp = attr(ATTR_FINGERPRINT, be32(x));
    lemma_attr_len(ATTR_MESSAGE_INTEGRITY, mac);
    lemma_attr_len(ATTR_FINGERPRINT, be32(x));
    let t7 = fp + Seq::<u8>::empty();
    let t6 = mi + t7;
    let t5 = mapped_attr(m) + t6;
    let t4 = use_candidate_attr(m) + t5;
    let t3 = controlled_attr(m) + t4;
    let t2 = controlling_attr(m) + t3;
    let t1 = prio_attr(m) + t2;
    let at_username = 20int;
    lemma_stage_username(b, at_username, m, t1);
    let at_prio = at_username + username_attr(m).len();
    lemma_stage_prio(b, at_prio, m, t2);
    let at_controlling = at_prio + prio_attr(m).len();
    lemma_stage_controlling(b, at_controlling, m, t3);
    let at_controlled = at_controlling + controlling_attr(m).len();
    lemma_stage_controlled(b, at_controlled, m, t4);
    let at_use_candidate = at_controlled + controlled_attr(m).len();
    lemma_stage_use_candidate(b, at_use_candidate, m, t5);
    let at_mapped = at_use_candidate + use_candidate_attr(m).len();
    lemma_stage_mapped(b, at_mapped, m, t6);
    let at_integrity = at_mapped + mapped_attr(m).len();
    lemma_scan_next(b, at_integrity, id, after_mapped(m), ATTR_MESSAGE_INTEGRITY, mac, t7);
    let a7 = Scan { integrity_at: Some(at_integrity), ..after_mapped(m) };
    assert(scan_attr(b, at_integrity, ATTR_MESSAGE_INTEGRITY, 20, id, after_mapped(m)) == Some(a7));
    let at_fingerprint = at_integrity + 24;
    assert(mi.len() == 24);
    lemma_scan_next(b, at_fingerprint, id, a7, ATTR_FINGERPRINT, be32(x), Seq::empty());
    assert(scan_attr(b, at_fingerprint, ATTR_FINGERPRINT, 4, id, a7) == Some(after_all(m, at_integrity)));
    assert(fp.len() == 8);
    assert(b.skip(at_fingerprint + 8).len() == 0);
    assert(at_fingerprint + 8 == b.len());
    assert(scan(b, at_fingerprint + 8, id, after_all(m, at_integrity)) == Some(after_all(m, at_integrity)));
}

/// Nine byte strings put together from the left are the same put
/// together from the right.
pub proof fn lemma_flatten(
    h: Seq<u8>,
    u: Seq<u8>,
    p: Seq<u8>,
    c: Seq<u8>,
    d: Seq<u8>,
    uc: Seq<u8>,
    mm: Seq<u8>,
    mi: Seq<u8>,
    fp: Seq<u8>,
)
    ensures
        h + (u + p + c + d + uc + mm) + mi + fp == h + (u + (p + (c + (d + (uc + (mm + (mi + (fp
            + Seq::<u8>::empty())))))))),
        (u + p + c + d + uc + mm).len() == u.len() + p.len() + c.len() + d.len() + uc.len()
            + mm.len(),
{
    let t7 = fp + Seq::<u8>::empty();
    assert(t7 =~= fp);
    let t6 = mi + t7;
    let t5 = mm + t6;
    assert(mm + mi + fp =~= t5);
    let t4 = uc + t5;
    assert(uc + mm + mi + fp =~= t4);
    let t3 = d + t4;
    assert(d + uc + mm + mi + fp =~= t3);
    let t2 = c + t3;
    assert(c + d + uc + mm + mi + fp =~= t2);
    let t1 = p + t2;
    assert(p + c + d + uc + mm + mi + fp =~= t1);
    let t0 = u + t1;
    assert(u + p + c + d + uc + mm + mi + fp =~= t0);
    assert((u + p + c + d + uc + mm) + mi + fp =~= t0);
    assert(h + (u + p + c + d + uc + mm) + mi + fp =~= h + t0);
}

/// A written message is its header followed by its attributes.
pub proof fn lemma_decompose(m: StunMessageView, password: Seq<u8>)
    ensures
        serialized(m, password) == header(m.class, (body(m).len() + 32) as u16, m.trans_id)
            + attributes(m, written_mac(m, password), written_fingerprint(m, password)),
        protected(m, password) == header(m.class, (body(m).len() + 32) as u16, m.trans_id) + body(
            m,
        ) + attr(ATTR_MESSAGE_INTEGRITY, written_mac(m, password)),
        body(m).len() == username_attr(m).len() + prio_attr(m).len() + controlling_attr(m).len()
            + controlled_attr(m).len() + use_candidate_attr(m).len() + mapped_attr(m).len(),
{
    lemma_flatten(
        header(m.class, (body(m).len() + 32) as u16, m.trans_id),
        username_attr(m),
        prio_attr(m),
        controlling_attr(m),
        controlled_attr(m),
        use_candidate_attr(m),
        mapped_attr(m),
        attr(ATTR_MESSAGE_INTEGRITY, written_mac(m, password)),
        attr(ATTR_FINGERPRINT, be32(written_fingerprint(m, password))),
    );
}

/// Reading the attributes of a written message gives the attributes that
/// were written, with the places of message integrity and fingerprint.
pub proof fn lemma_scan_serialized(m: StunMessageView, password: Seq<u8>)
    requires
        m.username matches Some(u) ==> u.len() <= MAX_USERNAME_LEN,
    ensures
        serialized(m, password).len() == body(m).len() + 52,
        scan(serialized(m, password), 20, m.trans_id, Scan::empty()) == Some(
            after_fingerprint(m),
        ),
        serialized(m, password).subrange(
            (24 + body(m).len()) as int,
            (44 + body(m).len()) as int,
        ) == written_mac(m, password),
        forall|j: int|
            0 <= j < 4 ==> serialized(m, password)[48 + body(m).len() + j] == be32(
                written_fingerprint(m, password),
            )[j],
{
    let b = serialized(m, password);
    let h = header(m.class, (body(m).len() + 32) as u16, m.trans_id);
    let mac = written_mac(m, password);
    let x = written_fingerprint(m, password);
    lemma_header_len(m.class, (body(m).len() + 32) as u16, m.trans_id);
    lemma_decompose(m, password);
    assert(mac.len() == 20);
    assert(b.skip(20) =~= attributes(m, mac, x));
    lemma_chain(b, m, mac, x);
    assert(after_all(m, (20 + body(m).len()) as int) == after_fingerprint(m));
}

/// The header of a written message is read back.
pub proof fn lemma_read_header(b: Seq<u8>, class: StunClass, length: u16, id: TransId, rest: Seq<u8>)
    requires
        b == header(class, length, id) + rest,
    ensures
        b.len() == 20 + rest.len(),
        class_of_type(from_be16(b[0], b[1])) == Some(class),
        from_be16(b[0], b[1]) == message_type(class),
        from_be16(b[2], b[3]) == length,
        from_be32(b[4], b[5], b[6], b[7]) == MAGIC_COOKIE,
        from_be32(b[8], b[9], b[10], b[11]) == id.hi,
        from_be64(b, 12) == id.lo,
        b.subrange(0, 2) == be16(message_type(class)),
        b.subrange(4, 20) == be32(MAGIC_COOKIE) + trans_id_bytes(id),
{
    let h = header(class, length, id);
    lemma_header_len(class, length, id);
    assert forall|j: int| 0 <= j < 20 implies b[j] == h[j] by {}
    lemma_be16_round_trip(message_type(class));
    lemma_be16_round_trip(length);
    assert(h[0] == be16(message_type(class))[0] && h[1] == be16(message_type(class))[1]);
    assert(h[2] == be16(length)[0] && h[3] == be16(length)[1]);
    assert forall|j: int| 0 <= j < 4 implies b[4 + j] == be32(MAGIC_COOKIE)[j] by {
        assert(h[4 + j] == be32(MAGIC_COOKIE)[j]);
    }
    lemma_read_be32(b, 4, MAGIC_COOKIE);
    assert forall|j: int| 0 <= j < 4 implies b[8 + j] == be32(id.hi)[j] by {
        assert(h[8 + j] == be32(id.hi)[j]);
    }
    lemma_read_be32(b, 8, id.hi);
    assert(be64(id.lo).len() == 8);
    assert forall|j: int| 0 <= j < 8 implies b[12 + j] == be64(id.lo)[j] by {
        assert(h[12 + j] == be64(id.lo)[j]);
    }
    lemma_read_be64(b, 12, id.lo);
    assert(b.subrange(0, 2) =~= be16(message_type(class)));
    assert(b.subrange(4, 20) =~= be32(MAGIC_COOKIE) + trans_id_bytes(id));
}

/// The parts of three byte strings put together.
pub proof fn lemma_three_parts(x: Seq<u8>, y: Seq<u8>, z: Seq<u8>)
    ensures
        (x + y + z).len() == x.len() + y.len() + z.len(),
        (x + y + z).subrange(0, x.len() as int) == x,
        (x + y + z).subrange(x.len() as int, (x.len() + y.len()) as int) == y,
        (x + y + z).subrange(0, (x.len() + y.len()) as int) == x + y,
        (x + y + z).subrange((x.len() + y.len()) as int, (x.len() + y.len() + z.len()) as int)
            == z,
{
    let s = x + y + z;
    assert(s.subrange(0, x.len() as int) =~= x);
    assert(s.subrange(x.len() as int, (x.len() + y.len()) as int) =~= y);
    assert(s.subrange(0, (x.len() + y.len()) as int) =~= x + y);
    assert(s.subrange((x.len() + y.len()) as int, (x.len() + y.len() + z.len()) as int) =~= z);
}

/// The bytes that the integrity of a read message covers, from the parts
/// of the written message.
pub proof fn lemma_covered_parts(
    b: Seq<u8>,
    t: Seq<u8>,
    l: Seq<u8>,
    l2: Seq<u8>,
    mid: Seq<u8>,
    bd: Seq<u8>,
    tail: Seq<u8>,
)
    requires
        t.len() == 2,
        l.len() == 2,
        l2.len() == 2,
        mid.len() == 16,
        b == (t + l + mid) + bd + tail,
    ensures
        b.subrange(0, 2) + l2 + b.subrange(4, (20 + bd.len()) as int) == (t + l2 + mid) + bd,
{
    assert(b.subrange(0, 2) =~= t);
    assert(b.subrange(4, (20 + bd.len()) as int) =~= mid + bd);
    assert(t + l2 + (mid + bd) =~= (t + l2 + mid) + bd);
}

/// The bytes that the integrity of a written message covers when it is
/// read are those that it covered when it was written.
pub proof fn lemma_covered(m: StunMessageView, password: Seq<u8>)
    requires
        m.username matches Some(u) ==> u.len() <= MAX_USERNAME_LEN,
    ensures
        covered_bytes(serialized(m, password), (20 + body(m).len()) as int) == integrity_input(m),
{
    let b = serialized(m, password);
    let n = body(m).len() as int;
    lemma_body_len(m);
    let t = be16(message_type(m.class));
    let l = be16((n + 32) as u16);
    let l2 = be16((n + 24) as u16);
    let mid = be32(MAGIC_COOKIE) + trans_id_bytes(m.trans_id);
    assert(be64(m.trans_id.lo).len() == 8);
    assert(mid.len() == 16);
    let tail = attr(ATTR_MESSAGE_INTEGRITY, written_mac(m, password)) + attr(
        ATTR_FINGERPRINT,
        be32(written_fingerprint(m, password)),
    );
    assert(header(m.class, (n + 32) as u16, m.trans_id) =~= t + l + mid);
    assert(header(m.class, (n + 24) as u16, m.trans_id) =~= t + l2 + mid);
    assert(b =~= (t + l + mid) + body(m) + tail);
    lemma_covered_parts(b, t, l, l2, mid, body(m), tail);
    assert((20 + n + 4) as u16 == (n + 24) as u16);
}

/// What reading needs to hold of the bytes `b` to read them as the
/// message `m` written under `password` with a body of `n` bytes.
pub open spec fn reads_as(b: Seq<u8>, m: StunMessageView, password: Seq<u8>, n: int) -> bool {
    &&& 0 <= n <= 580
    &&& n % 4 == 0
    &&& b.len() == n + 52
    &&& from_be16(b[0], b[1]) == message_type(m.class)
    &&& from_be16(b[2], b[3]) == n + 32
    &&& from_be32(b[4], b[5], b[6], b[7]) == MAGIC_COOKIE
    &&& from_be32(b[8], b[9], b[10], b[11]) == m.trans_id.hi
    &&& from_be64(b, 12) == m.trans_id.lo
    &&& scan(b, 20, m.trans_id, Scan::empty()) == Some(after_all(m, 20 + n))
    &&& crc32(b.subrange(0, 44 + n)) ^ FINGERPRINT_XOR == from_be32(
        b[48 + n],
        b[49 + n],
        b[50 + n],
        b[51 + n],
    )
    &&& covered_bytes(b, 20 + n) == integrity_input(m)
    &&& b.subrange(24 + n, 44 + n) == written_mac(m, password)
}

/// Bytes of which `reads_as` holds are read as the message.
pub proof fn lemma_parse_from_facts(b: Seq<u8>, m: StunMessageView, password: Seq<u8>, n: int)
    requires
        reads_as(b, m, password, n),
        m.class is Request ==> m.username is Some,
        m.class is Success ==> m.mapped_address is Some,
    ensures
        spec_parse(b) == Ok::<StunMessageView, StunError>(received(m, password)),
{
    let id = m.trans_id;
    let s = after_all(m, 20 + n);
    let typ = from_be16(b[0], b[1]);
    assert(class_of_type(typ) == Some(m.class));
    let length = from_be16(b[2], b[3]);
    assert(length == n + 32);
    assert(length % 4 == 0);
    assert(TransId { hi: from_be32(b[8], b[9], b[10], b[11]), lo: from_be64(b, 12) } == id);
    assert(finish(b, m.class, id, s) == Ok::<StunMessageView, StunError>(received(m, password)));
}

/// `reads_as` holds of the bytes of a written message.
pub proof fn lemma_serialized_reads_as(m: StunMessageView, password: Seq<u8>)
    requires
        m.username matches Some(u) ==> u.len() <= MAX_USERNAME_LEN,
    ensures
        reads_as(serialized(m, password), m, password, body(m).len() as int),
{
    let b = serialized(m, password);
    let id = m.trans_id;
    let n = body(m).len() as int;
    lemma_body_len(m);
    lemma_scan_serialized(m, password);
    let length = (n + 32) as u16;
    let mac = written_mac(m, password);
    let x = written_fingerprint(m, password);
    let fp = attr(ATTR_FINGERPRINT, be32(x));
    lemma_decompose(m, password);
    lemma_read_header(b, m.class, length, id, attributes(m, mac, x));
    let f = 44 + n;
    lemma_attr_len(ATTR_MESSAGE_INTEGRITY, mac);
    assert(mac.len() == 20);
    lemma_header_len(m.class, length, id);
    assert(protected(m, password).len() == f);
    lemma_three_parts(protected(m, password), fp, Seq::empty());
    assert(b =~= protected(m, password) + fp + Seq::<u8>::empty());
    assert(b.subrange(0, f) == protected(m, password));
    lemma_read_be32(b, f + 4, x);
    lemma_covered(m, password);
    assert(after_all(m, 20 + n) == after_fingerprint(m));
}

/// Reading what was written gives back what was written: the bytes of a
/// writable message under a password are read as that message, with the
/// message integrity that was written, and its integrity verifies under
/// the same password. So the fingerprint is right, and class, transaction
/// id, username, priority, USE-CANDIDATE, the role attributes and the
/// mapped address are those that were written.
pub proof fn lemma_parse_serialized(m: StunMessageView, password: Seq<u8>)
    requires
        writable(m),
    ensures
        spec_parse(serialized(m, password)) == Ok::<StunMessageView, StunError>(
            received(m, password),
        ),
        integrity_verifies(received(m, password), password),
{
    lemma_serialized_reads_as(m, password);
    lemma_parse_from_facts(serialized(m, password), m, password, body(m).len() as int);
}

/// A Binding request that is written and read back is the request that
/// was written: transaction id, priority, USE-CANDIDATE, the role
/// attribute and the username are preserved, the fingerprint is right,
/// and the integrity verifies under the password it was written with.
pub proof fn lemma_request_round_trip(
    username: Seq<u8>,
    id: TransId,
    controlling: bool,
    prio: u32,
    use_candidate: bool,
    password: Seq<u8>,
)
    requires
        username.len() <= MAX_USERNAME_LEN,
    ensures
        ({
            let m = StunMessageView::binding_request(username, id, controlling, prio, use_candidate);
            &&& spec_parse(serialized(m, password)) matches Ok(r)
            &&& r.class is Request
            &&& r.trans_id == id
            &&& r.prio == Some(prio)
            &&& r.use_candidate == use_candidate
            &&& r.ice_controlling is Some <==> controlling
            &&& r.ice_controlled is Some <==> !controlling
            &&& r.username == Some(username)
            &&& integrity_verifies(r, password)
        }),
{
    let m = StunMessageView::binding_request(username, id, controlling, prio, use_candidate);
    lemma_parse_serialized(m, password);
}

} // verus!
