//! Credentials and transaction ids from random bits.

use vstd::prelude::*;
use crate::stun::TransId;

verus! {

/// Credentials for STUN: by the username fragment and password that
/// signalling carries, a STUN message is matched to its peer.
#[derive(Debug, PartialEq, Eq, Hash)]
pub struct IceCreds {
    /// The username fragment.
    pub username: String,
    /// The password.
    pub password: String,
}

impl Clone for IceCreds {
    fn clone(&self) -> (r: IceCreds)
        ensures
            r.username@ == self.username@,
            r.password@ == self.password@,
    {
        IceCreds { username: self.username.clone(), password: self.password.clone() }
    }
}

/// How many characters a generated username fragment has.
pub const UFRAG_CHARS: usize = 4;

/// How many characters a generated password has.
pub const PWD_CHARS: usize = 22;

/// The character that stands for six bits: `A` to `Z`, `a` to `z`, `0` to
/// `9`, `+` and `/`.
pub open spec fn ice_char(v: u64) -> char {
    let v = v % 64;
    if v < 26 {
        (65 + v) as u8 as char
    } else if v < 52 {
        (97 + (v - 26)) as u8 as char
    } else if v < 62 {
        (48 + (v - 52)) as u8 as char
    } else if v == 62 {
        '+'
    } else {
        '/'
    }
}

/// The `n` characters that stand for the lowest `6 * n` bits of `bits`,
/// lowest six first.
pub open spec fn ice_chars(bits: u64, n: nat) -> Seq<char>
    decreases n,
{
    if n == 0 {
        Seq::empty()
    } else {
        ice_chars(bits, (n - 1) as nat).push(ice_char(bits >> ((6 * (n - 1)) as u64)))
    }
}

/// The username fragment made of `a`: four characters for its lowest 24
/// bits.
pub open spec fn ufrag_from(a: u64) -> Seq<char> {
    ice_chars(a, 4)
}

/// The password made of `a`, `b` and `c`: ten characters each for the
/// lowest 60 bits of `b` and of `c`, two for bits 24 to 35 of `a`.
pub open spec fn pwd_from(a: u64, b: u64, c: u64) -> Seq<char> {
    ice_chars(b, 10) + ice_chars(c, 10) + ice_chars(a >> 24, 2)
}

/// The characters of `ice_chars` are ASCII, and there are `n` of them.
pub proof fn lemma_ice_chars_ascii(bits: u64, n: nat)
    ensures
        ice_chars(bits, n).len() == n,
        vstd::utf8::is_ascii_chars(ice_chars(bits, n)),
    decreases n,
{
    if n > 0 {
        lemma_ice_chars_ascii(bits, (n - 1) as nat);
    }
}

/// Calls `rand::random::<u64>()`: sixty-four bits from the thread's
/// random number generator. Nothing is promised of them.
#[verifier::external_body]
pub(crate) fn random_u64() -> u64 {
    rand::random::<u64>()
}

/// Calls `String::push`, which appends the character to the string.
#[verifier::external_body]
fn push_char(s: &mut String, c: char)
    ensures
        final(s)@ == old(s)@.push(c),
{
    s.push(c)
}

fn ice_char_of(v: u64) -> (c: char)
    ensures
        c == ice_char(v),
{
    let v: u64 = v % 64;
    if v < 26 {
        (65 + v) as u8 as char
    } else if v < 52 {
        (97 + (v - 26)) as u8 as char
    } else if v < 62 {
        (48 + (v - 52)) as u8 as char
    } else if v == 62 {
        '+'
    } else {
        '/'
    }
}

fn push_ice_chars(s: &mut String, bits: u64, n: usize)
    requires
        n <= 10,
    ensures
        final(s)@ == old(s)@ + ice_chars(bits, n as nat),
{
    let mut i: usize = 0;
    assert(s@ =~= old(s)@ + ice_chars(bits, 0));
    while i < n
        invariant
            i <= n <= 10,
            s@ == old(s)@ + ice_chars(bits, i as nat),
        decreases n - i,
    {
        let shift: u64 = 6 * (i as u64);
        push_char(s, ice_char_of(bits >> shift));
        i += 1;
        assert(s@ =~= old(s)@ + ice_chars(bits, i as nat));
    }
}

/// The credentials made of the random bits `a`, `b` and `c`: a username
/// fragment of four characters (24 bits) and a password of twenty-two
/// (132 bits).
pub fn creds_from_entropy(a: u64, b: u64, c: u64) -> (r: IceCreds)
    ensures
        r.username@ == ufrag_from(a),
        r.password@ == pwd_from(a, b, c),
{
    let mut username = String::new();
    push_ice_chars(&mut username, a, 4);
    assert(username@ =~= ufrag_from(a));
    let mut password = String::new();
    push_ice_chars(&mut password, b, 10);
    push_ice_chars(&mut password, c, 10);
    push_ice_chars(&mut password, a >> 24, 2);
    assert(password@ =~= pwd_from(a, b, c));
    IceCreds { username, password }
}

/// The transaction id made of the random bits `a` and `b`: the upper half
/// of `a`, then all of `b`.
pub open spec fn trans_id_from(a: u64, b: u64) -> TransId {
    TransId { hi: (a >> 32) as u32, lo: b }
}

/// The transaction id made of the random bits `a` and `b`.
pub fn trans_id_from_entropy(a: u64, b: u64) -> (id: TransId)
    ensures
        id == trans_id_from(a, b),
{
    TransId { hi: (a >> 32) as u32, lo: b }
}

} // verus!
