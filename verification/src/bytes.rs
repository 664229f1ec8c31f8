//! Small helpers on byte strings.

use vstd::prelude::*;

verus! {

/// Whether two byte strings hold the same bytes.
pub fn bytes_eq(a: &[u8], b: &[u8]) -> (r: bool)
    ensures
        r == (a@ == b@),
{
    if a.len() != b.len() {
        return false;
    }
    let mut i: usize = 0;
    while i < a.len()
        invariant
            a@.len() == b@.len(),
            i <= a@.len(),
            forall|j: int| 0 <= j < i ==> a@[j] == b@[j],
        decreases a@.len() - i,
    {
        if a[i] != b[i] {
            return false;
        }
        i += 1;
    }
    assert(a@ =~= b@);
    true
}

/// Appends all of `src` to `dst`.
pub fn extend(dst: &mut Vec<u8>, src: &[u8])
    ensures
        final(dst)@ == old(dst)@ + src@,
{
    let mut i: usize = 0;
    while i < src.len()
        invariant
            i <= src@.len(),
            dst@ == old(dst)@ + src@.take(i as int),
        decreases src@.len() - i,
    {
        dst.push(src[i]);
        assert(src@.take(i + 1) =~= src@.take(i as int).push(src@[i as int]));
        i += 1;
    }
    assert(src@.take(src@.len() as int) =~= src@);
}

/// A copy of the bytes of `src` from `from` up to `to`.
pub fn copy_range(src: &[u8], from: usize, to: usize) -> (r: Vec<u8>)
    requires
        from <= to <= src@.len(),
    ensures
        r@ == src@.subrange(from as int, to as int),
{
    let mut r: Vec<u8> = Vec::new();
    let mut i: usize = from;
    while i < to
        invariant
            from <= i <= to <= src@.len(),
            r@ == src@.subrange(from as int, i as int),
        decreases to - i,
    {
        r.push(src[i]);
        assert(src@.subrange(from as int, i + 1) =~= src@.subrange(from as int, i as int).push(
            src@[i as int],
        ));
        i += 1;
    }
    r
}

/// `n` zero bytes.
pub open spec fn zeros(n: int) -> Seq<u8> {
    Seq::new(n as nat, |i: int| 0u8)
}

/// Appends `n` zero bytes.
pub fn push_zeros(dst: &mut Vec<u8>, n: usize)
    ensures
        final(dst)@ == old(dst)@ + zeros(n as int),
{
    let mut i: usize = 0;
    while i < n
        invariant
            i <= n,
            dst@ == old(dst)@ + zeros(i as int),
        decreases n - i,
    {
        dst.push(0);
        assert(dst@ =~= old(dst)@ + zeros(i + 1));
        i += 1;
    }
}

/// The two bytes of `v`, most significant first.
pub open spec fn be16(v: u16) -> Seq<u8> {
    seq![(v >> 8) as u8, (v & 0xff) as u8]
}

/// The four bytes of `v`, most significant first.
pub open spec fn be32(v: u32) -> Seq<u8> {
    seq![(v >> 24) as u8, ((v >> 16) & 0xff) as u8, ((v >> 8) & 0xff) as u8, (v & 0xff) as u8]
}

/// The eight bytes of `v`, most significant first.
pub open spec fn be64(v: u64) -> Seq<u8> {
    be32((v >> 32) as u32) + be32((v & 0xffff_ffff) as u32)
}

/// The sixteen bytes of `v`, most significant first.
pub open spec fn be128(v: u128) -> Seq<u8> {
    be64((v >> 64) as u64) + be64((v & 0xffff_ffff_ffff_ffff) as u64)
}

/// The number whose big-endian bytes are `b0 b1`.
pub open spec fn from_be16(b0: u8, b1: u8) -> u16 {
    ((b0 as u16) << 8) | (b1 as u16)
}

/// The number whose big-endian bytes are `b0 b1 b2 b3`.
pub open spec fn from_be32(b0: u8, b1: u8, b2: u8, b3: u8) -> u32 {
    ((b0 as u32) << 24) | ((b1 as u32) << 16) | ((b2 as u32) << 8) | (b3 as u32)
}

/// The number whose big-endian bytes are the eight bytes of `s` from `at`.
pub open spec fn from_be64(s: Seq<u8>, at: int) -> u64 {
    ((from_be32(s[at], s[at + 1], s[at + 2], s[at + 3]) as u64) << 32) | (from_be32(
        s[at + 4],
        s[at + 5],
        s[at + 6],
        s[at + 7],
    ) as u64)
}

/// The number whose big-endian bytes are the sixteen bytes of `s` from `at`.
pub open spec fn from_be128(s: Seq<u8>, at: int) -> u128 {
    ((from_be64(s, at) as u128) << 64) | (from_be64(s, at + 8) as u128)
}

/// Appends the big-endian bytes of `v`.
pub fn push_be16(dst: &mut Vec<u8>, v: u16)
    ensures
        final(dst)@ == old(dst)@ + be16(v),
{
    dst.push((v >> 8) as u8);
    dst.push((v & 0xff) as u8);
    assert(dst@ =~= old(dst)@ + be16(v));
}

/// Appends the big-endian bytes of `v`.
pub fn push_be32(dst: &mut Vec<u8>, v: u32)
    ensures
        final(dst)@ == old(dst)@ + be32(v),
{
    dst.push((v >> 24) as u8);
    dst.push(((v >> 16) & 0xff) as u8);
    dst.push(((v >> 8) & 0xff) as u8);
    dst.push((v & 0xff) as u8);
    assert(dst@ =~= old(dst)@ + be32(v));
}

/// Appends the big-endian bytes of `v`.
pub fn push_be64(dst: &mut Vec<u8>, v: u64)
    ensures
        final(dst)@ == old(dst)@ + be64(v),
{
    push_be32(dst, (v >> 32) as u32);
    push_be32(dst, (v & 0xffff_ffff) as u32);
    assert(dst@ =~= old(dst)@ + be64(v));
}

/// Appends the big-endian bytes of `v`.
pub fn push_be128(dst: &mut Vec<u8>, v: u128)
    ensures
        final(dst)@ == old(dst)@ + be128(v),
{
    push_be64(dst, (v >> 64) as u64);
    push_be64(dst, (v & 0xffff_ffff_ffff_ffff) as u64);
    assert(dst@ =~= old(dst)@ + be128(v));
}

/// Reads two big-endian bytes at `at`.
pub fn read_be16(s: &[u8], at: usize) -> (v: u16)
    requires
        at + 2 <= s@.len(),
    ensures
        v == from_be16(s@[at as int], s@[at + 1]),
{
    ((s[at] as u16) << 8) | (s[at + 1] as u16)
}

/// Reads four big-endian bytes at `at`.
pub fn read_be32(s: &[u8], at: usize) -> (v: u32)
    requires
        at + 4 <= s@.len(),
    ensures
        v == from_be32(s@[at as int], s@[at + 1], s@[at + 2], s@[at + 3]),
{
    ((s[at] as u32) << 24) | ((s[at + 1] as u32) << 16) | ((s[at + 2] as u32) << 8) | (s[at
        + 3] as u32)
}

/// Reads eight big-endian bytes at `at`.
pub fn read_be64(s: &[u8], at: usize) -> (v: u64)
    requires
        at + 8 <= s@.len(),
    ensures
        v == from_be64(s@, at as int),
{
    let n = s.len();
    assert(at + 8 <= n);
    ((read_be32(s, at) as u64) << 32) | (read_be32(s, at + 4) as u64)
}

/// Reads sixteen big-endian bytes at `at`.
pub fn read_be128(s: &[u8], at: usize) -> (v: u128)
    requires
        at + 16 <= s@.len(),
    ensures
        v == from_be128(s@, at as int),
{
    let n = s.len();
    assert(at + 16 <= n);
    ((read_be64(s, at) as u128) << 64) | (read_be64(s, at + 8) as u128)
}

/// Reading back the bytes written for `v` gives `v`.
pub proof fn lemma_be16_round_trip(v: u16)
    ensures
        be16(v).len() == 2,
        from_be16(be16(v)[0], be16(v)[1]) == v,
{
    assert(((((v >> 8) as u8) as u16) << 8) | (((v & 0xff) as u8) as u16) == v) by (bit_vector);
}

/// Reading back the bytes written for `v` gives `v`.
pub proof fn lemma_be32_round_trip(v: u32)
    ensures
        be32(v).len() == 4,
        from_be32(be32(v)[0], be32(v)[1], be32(v)[2], be32(v)[3]) == v,
{
    assert(((((v >> 24) as u8) as u32) << 24) | (((((v >> 16) & 0xff) as u8) as u32) << 16) | (((((v
        >> 8) & 0xff) as u8) as u32) << 8) | (((v & 0xff) as u8) as u32) == v) by (bit_vector);
}

/// Reading back the bytes written for `v` gives `v`.
pub proof fn lemma_be64_round_trip(v: u64)
    ensures
        be64(v).len() == 8,
        from_be64(be64(v), 0) == v,
{
    let hi = (v >> 32) as u32;
    let lo = (v & 0xffff_ffff) as u32;
    lemma_be32_round_trip(hi);
    lemma_be32_round_trip(lo);
    assert(((((v >> 32) as u32) as u64) << 32) | (((v & 0xffff_ffff) as u32) as u64) == v)
        by (bit_vector);
}

/// Reading back the bytes written for `v` gives `v`.
pub proof fn lemma_be128_round_trip(v: u128)
    ensures
        be128(v).len() == 16,
        from_be128(be128(v), 0) == v,
{
    let hi = (v >> 64) as u64;
    let lo = (v & 0xffff_ffff_ffff_ffff) as u64;
    lemma_be64_round_trip(hi);
    lemma_be64_round_trip(lo);
    let s = be128(v);
    assert(from_be64(s, 0) == from_be64(be64(hi), 0));
    assert(from_be64(s, 8) == from_be64(be64(lo), 0));
    assert(((((v >> 64) as u64) as u128) << 64) | (((v & 0xffff_ffff_ffff_ffff) as u64) as u128)
        == v) by (bit_vector);
}

} // verus!
