//! The CRC-32 checksum of IEEE 802.3, as the STUN fingerprint uses it.

use vstd::prelude::*;

verus! {

/// One step of the reflected division by the polynomial `0xEDB88320`.
pub open spec fn crc32_shift(c: u32) -> u32 {
    if c & 1 == 1 {
        (c >> 1) ^ 0xEDB8_8320
    } else {
        c >> 1
    }
}

/// The register after one more byte of input.
pub open spec fn crc32_byte(c: u32, b: u8) -> u32 {
    crc32_shift(
        crc32_shift(
            crc32_shift(
                crc32_shift(
                    crc32_shift(crc32_shift(crc32_shift(crc32_shift(c ^ (b as u32))))),
                ),
            ),
        ),
    )
}

/// The register after all of `data`, starting from `c`.
pub open spec fn crc32_update(c: u32, data: Seq<u8>) -> u32
    decreases data.len(),
{
    if data.len() == 0 {
        c
    } else {
        crc32_byte(crc32_update(c, data.drop_last()), data.last())
    }
}

/// The CRC-32 of `data`: the register starts at all ones and the result
/// is complemented.
pub open spec fn crc32(data: Seq<u8>) -> u32 {
    crc32_update(0xFFFF_FFFF, data) ^ 0xFFFF_FFFF
}

fn shift(c: u32) -> (r: u32)
    ensures
        r == crc32_shift(c),
{
    if c & 1 == 1 {
        (c >> 1) ^ 0xEDB8_8320
    } else {
        c >> 1
    }
}

/// Computes the CRC-32 of `data`.
pub fn checksum(data: &[u8]) -> (r: u32)
    ensures
        r == crc32(data@),
{
    let mut c: u32 = 0xFFFF_FFFF;
    let mut i: usize = 0;
    while i < data.len()
        invariant
            i <= data@.len(),
            c == crc32_update(0xFFFF_FFFF, data@.take(i as int)),
        decreases data@.len() - i,
    {
        let x: u32 = c ^ (data[i] as u32);
        let x = shift(shift(shift(shift(x))));
        let x = shift(shift(shift(shift(x))));
        proof {
            let t = data@.take(i + 1);
            assert(t.drop_last() =~= data@.take(i as int));
            assert(t.last() == data@[i as int]);
        }
        c = x;
        i += 1;
    }
    assert(data@.take(data@.len() as int) =~= data@);
    c ^ 0xFFFF_FFFF
}

} // verus!
