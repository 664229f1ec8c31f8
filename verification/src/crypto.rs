//! The keyed hash that protects STUN messages.

use vstd::prelude::*;
use hmac::Mac;

verus! {

/// Which backend provides the cryptographic primitives.
#[derive(Debug, Clone, Copy, PartialEq, Eq, Structural)]
pub enum CryptoProvider {
    /// OpenSSL.
    OpenSsl,
    /// Windows SChannel and CNG.
    WinCrypto,
}

impl CryptoProvider {
    /// The provider's name in lower case.
    pub fn name(&self) -> (r: &'static str)
        ensures
            r@ == (match *self {
                CryptoProvider::OpenSsl => "openssl"@,
                CryptoProvider::WinCrypto => "wincrypto"@,
            }),
    {
        match self {
            CryptoProvider::OpenSsl => "openssl",
            CryptoProvider::WinCrypto => "wincrypto",
        }
    }
}

/// The HMAC-SHA1 of `msg` under `key`, twenty bytes.
pub uninterp spec fn hmac_sha1(key: Seq<u8>, msg: Seq<u8>) -> [u8; 20];

/// The payloads one after another.
pub open spec fn concat_payloads(payloads: Seq<&[u8]>) -> Seq<u8>
    decreases payloads.len(),
{
    if payloads.len() == 0 {
        Seq::empty()
    } else {
        concat_payloads(payloads.drop_last()) + payloads.last()@
    }
}

/// Runs `hmac::Hmac<sha1::Sha1>` over one message: `new_from_slice` with
/// `key` (which accepts a key of any length), one `update` with `msg`, then
/// `finalize`. The contract names the twenty bytes that come out.
#[verifier::external_body]
fn hmac_sha1_once(key: &[u8], msg: &[u8]) -> (mac: [u8; 20])
    ensures
        mac == hmac_sha1(key@, msg@),
{
    let mut h = hmac::Hmac::<sha1::Sha1>::new_from_slice(key).expect("any key length");
    h.update(msg);
    h.finalize().into_bytes().into()
}

/// SHA1 HMAC as used for STUN: the code of the payloads taken together,
/// in their order, under `key`.
pub fn sha1_hmac(key: &[u8], payloads: &[&[u8]]) -> (mac: [u8; 20])
    ensures
        mac == hmac_sha1(key@, concat_payloads(payloads@)),
{
    let mut msg: Vec<u8> = Vec::new();
    let mut i: usize = 0;
    while i < payloads.len()
        invariant
            i <= payloads@.len(),
            msg@ == concat_payloads(payloads@.take(i as int)),
        decreases payloads@.len() - i,
    {
        crate::bytes::extend(&mut msg, payloads[i]);
        proof {
            let t = payloads@.take(i + 1);
            assert(t.drop_last() =~= payloads@.take(i as int));
            assert(t.last() == payloads@[i as int]);
        }
        i += 1;
    }
    assert(payloads@.take(payloads@.len() as int) =~= payloads@);
    hmac_sha1_once(key, msg.as_slice())
}

} // verus!
