//! Trusted wrappers around the outside cryptography crates. Everything the
//! library assumes of them is stated here; nothing else in the crate calls
//! `sha2`, `p256` or `getrandom` directly.

use vstd::prelude::*;

use p256::ecdsa::signature::{Signer, Verifier};
use sha2::Digest;

verus! {

/// The SHA-224 digest of a byte sequence.
pub uninterp spec fn sha224_of(data: Seq<u8>) -> Seq<u8>;

/// Whether 32 bytes are a valid P-256 secret scalar
/// (`SigningKey::from_slice` accepts them).
pub uninterp spec fn p256_sk_valid(sk: Seq<u8>) -> bool;

/// The uncompressed SEC1 public point of a valid P-256 secret key.
pub uninterp spec fn p256_pub_of(sk: Seq<u8>) -> Seq<u8>;

/// The (deterministic, RFC 6979) ECDSA/P-256 signature of a message under
/// a secret key.
pub uninterp spec fn p256_sig_of(sk: Seq<u8>, msg: Seq<u8>) -> Seq<u8>;

/// Whether a raw 64-byte ECDSA/P-256 signature verifies for a message
/// under an uncompressed SEC1 public key.
pub uninterp spec fn p256_verify_ok(pk: Seq<u8>, msg: Seq<u8>, sig: Seq<u8>) -> bool;

/// Relies on sha2::Sha224: the digest is a function of the input alone and
/// is 28 bytes long.
#[verifier::external_body]
pub fn sha224(data: &Vec<u8>) -> (r: Vec<u8>)
    ensures
        r@ == sha224_of(data@),
        r@.len() == 28,
{
    let mut h = sha2::Sha224::new();
    h.update(data.as_slice());
    h.finalize().to_vec()
}

/// Relies on p256::ecdsa::SigningKey::from_slice (succeeds exactly on a
/// valid secret scalar) and VerifyingKey::to_sec1_point(false), whose
/// uncompressed SEC1 form is 65 bytes starting with 0x04.
#[verifier::external_body]
pub fn p256_public_key(sk: &Vec<u8>) -> (r: Option<Vec<u8>>)
    ensures
        match r {
            Some(pk) => p256_sk_valid(sk@) && pk@ == p256_pub_of(sk@) && pk@.len() == 65
                && pk@[0] == 4,
            None => !p256_sk_valid(sk@),
        },
{
    let key = p256::ecdsa::SigningKey::from_slice(sk.as_slice()).ok()?;
    let point = key.verifying_key().to_sec1_point(false);
    Some(point.as_ref().to_vec())
}

/// Relies on p256::ecdsa::SigningKey::sign (deterministic per RFC 6979,
/// 64-byte raw signature) and on the crate's sign/verify contract: a
/// signature produced by `sign` verifies under the matching public key.
#[verifier::external_body]
pub fn p256_sign(sk: &Vec<u8>, msg: &Vec<u8>) -> (r: Option<Vec<u8>>)
    ensures
        match r {
            Some(sig) => p256_sk_valid(sk@) && sig@ == p256_sig_of(sk@, msg@) && sig@.len() == 64
                && p256_verify_ok(p256_pub_of(sk@), msg@, sig@),
            None => !p256_sk_valid(sk@),
        },
{
    let key = p256::ecdsa::SigningKey::from_slice(sk.as_slice()).ok()?;
    let sig: p256::ecdsa::Signature = key.sign(msg.as_slice());
    Some(sig.to_bytes().to_vec())
}

/// Relies on p256::ecdsa::VerifyingKey::from_sec1_bytes,
/// Signature::from_slice and Verifier::verify: returns whether the bytes
/// are a well-formed key and signature and the signature verifies.
#[verifier::external_body]
pub fn p256_verify(pk: &Vec<u8>, msg: &Vec<u8>, sig: &Vec<u8>) -> (r: bool)
    ensures
        r == p256_verify_ok(pk@, msg@, sig@),
{
    let key = match p256::ecdsa::VerifyingKey::from_sec1_bytes(pk.as_slice()) {
        Ok(k) => k,
        Err(_) => {
            return false;
        },
    };
    let sig = match p256::ecdsa::Signature::from_slice(sig.as_slice()) {
        Ok(s) => s,
        Err(_) => {
            return false;
        },
    };
    key.verify(msg.as_slice(), &sig).is_ok()
}

/// Relies on getrandom::fill for 16 bytes of OS randomness. Nothing is
/// promised of the values; on an OS RNG failure the buffer stays zeroed.
#[verifier::external_body]
pub fn random_token() -> (r: Vec<u8>)
    ensures
        r@.len() == 16,
{
    let mut buf = [0u8; 16];
    let _ = getrandom::fill(&mut buf);
    buf.to_vec()
}

/// Relies on String::from_utf8: ASCII bytes are valid UTF-8 and decode to
/// the characters with the same code points.
#[verifier::external_body]
pub fn ascii_to_string(bytes: &Vec<u8>) -> (r: String)
    requires
        forall|i: int| 0 <= i < bytes@.len() ==> bytes@[i] < 128,
    ensures
        r@.len() == bytes@.len(),
        forall|i: int| 0 <= i < bytes@.len() ==> r@[i] == bytes@[i] as char,
{
    String::from_utf8(bytes.clone()).unwrap_or_default()
}

} // verus!
