use vstd::prelude::*;

verus! {

/// The digest that SHA-256 assigns to a byte sequence. The algorithm itself is
/// left uninterpreted: contracts relate results through this name.
pub uninterp spec fn sha256_of(data: Seq<u8>) -> Seq<u8>;

/// Whether an ed25519 signature over a message is valid under a public key.
/// Validity depends on the three byte strings alone.
pub uninterp spec fn sig_valid(msg: Seq<u8>, sig: Seq<u8>, pk: Seq<u8>) -> bool;

/// Relies on sha2::Sha256::digest: the digest is 32 bytes and depends on the
/// input bytes alone.
#[verifier::external_body]
pub fn sha256(data: &Vec<u8>) -> (r: Vec<u8>)
    ensures
        r@ == sha256_of(data@),
        r@.len() == 32,
{
    sha2::Sha256::digest(data.as_slice()).to_vec()
}

/// Relies on ed25519_dalek::VerifyingKey::from_bytes, ed25519::Signature::from_bytes
/// and ed25519_dalek::Verifier::verify: verification succeeds exactly when the
/// signature is valid for the message under the key, and depends on the three
/// byte strings alone. A key or signature of the wrong length, or key bytes that
/// decode to no curve point, never verify.
#[verifier::external_body]
pub fn signature_valid(msg: &Vec<u8>, sig: &Vec<u8>, pk: &Vec<u8>) -> (r: bool)
    ensures
        r == sig_valid(msg@, sig@, pk@),
{
    let pk_arr: [u8; 32] = match pk.as_slice().try_into() {
        Ok(a) => a,
        Err(_) => return false,
    };
    let sig_arr: [u8; 64] = match sig.as_slice().try_into() {
        Ok(a) => a,
        Err(_) => return false,
    };
    let key = match ed25519_dalek::VerifyingKey::from_bytes(&pk_arr) {
        Ok(k) => k,
        Err(_) => return false,
    };
    let signature = ed25519_dalek::Signature::from_bytes(&sig_arr);
    key.verify(msg.as_slice(), &signature).is_ok()
}

} // verus!

use sha2::Digest;
use ed25519_dalek::Verifier;
