use ed25519_dalek::{Signature, Signer, SigningKey, Verifier, VerifyingKey};
use rand::rngs::OsRng;
use rand::RngCore;
use vstd::prelude::*;

verus! {

/// The ed25519 public key of a 32-byte secret key.
pub uninterp spec fn ed25519_public_of(secret: Seq<u8>) -> Seq<u8>;

/// The ed25519 signature of `msg` made with a 32-byte secret key.
pub uninterp spec fn ed25519_signature_of(secret: Seq<u8>, msg: Seq<u8>) -> Seq<u8>;

/// Whether `sig` is a valid ed25519 signature of `msg` under public key `pk`.
pub uninterp spec fn ed25519_accepts(pk: Seq<u8>, msg: Seq<u8>, sig: Seq<u8>) -> bool;

/// Relies on rand's `OsRng::try_fill_bytes`: 32 bytes from the operating system's generator,
/// or `None` when the generator fails.
#[verifier::external_body]
pub(crate) fn random_secret() -> (r: Option<Vec<u8>>)
    ensures
        r matches Some(v) ==> v@.len() == 32,
{
    let mut bytes = [0u8; 32];
    match OsRng.try_fill_bytes(&mut bytes) {
        Ok(()) => Some(bytes.to_vec()),
        Err(_) => None,
    }
}

/// Relies on ed25519-dalek's `SigningKey::from_bytes` and `verifying_key`: the 32-byte
/// public key of a secret key.
#[verifier::external_body]
pub(crate) fn public_key_of(secret: &[u8]) -> (r: Vec<u8>)
    requires
        secret@.len() == 32,
    ensures
        r@ == ed25519_public_of(secret@),
        r@.len() == 32,
{
    let bytes: [u8; 32] = secret.try_into().unwrap();
    SigningKey::from_bytes(&bytes).verifying_key().to_bytes().to_vec()
}

/// Relies on ed25519-dalek's `Signer::sign` for `SigningKey`: a 64-byte signature.
#[verifier::external_body]
pub(crate) fn sign_message(secret: &[u8], msg: &[u8]) -> (r: Vec<u8>)
    requires
        secret@.len() == 32,
    ensures
        r@ == ed25519_signature_of(secret@, msg@),
        r@.len() == 64,
{
    let bytes: [u8; 32] = secret.try_into().unwrap();
    SigningKey::from_bytes(&bytes).sign(msg).to_bytes().to_vec()
}

/// Relies on ed25519-dalek's `VerifyingKey::from_bytes`, `Signature::from_slice` and
/// `Verifier::verify`: whether the signature checks; a malformed key or signature does not.
#[verifier::external_body]
pub(crate) fn verify_message(pk: &[u8], msg: &[u8], sig: &[u8]) -> (r: bool)
    ensures
        r == ed25519_accepts(pk@, msg@, sig@),
{
    let Ok(bytes) = <[u8; 32]>::try_from(pk) else { return false };
    let Ok(key) = VerifyingKey::from_bytes(&bytes) else { return false };
    let Ok(signature) = Signature::from_slice(sig) else { return false };
    key.verify(msg, &signature).is_ok()
}

} // verus!
