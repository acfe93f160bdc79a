//! Ed25519 signatures over byte strings.

use vstd::prelude::*;
use crate::hash::MAX_INPUT_LEN;

verus! {

/// `ring::error::KeyRejected`, the error of a key that ring does not
/// accept. Nothing is read from it.
#[verifier::external_type_specification]
#[verifier::external_body]
pub struct ExKeyRejected(ring::error::KeyRejected);

/// `ring::error::Unspecified`, the error of a signature that ring does not
/// accept. Nothing is read from it.
#[verifier::external_type_specification]
#[verifier::external_body]
pub struct ExUnspecified(ring::error::Unspecified);

/// The Ed25519 signature of `msg` under the key pair that the PKCS#8
/// document `pkcs8` holds, or `None` where the document is not accepted as
/// an Ed25519 key pair.
pub uninterp spec fn ed25519_signature(pkcs8: Seq<u8>, msg: Seq<u8>) -> Option<Seq<u8>>;

/// Whether `signature` is accepted as an Ed25519 signature of `msg` under
/// the public key `public_key`.
pub uninterp spec fn ed25519_accepts(public_key: Seq<u8>, msg: Seq<u8>, signature: Seq<u8>) -> bool;

/// Calls `ring::signature::Ed25519KeyPair::from_pkcs8` on the document and
/// then `sign` on the key pair it gives. Signing is deterministic, so the
/// contract names the outcome `ed25519_signature` of the two byte strings:
/// the signature's bytes, or nothing where the document was rejected.
/// Signing hashes the message behind 64 bytes of its own; `MAX_INPUT_LEN`
/// keeps the bit length of that within 64 bits, beyond which the outside
/// function panics.
#[verifier::external_body]
pub(crate) fn ring_ed25519_sign(pkcs8: &[u8], msg: &[u8]) -> (r: Result<
    Vec<u8>,
    ring::error::KeyRejected,
>)
    requires
        msg@.len() < MAX_INPUT_LEN,
    ensures
        match r {
            Ok(signature) => ed25519_signature(pkcs8@, msg@) == Some(signature@),
            Err(_) => ed25519_signature(pkcs8@, msg@) is None,
        },
{
    let key_pair = ring::signature::Ed25519KeyPair::from_pkcs8(pkcs8)?;
    Ok(key_pair.sign(msg).as_ref().to_vec())
}

/// Calls `verify` on a `ring::signature::UnparsedPublicKey` made of
/// `ring::signature::ED25519` and the key's bytes. The contract names the
/// verdict `ed25519_accepts` of the three byte strings: the call returns
/// `Ok` exactly when the signature is accepted. `MAX_INPUT_LEN` bounds the
/// message as for signing.
#[verifier::external_body]
pub(crate) fn ring_ed25519_verify(public_key: &[u8], msg: &[u8], signature: &[u8]) -> (r: Result<
    (),
    ring::error::Unspecified,
>)
    requires
        msg@.len() < MAX_INPUT_LEN,
    ensures
        r is Ok <==> ed25519_accepts(public_key@, msg@, signature@),
{
    ring::signature::UnparsedPublicKey::new(&ring::signature::ED25519, public_key).verify(
        msg,
        signature,
    )
}

} // verus!
