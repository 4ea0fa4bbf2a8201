use vstd::prelude::*;

verus! {

/// Whether ed25519-dalek accepts these bytes as a public key: 32 bytes that
/// decompress to a point of the curve.
pub uninterp spec fn ed25519_key_decodes(key: Seq<u8>) -> bool;

/// Whether ed25519 accepts these bytes as a signature: 64 bytes whose scalar
/// half has its three highest bits clear.
pub open spec fn ed25519_signature_decodes(sig: Seq<u8>) -> bool {
    sig.len() == 64 && sig[63] & 0xe0u8 == 0
}

/// Whether `sig` is a valid Ed25519 signature of `msg` under `key`.
pub uninterp spec fn ed25519_verifies(key: Seq<u8>, msg: Seq<u8>, sig: Seq<u8>) -> bool;

/// Relies on ed25519-dalek's `PublicKey::from_bytes`, which fails on a length
/// other than 32 and on bytes that do not decompress to a curve point.
#[verifier::external_body]
pub(crate) fn key_decodes(key: &[u8]) -> (r: bool)
    ensures
        r == ed25519_key_decodes(key@),
        key@.len() != 32 ==> !r,
{
    ed25519_dalek::PublicKey::from_bytes(key).is_ok()
}

/// Relies on ed25519's `Signature::from_bytes`, which fails on a length other
/// than 64 and on a scalar half with any of its three highest bits set.
#[verifier::external_body]
pub(crate) fn signature_decodes(sig: &[u8]) -> (r: bool)
    ensures
        r == ed25519_signature_decodes(sig@),
{
    ed25519_dalek::Signature::from_bytes(sig).is_ok()
}

/// Relies on ed25519-dalek's `Verifier::verify` for `PublicKey`: whether the
/// signature checks out over the message under the key. Decoding the key and
/// the signature cannot fail here, as the `requires` shows.
#[verifier::external_body]
pub(crate) fn signature_verifies(key: &[u8], msg: &[u8], sig: &[u8]) -> (r: bool)
    requires
        ed25519_key_decodes(key@),
        ed25519_signature_decodes(sig@),
    ensures
        r == ed25519_verifies(key@, msg@, sig@),
{
    match (ed25519_dalek::PublicKey::from_bytes(key), ed25519_dalek::Signature::from_bytes(sig)) {
        (Ok(k), Ok(s)) => ed25519_dalek::Verifier::verify(&k, msg, &s).is_ok(),
        _ => false,
    }
}

} // verus!
