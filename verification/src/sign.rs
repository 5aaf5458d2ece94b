//! Detached Ed25519 signatures with a spend key.
use vstd::prelude::*;
use crate::crypto::{ed25519_accepts, ed25519_signature, ed25519_verify};
use crate::error::{Result, RokError};
use crate::keys::spend::SpendKeyPair;

verus! {

/// Sign arbitrary data with a spend key (Ed25519). The signature verifies under the
/// spend key's own verifying key.
pub fn sign(spend_key: &SpendKeyPair, data: &[u8]) -> (sig: [u8; 64])
    ensures
        sig@ == ed25519_signature(spend_key@.seed, data@),
        ed25519_accepts(spend_key@.public, data@, sig@),
{
    spend_key.sign_bytes(data)
}

/// Verify a signature against a spend verifying key.
pub fn verify(verifying_key: &[u8; 32], data: &[u8], signature_bytes: &[u8; 64]) -> (r: Result<()>)
    ensures
        r is Ok <==> ed25519_accepts(verifying_key@, data@, signature_bytes@),
        r matches Err(e) ==> e is SignatureVerificationFailed,
{
    if ed25519_verify(verifying_key, data, signature_bytes) {
        Ok(())
    } else {
        Err(RokError::SignatureVerificationFailed)
    }
}

} // verus!
