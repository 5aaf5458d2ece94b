//! Hybrid encapsulation: X25519 and ML-KEM-768 shared secrets combined with HKDF.
use vstd::prelude::*;
use crate::crypto::{x25519_diffie_hellman, x25519_shared_secret, mlkem768_decapsulated};
use crate::derive::{combine_hybrid_secrets, hybrid_secret_of};
use crate::error::Result;
use crate::keys::key_id::KeyId;
use crate::pq::kem::{decapsulate, encapsulate};

verus! {

/// A recipient with both classical (X25519) and post-quantum (ML-KEM) public keys.
pub struct HybridRecipient {
    pub x25519_public: [u8; 32],
    pub mlkem_encapsulation_key: Vec<u8>,
    pub key_id: KeyId,
}

/// The result of hybrid encapsulation for one recipient.
pub struct HybridEncapsulation {
    /// The combined shared secret (X25519 and ML-KEM through HKDF).
    pub combined_shared_secret: [u8; 32],
    /// The ML-KEM ciphertext (to include in the envelope).
    pub mlkem_ciphertext: Vec<u8>,
}

/// Hybrid encapsulation for a recipient: X25519 agreement with the ephemeral secret and
/// a fresh ML-KEM-768 encapsulation, combined. The combined secret stays secure as long
/// as one of the two holds.
pub fn hybrid_encapsulate(recipient: &HybridRecipient, ephemeral_x25519_secret: &[u8; 32]) -> (r: HybridEncapsulation)
    requires
        recipient.mlkem_encapsulation_key@.len() == 1184,
    ensures
        r.mlkem_ciphertext@.len() == 1088,
        exists|ss: Seq<u8>|
            ss.len() == 32 && r.combined_shared_secret@ == #[trigger] hybrid_secret_of(
                x25519_shared_secret(ephemeral_x25519_secret@, recipient.x25519_public@),
                ss,
            ) && crate::crypto::mlkem768_encapsulated(recipient.mlkem_encapsulation_key@, ss, r.mlkem_ciphertext@),
{
    let x25519_bytes = x25519_diffie_hellman(ephemeral_x25519_secret, &recipient.x25519_public);
    let (mlkem_ss, mlkem_ct) = encapsulate(recipient.mlkem_encapsulation_key.as_slice());
    let combined = combine_hybrid_secrets(&x25519_bytes, mlkem_ss.as_slice());
    HybridEncapsulation { combined_shared_secret: combined, mlkem_ciphertext: mlkem_ct }
}

/// Hybrid decapsulation: X25519 agreement with the ephemeral public key and ML-KEM
/// decapsulation, combined.
pub fn hybrid_decapsulate(
    x25519_secret: &[u8; 32],
    ephemeral_x25519_public: &[u8; 32],
    mlkem_decapsulation_key: &[u8],
    mlkem_ciphertext: &[u8],
) -> (r: Result<[u8; 32]>)
    requires
        mlkem_decapsulation_key@.len() == 2400,
    ensures
        r is Ok <==> mlkem_ciphertext@.len() == 1088,
        r matches Err(e) ==> e is DecryptionError,
        r is Err ==> mlkem768_decapsulated(mlkem_decapsulation_key@, mlkem_ciphertext@) is None,
        r matches Ok(c) ==> mlkem768_decapsulated(mlkem_decapsulation_key@, mlkem_ciphertext@) matches Some(ss)
            && c@ == hybrid_secret_of(x25519_shared_secret(x25519_secret@, ephemeral_x25519_public@), ss),
{
    let x25519_bytes = x25519_diffie_hellman(x25519_secret, ephemeral_x25519_public);
    let mlkem_ss = decapsulate(mlkem_decapsulation_key, mlkem_ciphertext)?;
    Ok(combine_hybrid_secrets(&x25519_bytes, mlkem_ss.as_slice()))
}

} // verus!
