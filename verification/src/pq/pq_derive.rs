//! Deterministic ML-KEM key pairs from read secrets.
use vstd::prelude::*;
use crate::crypto::{mlkem768_keypair_from_seed, mlkem768_seeded_keypair};
use crate::derive::{derive_pq_key_seed, pq_key_seed_of};
use crate::keys::scope::Scope;
use crate::pq::kem::PqKeyPair;

verus! {

/// The ML-KEM-768 key pair of a read secret at a scope.
pub open spec fn pq_keypair_of(read_secret: Seq<u8>, scope: Seq<char>) -> (Seq<u8>, Seq<u8>) {
    mlkem768_seeded_keypair(pq_key_seed_of(read_secret, scope))
}

/// Derive an ML-KEM-768 key pair deterministically from a read key secret and a scope.
///
/// HKDF gives a seed, which seeds a ChaCha20 random stream for the key generation. The
/// same secret and scope always give the same key pair, so encryptor and decryptor
/// derive matching keys independently.
pub fn derive_pq_keypair(read_secret: &[u8; 32], scope: &Scope) -> (k: PqKeyPair)
    ensures
        k@ == pq_keypair_of(read_secret@, scope@),
{
    let seed = derive_pq_key_seed(read_secret, scope);
    let (dk, ek) = mlkem768_keypair_from_seed(&seed);
    PqKeyPair::from_parts(dk, ek)
}

} // verus!
