//! The Ed25519 spend key, root of trust of a key hierarchy.
use vstd::prelude::*;
use crate::crypto::{ed25519_public, ed25519_sign, ed25519_signature, ed25519_accepts, ed25519_verifying_key, random_bytes, x25519_public_key};
use crate::derive::{derive_root_read_secret, root_read_secret};
use crate::keys::key_id::{key_id_of, KeyId};
use crate::keys::read::ReadKeyPair;
use crate::keys::scope::{root_path, Scope};

verus! {

/// The mathematical content of a spend key: its seed and its verifying key.
pub struct SpendKeyView {
    pub seed: Seq<u8>,
    pub public: Seq<u8>,
}

/// The spend key pair — the root of trust.
///
/// Uses Ed25519 for signing. The spend key holder has full authority: it signs
/// envelopes, derives every read key of the hierarchy and can encrypt for any scope.
/// The seed must never leave the owner's control.
pub struct SpendKeyPair {
    seed: [u8; 32],
    public: [u8; 32],
}

impl View for SpendKeyPair {
    type V = SpendKeyView;

    closed spec fn view(&self) -> SpendKeyView {
        SpendKeyView { seed: self.seed@, public: self.public@ }
    }
}

impl SpendKeyPair {
    /// The verifying key always belongs to the seed.
    #[verifier::type_invariant]
    pub open spec fn inv(self) -> bool {
        self@.public == ed25519_verifying_key(self@.seed)
    }

    /// Generate a new random spend key pair.
    pub fn generate() -> (k: SpendKeyPair)
        ensures
            k@.seed.len() == 32,
            k@.public == ed25519_verifying_key(k@.seed),
    {
        let bytes = random_bytes(32);
        let seed = crate::bytes::array32(bytes.as_slice(), 0);
        SpendKeyPair::from_seed(&seed)
    }

    /// Recover from a 32-byte seed (for backup/restore).
    pub fn from_seed(seed: &[u8; 32]) -> (k: SpendKeyPair)
        ensures
            k@.seed == seed@,
            k@.public == ed25519_verifying_key(seed@),
    {
        let public = ed25519_public(seed);
        SpendKeyPair { seed: *seed, public }
    }

    /// Export the seed bytes (for backup). The caller must secure them.
    pub fn seed(&self) -> (s: [u8; 32])
        ensures
            s@ == self@.seed,
    {
        self.seed
    }

    /// The public verifying key (the owner's public identity).
    pub fn verifying_key(&self) -> (v: [u8; 32])
        ensures
            v@ == self@.public,
            v@ == ed25519_verifying_key(self@.seed),
    {
        proof {
            use_type_invariant(self);
        }
        self.public
    }

    /// Sign a message with this key; the signature verifies under the key's own
    /// verifying key.
    pub(crate) fn sign_bytes(&self, msg: &[u8]) -> (sig: [u8; 64])
        ensures
            sig@ == ed25519_signature(self@.seed, msg@),
            ed25519_accepts(self@.public, msg@, sig@),
    {
        proof {
            use_type_invariant(self);
        }
        ed25519_sign(&self.seed, msg)
    }

    /// Derive the root read key at scope `/`, the top of the read key hierarchy.
    pub fn derive_root_read_key(&self) -> (k: ReadKeyPair)
        ensures
            k@.secret == root_read_secret(self@.seed),
            k@.public == x25519_public_key(k@.secret),
            k@.scope == root_path(),
            k@.parent_key_id is None,
    {
        let secret = derive_root_read_secret(&self.seed);
        ReadKeyPair::from_secret_bytes(secret, Scope::root(), None)
    }

    /// The key identifier of this spend key's verifying key.
    pub fn key_id(&self) -> (id: KeyId)
        ensures
            id@ == key_id_of(self@.public),
    {
        KeyId::from_public_bytes(&self.public)
    }
}

} // verus!
