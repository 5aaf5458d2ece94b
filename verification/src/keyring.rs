//! The key store interface and the metadata it lists.
use vstd::prelude::*;
use crate::error::Result;
use crate::keys::key_id::KeyId;
use crate::keys::read::{opt_key_id_view, ReadKeyPair};
use crate::keys::scope::Scope;
use crate::keys::spend::SpendKeyPair;

verus! {

/// Storage of key material.
///
/// Implementations handle persistence and encryption-at-rest of key material.
pub trait KeyStore {
    /// Store a spend key pair (should be encrypted at rest).
    fn store_spend_key(&mut self, label: &str, key: &SpendKeyPair) -> Result<()>;

    /// Retrieve a spend key pair by label.
    fn load_spend_key(&self, label: &str) -> Result<SpendKeyPair>;

    /// Store a read key pair.
    fn store_read_key(&mut self, key: &ReadKeyPair) -> Result<()>;

    /// Retrieve a read key pair by key identifier.
    fn load_read_key(&self, key_id: &KeyId) -> Result<ReadKeyPair>;

    /// List all stored read keys (metadata only, no secrets).
    fn list_read_keys(&self) -> Result<Vec<ReadKeyInfo>>;

    /// Mark a key as revoked.
    fn revoke_key(&mut self, key_id: &KeyId) -> Result<()>;

    /// Check whether a key is revoked.
    fn is_revoked(&self, key_id: &KeyId) -> Result<bool>;

    /// Delete a key from storage.
    fn delete_key(&mut self, key_id: &KeyId) -> Result<()>;
}

/// Metadata about a stored read key (no secrets).
#[derive(Debug)]
pub struct ReadKeyInfo {
    pub key_id: KeyId,
    pub scope: Scope,
    pub parent_key_id: Option<KeyId>,
    pub created_at: u64,
    pub revoked: bool,
    pub label: Option<String>,
}

/// The mathematical content of read key metadata.
pub struct ReadKeyInfoView {
    pub key_id: Seq<u8>,
    pub scope: Seq<char>,
    pub parent_key_id: Option<Seq<u8>>,
    pub created_at: u64,
    pub revoked: bool,
    pub label: Option<Seq<char>>,
}

/// The view of an optional string.
pub open spec fn opt_text_view(o: Option<String>) -> Option<Seq<char>> {
    match o {
        Some(s) => Some(s@),
        None => None,
    }
}

impl View for ReadKeyInfo {
    type V = ReadKeyInfoView;

    open spec fn view(&self) -> ReadKeyInfoView {
        ReadKeyInfoView {
            key_id: self.key_id@,
            scope: self.scope@,
            parent_key_id: opt_key_id_view(self.parent_key_id),
            created_at: self.created_at,
            revoked: self.revoked,
            label: opt_text_view(self.label),
        }
    }
}

impl ReadKeyInfo {
    /// An exact copy of this metadata.
    pub fn duplicate(&self) -> (r: ReadKeyInfo)
        ensures
            r@ == self@,
    {
        ReadKeyInfo {
            key_id: self.key_id,
            scope: self.scope.clone(),
            parent_key_id: self.parent_key_id,
            created_at: self.created_at,
            revoked: self.revoked,
            label: match &self.label {
                Some(l) => Some(l.clone()),
                None => None,
            },
        }
    }
}

} // verus!
