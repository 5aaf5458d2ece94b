//! Scope-bound X25519 read keys and their delegation.
use vstd::prelude::*;
use crate::crypto::{x25519_public, x25519_public_key};
use crate::derive::{derive_child_read_secret, read_secret_below};
use crate::error::{Result, RokError};
use crate::keys::key_id::{key_id_of, KeyId};
use crate::keys::scope::{ancestor_path, child_path, lemma_child_is_descendant, valid_segment, Scope};

verus! {

/// The mathematical content of a read key.
pub struct ReadKeyView {
    pub secret: Seq<u8>,
    pub public: Seq<u8>,
    pub scope: Seq<char>,
    pub parent_key_id: Option<Seq<u8>>,
}

/// The view of an optional key identifier.
pub open spec fn opt_key_id_view(k: Option<KeyId>) -> Option<Seq<u8>> {
    match k {
        Some(id) => Some(id@),
        None => None,
    }
}

/// A read key pair for viewing encrypted data at a specific scope.
///
/// Uses X25519 for ECDH key agreement. Each read key is bound to a scope and can only
/// decrypt data at that scope or descendant scopes. A parent read key holder can derive
/// child read keys at narrower scopes without involving the spend key.
pub struct ReadKeyPair {
    secret: [u8; 32],
    public: [u8; 32],
    scope: Scope,
    parent_key_id: Option<KeyId>,
}

impl View for ReadKeyPair {
    type V = ReadKeyView;

    closed spec fn view(&self) -> ReadKeyView {
        ReadKeyView {
            secret: self.secret@,
            public: self.public@,
            scope: self.scope@,
            parent_key_id: opt_key_id_view(self.parent_key_id),
        }
    }
}

/// A read key stripped to what is needed for delegation and serialization.
pub struct ExportedReadKey {
    pub secret_bytes: [u8; 32],
    pub public_bytes: [u8; 32],
    pub scope: Scope,
    pub parent_key_id: Option<KeyId>,
}

/// The mathematical content of an exported read key.
pub struct ExportedReadKeyView {
    pub secret: Seq<u8>,
    pub public: Seq<u8>,
    pub scope: Seq<char>,
    pub parent_key_id: Option<Seq<u8>>,
}

impl View for ExportedReadKey {
    type V = ExportedReadKeyView;

    open spec fn view(&self) -> ExportedReadKeyView {
        ExportedReadKeyView {
            secret: self.secret_bytes@,
            public: self.public_bytes@,
            scope: self.scope@,
            parent_key_id: opt_key_id_view(self.parent_key_id),
        }
    }
}

impl ReadKeyPair {
    /// The secret is 32 bytes long and the public key belongs to it.
    #[verifier::type_invariant]
    pub open spec fn inv(self) -> bool {
        &&& self@.secret.len() == 32
        &&& self@.public == x25519_public_key(self@.secret)
    }

    /// Create from raw secret bytes, scope, and optional parent key identifier.
    pub(crate) fn from_secret_bytes(
        secret_bytes: [u8; 32],
        scope: Scope,
        parent_key_id: Option<KeyId>,
    ) -> (k: ReadKeyPair)
        ensures
            k@.secret == secret_bytes@,
            k@.public == x25519_public_key(secret_bytes@),
            k@.scope == scope@,
            k@.parent_key_id == opt_key_id_view(parent_key_id),
    {
        let public = x25519_public(&secret_bytes);
        ReadKeyPair { secret: secret_bytes, public, scope, parent_key_id }
    }

    /// The X25519 public key (shared with encryptors).
    pub fn public_key(&self) -> (p: &[u8; 32])
        ensures
            p@ == self@.public,
    {
        &self.public
    }

    /// The scope this key grants access to.
    pub fn scope(&self) -> (s: &Scope)
        ensures
            s@ == self@.scope,
    {
        &self.scope
    }

    /// The key identifier of the parent read key (`None` for a root key).
    pub fn parent_key_id(&self) -> (p: Option<&KeyId>)
        ensures
            match p {
                Some(id) => self@.parent_key_id == Some(id@),
                None => self@.parent_key_id is None,
            },
    {
        match &self.parent_key_id {
            Some(id) => Some(id),
            None => None,
        }
    }

    /// The key identifier of this read key.
    pub fn key_id(&self) -> (id: KeyId)
        ensures
            id@ == key_id_of(self@.public),
    {
        KeyId::from_public_bytes(&self.public)
    }

    /// Can this key access the given target scope? A read key can access its own scope
    /// and any descendant scope.
    pub fn can_access(&self, target_scope: &Scope) -> (r: bool)
        ensures
            r == ancestor_path(self@.scope, target_scope@),
    {
        self.scope.is_ancestor_of(target_scope)
    }

    /// Derive a child read key at a proper sub-scope of this key's scope.
    pub fn derive_child(&self, child_scope: &Scope) -> (r: Result<ReadKeyPair>)
        ensures
            r is Ok <==> (ancestor_path(self@.scope, child_scope@) && self@.scope
                != child_scope@),
            r matches Ok(k) ==> {
                &&& k@.secret == read_secret_below(self@.secret, self@.scope, child_scope@)
                &&& k@.public == x25519_public_key(k@.secret)
                &&& k@.scope == child_scope@
                &&& k@.parent_key_id == Some(key_id_of(self@.public))
            },
            r matches Err(e) ==> e is DerivationError,
    {
        let parent_key_id = self.key_id();
        let child_secret = derive_child_read_secret(&self.secret, &self.scope, child_scope)?;
        Ok(ReadKeyPair::from_secret_bytes(child_secret, child_scope.clone(), Some(parent_key_id)))
    }

    /// Derive a child for a single path segment.
    pub fn derive_child_segment(&self, segment: &str) -> (r: Result<ReadKeyPair>)
        ensures
            r is Ok <==> valid_segment(segment@),
            r matches Ok(k) ==> {
                &&& k@.scope == child_path(self@.scope, segment@)
                &&& k@.secret == read_secret_below(self@.secret, self@.scope, k@.scope)
                &&& k@.public == x25519_public_key(k@.secret)
                &&& k@.parent_key_id == Some(key_id_of(self@.public))
            },
            r matches Err(e) ==> e is InvalidScope,
    {
        let child_scope = self.scope.child(segment)?;
        proof {
            use_type_invariant(&self.scope);
            lemma_child_is_descendant(self@.scope, segment@);
        }
        match self.derive_child(&child_scope) {
            Ok(k) => Ok(k),
            Err(e) => {
                assert(false);
                Err(e)
            },
        }
    }

    /// The secret bytes of this key (for ECDH). Handle with care.
    pub fn secret(&self) -> (s: &[u8; 32])
        ensures
            s@ == self@.secret,
    {
        &self.secret
    }

    /// Export the secret bytes of this key. Handle with care.
    pub fn secret_bytes(&self) -> (s: [u8; 32])
        ensures
            s@ == self@.secret,
    {
        self.secret
    }

    /// Export the read key for delegation.
    pub fn export(&self) -> (e: ExportedReadKey)
        ensures
            e.secret_bytes@ == self@.secret,
            e.public_bytes@ == self@.public,
            e.scope@ == self@.scope,
            opt_key_id_view(e.parent_key_id) == self@.parent_key_id,
    {
        ExportedReadKey {
            secret_bytes: self.secret,
            public_bytes: self.public,
            scope: self.scope.clone(),
            parent_key_id: self.parent_key_id,
        }
    }

    /// Import a previously exported read key; its public key must belong to its secret.
    pub fn import(exported: &ExportedReadKey) -> (r: Result<ReadKeyPair>)
        ensures
            r is Ok <==> exported.public_bytes@ == x25519_public_key(exported.secret_bytes@),
            r matches Ok(k) ==> {
                &&& k@.secret == exported.secret_bytes@
                &&& k@.public == exported.public_bytes@
                &&& k@.scope == exported.scope@
                &&& k@.parent_key_id == opt_key_id_view(exported.parent_key_id)
            },
            r matches Err(e) ==> e is InvalidKeyMaterial,
    {
        let public = x25519_public(&exported.secret_bytes);
        if !crate::bytes::bytes_equal(&public, &exported.public_bytes) {
            return Err(RokError::InvalidKeyMaterial);
        }
        Ok(
            ReadKeyPair {
                secret: exported.secret_bytes,
                public,
                scope: exported.scope.clone(),
                parent_key_id: exported.parent_key_id,
            },
        )
    }
}

} // verus!
