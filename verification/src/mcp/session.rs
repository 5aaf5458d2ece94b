//! Session state of the memory server: who is logged in, and the keys it resolves.
use vstd::prelude::*;
use crate::crypto::{ed25519_verifying_key, x25519_public_key};
use crate::derive::scope_read_secret;
use crate::encoding::{decode_exported_read_key, decode_spend_public, exported_decoded, spend_public_decoded};
use crate::error::{Result, RokError};
use crate::keys::read::ReadKeyPair;
use crate::keys::scope::Scope;
use crate::keys::spend::SpendKeyPair;
use crate::sdk::memory::{MemoryReader, MemoryStore};
use crate::sdk::storage::StorageBackend;

verus! {

/// Session role: what a session may read and write.
#[derive(Debug, Clone, Copy, PartialEq, Eq, Structural)]
pub enum Role {
    /// Has the spend seed: full read, write and grant.
    Owner,
    /// Has a scoped read key and the spend public key: read and propose only.
    Agent,
}

impl Role {
    /// The role's name: `owner` or `agent`.
    pub fn as_str(&self) -> (s: &'static str)
        ensures
            s@ == match *self {
                Role::Owner => "owner"@,
                Role::Agent => "agent"@,
            },
    {
        match self {
            Role::Owner => "owner",
            Role::Agent => "agent",
        }
    }
}

/// Credentials resolved from the environment, a config file or the login tool.
pub struct Credentials {
    pub fileverse_url: String,
    pub api_key: String,
    pub spend_seed: Option<[u8; 32]>,
    pub read_key_encoded: Option<String>,
    pub spend_public_encoded: Option<String>,
}

/// The persisted session configuration (stored at `~/.rok/session.json`).
pub struct SessionConfig {
    pub api_key: Option<String>,
    pub fileverse_url: Option<String>,
    pub spend_seed: Option<String>,
    pub read_key: Option<String>,
    pub spend_public: Option<String>,
    pub auto_load: Option<bool>,
}

impl Default for SessionConfig {
    fn default() -> (c: SessionConfig)
        ensures
            c.api_key is None,
            c.fileverse_url is None,
            c.spend_seed is None,
            c.read_key is None,
            c.spend_public is None,
            c.auto_load is None,
    {
        SessionConfig {
            api_key: None,
            fileverse_url: None,
            spend_seed: None,
            read_key: None,
            spend_public: None,
            auto_load: None,
        }
    }
}

/// Active session state, created after a successful login.
pub struct Session {
    pub role: Role,
    pub scope: Scope,
    pub credentials: Credentials,
    pub memory_count: usize,
}

impl Session {
    /// Create a new owner session from a spend seed.
    pub fn new_owner(spend_seed: [u8; 32], scope: Scope, fileverse_url: String, api_key: String) -> (s: Session)
        ensures
            s.role == Role::Owner,
            s.scope@ == scope@,
            s.credentials.spend_seed == Some(spend_seed),
            s.credentials.read_key_encoded is None,
            s.credentials.spend_public_encoded is None,
            s.credentials.fileverse_url@ == fileverse_url@,
            s.credentials.api_key@ == api_key@,
            s.memory_count == 0,
    {
        Session {
            role: Role::Owner,
            scope,
            credentials: Credentials {
                fileverse_url,
                api_key,
                spend_seed: Some(spend_seed),
                read_key_encoded: None,
                spend_public_encoded: None,
            },
            memory_count: 0,
        }
    }

    /// Create a new agent session from an encoded read key and an encoded spend public key.
    pub fn new_agent(
        read_key_encoded: String,
        spend_public_encoded: String,
        scope: Scope,
        fileverse_url: String,
        api_key: String,
    ) -> (s: Session)
        ensures
            s.role == Role::Agent,
            s.scope@ == scope@,
            s.credentials.spend_seed is None,
            s.credentials.read_key_encoded matches Some(t) && t@ == read_key_encoded@,
            s.credentials.spend_public_encoded matches Some(t) && t@ == spend_public_encoded@,
            s.credentials.fileverse_url@ == fileverse_url@,
            s.credentials.api_key@ == api_key@,
            s.memory_count == 0,
    {
        Session {
            role: Role::Agent,
            scope,
            credentials: Credentials {
                fileverse_url,
                api_key,
                spend_seed: None,
                read_key_encoded: Some(read_key_encoded),
                spend_public_encoded: Some(spend_public_encoded),
            },
            memory_count: 0,
        }
    }

    /// Load the spend key (owner sessions only).
    pub fn spend_key(&self) -> (r: Result<SpendKeyPair>)
        ensures
            match self.credentials.spend_seed {
                Some(seed) => r matches Ok(k) && k@.seed == seed@ && k@.public == ed25519_verifying_key(seed@),
                None => r matches Err(e) && e is KeyNotFound,
            },
    {
        match &self.credentials.spend_seed {
            Some(seed) => Ok(SpendKeyPair::from_seed(seed)),
            None => Err(RokError::KeyNotFound(String::from_str("no spend seed: session is agent role"))),
        }
    }

    /// Whether the session's read key resolves: an owner has a spend seed; an agent has an
    /// exported read key that decodes to a consistent key.
    pub open spec fn read_key_resolves(&self) -> bool {
        match self.role {
            Role::Owner => self.credentials.spend_seed is Some,
            Role::Agent => match self.credentials.read_key_encoded {
                Some(text) => exported_decoded(text@) matches Ok(v) && v.public == x25519_public_key(v.secret),
                None => false,
            },
        }
    }

    /// Whether `k` is the session's read key: for an owner, the key that the spend seed
    /// derives at the session's scope; for an agent, the key its exported read key
    /// decodes to, where that key is consistent.
    pub open spec fn is_session_read_key(&self, k: crate::keys::read::ReadKeyView) -> bool {
        match self.role {
            Role::Owner => match self.credentials.spend_seed {
                Some(seed) => k.secret == scope_read_secret(seed@, self.scope@) && k.public
                    == x25519_public_key(k.secret) && k.scope == self.scope@,
                None => false,
            },
            Role::Agent => match self.credentials.read_key_encoded {
                Some(text) => match exported_decoded(text@) {
                    Ok(v) => v.public == x25519_public_key(v.secret) && k.secret == v.secret && k.public
                        == v.public && k.scope == v.scope && k.parent_key_id == v.parent_key_id,
                    Err(_) => false,
                },
                None => false,
            },
        }
    }

    /// Load the read key: an owner derives it from the spend seed at the session's scope;
    /// an agent decodes and imports its own.
    pub fn read_key(&self) -> (r: Result<ReadKeyPair>)
        ensures
            match self.role {
                Role::Owner => match self.credentials.spend_seed {
                    Some(seed) => r matches Ok(k) && k@.secret == scope_read_secret(seed@, self.scope@)
                        && k@.public == x25519_public_key(k@.secret) && k@.scope == self.scope@,
                    None => r is Err,
                },
                Role::Agent => match self.credentials.read_key_encoded {
                    Some(text) => match exported_decoded(text@) {
                        Ok(v) => if v.public == x25519_public_key(v.secret) {
                            r matches Ok(k) && k@.secret == v.secret && k@.public == v.public
                                && k@.scope == v.scope && k@.parent_key_id == v.parent_key_id
                        } else {
                            r matches Err(e) && e is InvalidKeyMaterial
                        },
                        Err(_) => r is Err,
                    },
                    None => r is Err,
                },
            },
    {
        match self.role {
            Role::Owner => {
                let spend = self.spend_key()?;
                let root = spend.derive_root_read_key();
                if self.scope.is_root() {
                    Ok(root)
                } else {
                    proof {
                        use_type_invariant(&self.scope);
                        crate::keys::scope::lemma_root_ancestor_of_all(self.scope@);
                    }
                    root.derive_child(&self.scope)
                }
            },
            Role::Agent => {
                let encoded = match &self.credentials.read_key_encoded {
                    Some(t) => t,
                    None => {
                        return Err(RokError::KeyNotFound(String::from_str("no read key in agent session")));
                    },
                };
                let exported = decode_exported_read_key(encoded.as_str())?;
                ReadKeyPair::import(&exported)
            },
        }
    }

    /// The spend verifying key, for signature verification.
    pub fn spend_verifying_key(&self) -> (r: Result<[u8; 32]>)
        ensures
            match self.role {
                Role::Owner => match self.credentials.spend_seed {
                    Some(seed) => r matches Ok(v) && v@ == ed25519_verifying_key(seed@),
                    None => r is Err,
                },
                Role::Agent => match self.credentials.spend_public_encoded {
                    Some(text) => match spend_public_decoded(text@) {
                        Ok(k) => r matches Ok(v) && v@ == k,
                        Err(_) => r is Err,
                    },
                    None => r is Err,
                },
            },
    {
        match self.role {
            Role::Owner => {
                let spend = self.spend_key()?;
                Ok(spend.verifying_key())
            },
            Role::Agent => {
                let encoded = match &self.credentials.spend_public_encoded {
                    Some(t) => t,
                    None => {
                        return Err(RokError::KeyNotFound(String::from_str("no spend public in agent session")));
                    },
                };
                decode_spend_public(encoded.as_str())
            },
        }
    }

    /// Build a memory store over a backend (owner sessions only).
    pub fn memory_store_with<B: StorageBackend>(&self, backend: B) -> (r: Result<MemoryStore<B>>)
        ensures
            match self.credentials.spend_seed {
                Some(seed) => r matches Ok(s) && s.spend_key()@.seed == seed@
                    && s.spend_key()@.public == crate::crypto::ed25519_verifying_key(seed@)
                    && s.stored_backend() == backend,
                None => r is Err,
            },
    {
        let spend = self.spend_key()?;
        proof {
            use_type_invariant(&spend);
        }
        Ok(MemoryStore::new(spend, backend))
    }

    /// Build a memory reader over a backend.
    pub fn memory_reader_with<B: StorageBackend>(&self, backend: B) -> (r: Result<MemoryReader<B>>)
        ensures
            r is Ok <==> self.spend_verifying_key_spec() is Some,
            r matches Ok(m) ==> self.spend_verifying_key_spec() == Some(m.spend_vk()) && m.stored_backend() == backend,
    {
        let vk = self.spend_verifying_key()?;
        Ok(MemoryReader::new(vk, backend))
    }

    /// The spend verifying key that `spend_verifying_key` resolves, if any.
    pub open spec fn spend_verifying_key_spec(&self) -> Option<Seq<u8>> {
        match self.role {
            Role::Owner => match self.credentials.spend_seed {
                Some(seed) => Some(ed25519_verifying_key(seed@)),
                None => None,
            },
            Role::Agent => match self.credentials.spend_public_encoded {
                Some(text) => match spend_public_decoded(text@) {
                    Ok(k) => Some(k),
                    Err(_) => None,
                },
                None => None,
            },
        }
    }
}

} // verus!
