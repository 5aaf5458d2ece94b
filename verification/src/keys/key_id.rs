//! Eight-byte key identifiers derived from public keys.
use vstd::prelude::*;
use crate::bytes::array8;
use crate::crypto::{base58_bytes, base58_text, bs58_decode, bs58_encode, sha256, sha256_digest};
use crate::error::{Result, RokError};

verus! {

/// The identifier of a public key: the first 8 bytes of its SHA-256 digest.
pub open spec fn key_id_of(public: Seq<u8>) -> Seq<u8> {
    sha256_digest(public).subrange(0, 8)
}

/// What a Base58 text decodes to as a key identifier: its bytes, when there are exactly 8.
pub open spec fn key_id_from_text(text: Seq<char>) -> Option<Seq<u8>> {
    match base58_bytes(text) {
        Some(b) => if b.len() == 8 {
            Some(b)
        } else {
            None
        },
        None => None,
    }
}

/// A key identifier: the first 8 bytes of SHA-256(public_key_bytes).
///
/// Used for matching access entries during decryption without revealing
/// the full public key.
#[derive(Debug, Clone, Copy, Hash)]
pub struct KeyId([u8; 8]);

impl View for KeyId {
    type V = Seq<u8>;

    closed spec fn view(&self) -> Seq<u8> {
        self.0@
    }
}

/// A key identifier is eight bytes long.
pub proof fn lemma_key_id_len(id: KeyId)
    ensures
        id@.len() == 8,
{
}

impl PartialEq for KeyId {
    fn eq(&self, other: &Self) -> (r: bool) {
        crate::bytes::bytes_equal(&self.0, &other.0)
    }
}

impl vstd::std_specs::cmp::PartialEqSpecImpl for KeyId {
    open spec fn obeys_eq_spec() -> bool {
        true
    }

    open spec fn eq_spec(&self, other: &Self) -> bool {
        self@ == other@
    }
}

impl Eq for KeyId {}

impl KeyId {
    /// Compute a key identifier from raw public key bytes.
    pub fn from_public_bytes(public_key: &[u8]) -> (id: KeyId)
        ensures
            id@ == key_id_of(public_key@),
    {
        let hash = sha256(public_key);
        KeyId(array8(&hash, 0))
    }

    /// Access the raw 8-byte identifier.
    pub fn as_bytes(&self) -> (b: &[u8; 8])
        ensures
            b@ == self@,
    {
        &self.0
    }

    /// Encode as a Base58 string; decoding it with `from_base58` gives this identifier back.
    pub fn to_base58(&self) -> (s: String)
        ensures
            s@ == base58_text(self@),
            key_id_from_text(s@) == Some(self@),
    {
        bs58_encode(&self.0)
    }

    /// Decode from a Base58 string.
    pub fn from_base58(s: &str) -> (r: Result<KeyId>)
        ensures
            match r {
                Ok(id) => key_id_from_text(s@) == Some(id@),
                Err(e) => key_id_from_text(s@) is None && e is EncodingError,
            },
    {
        match bs58_decode(s) {
            None => Err(RokError::EncodingError(String::from_str("invalid base58"))),
            Some(bytes) => {
                if bytes.len() != 8 {
                    Err(RokError::EncodingError(String::from_str("expected 8 bytes for KeyId")))
                } else {
                    let id = array8(bytes.as_slice(), 0);
                    assert(bytes@.subrange(0, 8) =~= bytes@);
                    Ok(KeyId(id))
                }
            },
        }
    }

    /// Create from raw bytes.
    pub fn from_bytes(bytes: [u8; 8]) -> (id: KeyId)
        ensures
            id@ == bytes@,
    {
        KeyId(bytes)
    }
}

} // verus!
