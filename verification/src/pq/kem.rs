//! ML-KEM-768 key pairs, encapsulation and decapsulation.
use vstd::prelude::*;
use crate::crypto::{mlkem768_decapsulate, mlkem768_decapsulated, mlkem768_encapsulate, mlkem768_random_keypair};
use crate::error::{Result, RokError};

verus! {

/// An ML-KEM-768 key pair for post-quantum key encapsulation, held as its encoded
/// decapsulation (2400 bytes) and encapsulation (1184 bytes) keys.
///
/// ML-KEM-768 provides about 128-bit post-quantum security.
pub struct PqKeyPair {
    decapsulation_key: Vec<u8>,
    encapsulation_key: Vec<u8>,
}

/// The mathematical content of a key pair: (decapsulation key, encapsulation key).
impl View for PqKeyPair {
    type V = (Seq<u8>, Seq<u8>);

    closed spec fn view(&self) -> (Seq<u8>, Seq<u8>) {
        (self.decapsulation_key@, self.encapsulation_key@)
    }
}

impl PqKeyPair {
    /// The encoded keys have the ML-KEM-768 sizes.
    #[verifier::type_invariant]
    pub open spec fn inv(self) -> bool {
        &&& self@.0.len() == 2400
        &&& self@.1.len() == 1184
    }

    /// A key pair from its encoded keys.
    pub(crate) fn from_parts(decapsulation_key: Vec<u8>, encapsulation_key: Vec<u8>) -> (k: PqKeyPair)
        requires
            decapsulation_key@.len() == 2400,
            encapsulation_key@.len() == 1184,
        ensures
            k@ == (decapsulation_key@, encapsulation_key@),
    {
        PqKeyPair { decapsulation_key, encapsulation_key }
    }

    /// Generate a new random ML-KEM-768 key pair.
    pub fn generate() -> (k: PqKeyPair)
        ensures
            k@.0.len() == 2400,
            k@.1.len() == 1184,
    {
        let (dk, ek) = mlkem768_random_keypair();
        PqKeyPair { decapsulation_key: dk, encapsulation_key: ek }
    }

    /// The encapsulation (public) key: share it with encryptors.
    pub fn encapsulation_key(&self) -> (ek: &[u8])
        ensures
            ek@ == self@.1,
            ek@.len() == 1184,
    {
        proof {
            use_type_invariant(self);
        }
        self.encapsulation_key.as_slice()
    }

    /// The decapsulation (private) key: keep it secret.
    pub fn decapsulation_key(&self) -> (dk: &[u8])
        ensures
            dk@ == self@.0,
            dk@.len() == 2400,
    {
        proof {
            use_type_invariant(self);
        }
        self.decapsulation_key.as_slice()
    }
}

/// Encapsulate to an encapsulation key: a fresh shared secret (32 bytes) and the
/// ciphertext (1088 bytes) that carries it.
pub fn encapsulate(ek: &[u8]) -> (r: (Vec<u8>, Vec<u8>))
    requires
        ek@.len() == 1184,
    ensures
        r.0@.len() == 32,
        r.1@.len() == 1088,
        crate::crypto::mlkem768_encapsulated(ek@, r.0@, r.1@),
{
    match mlkem768_encapsulate(ek) {
        Some(p) => p,
        None => {
            assert(false);
            (Vec::new(), Vec::new())
        },
    }
}

/// Decapsulate: recover the shared secret from a ciphertext with the decapsulation key.
pub fn decapsulate(dk: &[u8], ciphertext: &[u8]) -> (r: Result<Vec<u8>>)
    requires
        dk@.len() == 2400,
    ensures
        r is Ok <==> ciphertext@.len() == 1088,
        r matches Ok(ss) ==> mlkem768_decapsulated(dk@, ciphertext@) == Some(ss@) && ss@.len() == 32,
        r is Err ==> mlkem768_decapsulated(dk@, ciphertext@) is None,
        r matches Err(e) ==> e is DecryptionError,
{
    match mlkem768_decapsulate(dk, ciphertext) {
        Some(ss) => Ok(ss),
        None => Err(RokError::DecryptionError(String::from_str("invalid ML-KEM ciphertext length"))),
    }
}

} // verus!
