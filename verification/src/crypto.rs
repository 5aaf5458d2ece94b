//! Bindings to the cryptographic, encoding and system crates the library builds on.
//!
//! Each function here makes one outside call and converts its arguments and result.
//! What a function claims of its result is believed, not proved: the doc comment of
//! each says what it claims.
use vstd::prelude::*;
use aes_gcm_siv::aead::{Aead, KeyInit};
use ml_kem::kem::{Decapsulate, Encapsulate};
use ml_kem::{EncodedSizeUser, KemCore};
use base64::Engine;

verus! {

/// The SHA-256 digest of a byte string.
pub uninterp spec fn sha256_digest(data: Seq<u8>) -> Seq<u8>;

/// HKDF-SHA256 with the given salt and input key material, expanded with `info` to 32 bytes.
pub uninterp spec fn hkdf_sha256_expand32(salt: Seq<u8>, ikm: Seq<u8>, info: Seq<u8>) -> Seq<u8>;

/// The X25519 public key of a 32-byte static secret.
pub uninterp spec fn x25519_public_key(secret: Seq<u8>) -> Seq<u8>;

/// The X25519 shared secret of a 32-byte static secret and a 32-byte public key.
pub uninterp spec fn x25519_shared_secret(secret: Seq<u8>, public: Seq<u8>) -> Seq<u8>;

/// The Ed25519 verifying key of a 32-byte signing seed.
pub uninterp spec fn ed25519_verifying_key(seed: Seq<u8>) -> Seq<u8>;

/// The Ed25519 signature of a message under a 32-byte signing seed.
pub uninterp spec fn ed25519_signature(seed: Seq<u8>, msg: Seq<u8>) -> Seq<u8>;

/// Whether Ed25519 verification of `sig` on `msg` under the 32-byte key `public` succeeds
/// (false where the bytes are no valid public key).
pub uninterp spec fn ed25519_accepts(public: Seq<u8>, msg: Seq<u8>, sig: Seq<u8>) -> bool;

/// Whether 32 bytes decode to an Ed25519 verifying key.
pub uninterp spec fn ed25519_key_decodes(public: Seq<u8>) -> bool;

/// ChaCha20-Poly1305 ciphertext with the 16-byte tag appended, empty associated data.
pub uninterp spec fn chacha20poly1305_sealed(key: Seq<u8>, nonce: Seq<u8>, pt: Seq<u8>) -> Seq<u8>;

/// ChaCha20-Poly1305 decryption of ciphertext-with-tag; `None` where authentication fails.
pub uninterp spec fn chacha20poly1305_opened(key: Seq<u8>, nonce: Seq<u8>, ct: Seq<u8>) -> Option<
    Seq<u8>,
>;

/// AES-256-GCM-SIV ciphertext with the 16-byte tag appended, empty associated data.
pub uninterp spec fn aes256gcmsiv_sealed(key: Seq<u8>, nonce: Seq<u8>, pt: Seq<u8>) -> Seq<u8>;

/// AES-256-GCM-SIV decryption of ciphertext-with-tag; `None` where authentication fails.
pub uninterp spec fn aes256gcmsiv_opened(key: Seq<u8>, nonce: Seq<u8>, ct: Seq<u8>) -> Option<
    Seq<u8>,
>;

/// Base58 (Bitcoin alphabet) text of a byte string.
pub uninterp spec fn base58_text(data: Seq<u8>) -> Seq<char>;

/// Bytes of a Base58 (Bitcoin alphabet) text; `None` where the text is no Base58.
pub uninterp spec fn base58_bytes(text: Seq<char>) -> Option<Seq<u8>>;

/// Bytes of a hexadecimal text; `None` where the text is no hex of whole bytes.
pub uninterp spec fn hex_bytes(text: Seq<char>) -> Option<Seq<u8>>;

/// The standard Base64 text (with padding) of a byte string.
pub uninterp spec fn base64_text(data: Seq<u8>) -> Seq<char>;

/// Bytes of a standard Base64 text; `None` where the text is no such Base64.
pub uninterp spec fn base64_bytes(text: Seq<char>) -> Option<Seq<u8>>;

/// The ML-KEM-768 (decapsulation key, encapsulation key) pair generated from a
/// ChaCha20 random stream seeded with 32 bytes.
pub uninterp spec fn mlkem768_seeded_keypair(seed: Seq<u8>) -> (Seq<u8>, Seq<u8>);

/// ML-KEM-768 decapsulation of a ciphertext with an encoded decapsulation key;
/// `None` where a length does not match.
pub uninterp spec fn mlkem768_decapsulated(dk: Seq<u8>, ct: Seq<u8>) -> Option<Seq<u8>>;

/// Whether `(ss, ct)` is an ML-KEM-768 encapsulation to the encapsulation key `ek`: the
/// shared secret and ciphertext that encapsulating to `ek` gives for some randomness.
pub uninterp spec fn mlkem768_encapsulated(ek: Seq<u8>, ss: Seq<u8>, ct: Seq<u8>) -> bool;

/// Calls `sha2::Sha256::digest`. Claims: the result is the SHA-256 digest of `data`.
#[verifier::external_body]
pub(crate) fn sha256(data: &[u8]) -> (r: [u8; 32])
    ensures
        r@ == sha256_digest(data@),
{
    <sha2::Sha256 as sha2::Digest>::digest(data).into()
}

/// Calls `hkdf::Hkdf::<Sha256>::new(Some(salt), ikm)` and `expand(info)` into 32 bytes,
/// which cannot fail for that length. Claims: the result is the named HKDF output.
#[verifier::external_body]
pub(crate) fn hkdf_sha256(salt: &[u8], ikm: &[u8], info: &[u8]) -> (r: [u8; 32])
    ensures
        r@ == hkdf_sha256_expand32(salt@, ikm@, info@),
{
    let hk = hkdf::Hkdf::<sha2::Sha256>::new(Some(salt), ikm);
    let mut out = [0u8; 32];
    hk.expand(info, &mut out).expect("HKDF-SHA256 expand to 32 bytes never fails");
    out
}

/// Calls `x25519_dalek::PublicKey::from(&StaticSecret::from(secret))`.
/// Claims: the result is the named public key, and Diffie-Hellman agreement: any other
/// secret combined with this public key gives what this secret gives with that other
/// secret's public key.
#[verifier::external_body]
pub(crate) fn x25519_public(secret: &[u8; 32]) -> (r: [u8; 32])
    ensures
        r@ == x25519_public_key(secret@),
        forall|other: Seq<u8>|
            other.len() == 32 ==> #[trigger] x25519_shared_secret(other, r@)
                == x25519_shared_secret(secret@, x25519_public_key(other)),
{
    let s = x25519_dalek::StaticSecret::from(*secret);
    x25519_dalek::PublicKey::from(&s).to_bytes()
}

/// Calls `StaticSecret::from(secret).diffie_hellman(&PublicKey::from(public))`.
/// Claims: the result is the named shared secret.
#[verifier::external_body]
pub(crate) fn x25519_diffie_hellman(secret: &[u8; 32], public: &[u8; 32]) -> (r: [u8; 32])
    ensures
        r@ == x25519_shared_secret(secret@, public@),
{
    let s = x25519_dalek::StaticSecret::from(*secret);
    s.diffie_hellman(&x25519_dalek::PublicKey::from(*public)).to_bytes()
}

/// Calls `ed25519_dalek::SigningKey::from_bytes(seed).verifying_key()`.
/// Claims: the result is the named verifying key, and it decodes as a verifying key.
#[verifier::external_body]
pub(crate) fn ed25519_public(seed: &[u8; 32]) -> (r: [u8; 32])
    ensures
        r@ == ed25519_verifying_key(seed@),
        ed25519_key_decodes(r@),
{
    ed25519_dalek::SigningKey::from_bytes(seed).verifying_key().to_bytes()
}

/// Calls `Signer::sign` of `SigningKey::from_bytes(seed)`.
/// Claims: the result is the named signature, and it verifies under the seed's own
/// verifying key.
#[verifier::external_body]
pub(crate) fn ed25519_sign(seed: &[u8; 32], msg: &[u8]) -> (r: [u8; 64])
    ensures
        r@ == ed25519_signature(seed@, msg@),
        ed25519_accepts(ed25519_verifying_key(seed@), msg@, r@),
{
    let key = ed25519_dalek::SigningKey::from_bytes(seed);
    ed25519_dalek::Signer::sign(&key, msg).to_bytes()
}

/// Calls `VerifyingKey::from_bytes(public)` and `Verifier::verify`; false where the key
/// does not decode. Claims: the result is the named verification outcome.
#[verifier::external_body]
pub(crate) fn ed25519_verify(public: &[u8; 32], msg: &[u8], sig: &[u8; 64]) -> (r: bool)
    ensures
        r == ed25519_accepts(public@, msg@, sig@),
{
    match ed25519_dalek::VerifyingKey::from_bytes(public) {
        Ok(vk) => ed25519_dalek::Verifier::verify(
            &vk,
            msg,
            &ed25519_dalek::Signature::from_bytes(sig),
        ).is_ok(),
        Err(_) => false,
    }
}

/// Calls `VerifyingKey::from_bytes(public)`. Claims: the result tells whether it succeeds.
#[verifier::external_body]
pub(crate) fn ed25519_key_is_valid(public: &[u8; 32]) -> (r: bool)
    ensures
        r == ed25519_key_decodes(public@),
{
    ed25519_dalek::VerifyingKey::from_bytes(public).is_ok()
}

/// Calls `ChaCha20Poly1305::new(key).encrypt(nonce, pt)`, which fails only when the
/// plaintext has 2^32 - 1 or more 64-byte blocks. Claims: success exactly below that size;
/// on success the result is the named ciphertext, 16 bytes longer than the plaintext, and
/// decrypting it with the same key and nonce gives the plaintext back.
#[verifier::external_body]
pub(crate) fn chacha20poly1305_seal(key: &[u8; 32], nonce: &[u8; 12], pt: &[u8]) -> (r: Option<Vec<u8>>)
    ensures
        r is Some <==> pt@.len() / 64 < 4294967295,
        r matches Some(c) ==> {
            &&& c@ == chacha20poly1305_sealed(key@, nonce@, pt@)
            &&& c@.len() == pt@.len() + 16
            &&& chacha20poly1305_opened(key@, nonce@, c@) == Some(pt@)
        },
{
    let cipher = chacha20poly1305::ChaCha20Poly1305::new(key.into());
    cipher.encrypt(nonce.into(), pt).ok()
}

/// Calls `ChaCha20Poly1305::new(key).decrypt(nonce, ct)`.
/// Claims: the result is the named decryption outcome.
#[verifier::external_body]
pub(crate) fn chacha20poly1305_open(key: &[u8; 32], nonce: &[u8; 12], ct: &[u8]) -> (r: Option<Vec<u8>>)
    ensures
        match r {
            Some(p) => chacha20poly1305_opened(key@, nonce@, ct@) == Some(p@),
            None => chacha20poly1305_opened(key@, nonce@, ct@) is None,
        },
{
    let cipher = chacha20poly1305::ChaCha20Poly1305::new(key.into());
    cipher.decrypt(nonce.into(), ct).ok()
}

/// Calls `Aes256GcmSiv::new(key).encrypt(nonce, pt)`, which fails only for plaintexts
/// longer than 2^36 bytes. Claims: success exactly up to that size; on success the result
/// is the named ciphertext, 16 bytes longer than the plaintext, and decrypting it with the
/// same key and nonce gives the plaintext back.
#[verifier::external_body]
pub(crate) fn aes256gcmsiv_seal(key: &[u8; 32], nonce: &[u8; 12], pt: &[u8]) -> (r: Option<Vec<u8>>)
    ensures
        r is Some <==> pt@.len() <= 68719476736,
        r matches Some(c) ==> {
            &&& c@ == aes256gcmsiv_sealed(key@, nonce@, pt@)
            &&& c@.len() == pt@.len() + 16
            &&& aes256gcmsiv_opened(key@, nonce@, c@) == Some(pt@)
        },
{
    let cipher = aes_gcm_siv::Aes256GcmSiv::new(key.into());
    cipher.encrypt(nonce.into(), pt).ok()
}

/// Calls `Aes256GcmSiv::new(key).decrypt(nonce, ct)`.
/// Claims: the result is the named decryption outcome.
#[verifier::external_body]
pub(crate) fn aes256gcmsiv_open(key: &[u8; 32], nonce: &[u8; 12], ct: &[u8]) -> (r: Option<Vec<u8>>)
    ensures
        match r {
            Some(p) => aes256gcmsiv_opened(key@, nonce@, ct@) == Some(p@),
            None => aes256gcmsiv_opened(key@, nonce@, ct@) is None,
        },
{
    let cipher = aes_gcm_siv::Aes256GcmSiv::new(key.into());
    cipher.decrypt(nonce.into(), ct).ok()
}

/// Calls `bs58::encode(data).into_string()`. Claims: the result is the named Base58 text,
/// and decoding it gives `data` back.
#[verifier::external_body]
pub(crate) fn bs58_encode(data: &[u8]) -> (r: String)
    ensures
        r@ == base58_text(data@),
        base58_bytes(r@) == Some(data@),
{
    bs58::encode(data).into_string()
}

/// Calls `bs58::decode(text).into_vec()`. Claims: the result is the named decoding.
#[verifier::external_body]
pub(crate) fn bs58_decode(text: &str) -> (r: Option<Vec<u8>>)
    ensures
        match r {
            Some(v) => base58_bytes(text@) == Some(v@),
            None => base58_bytes(text@) is None,
        },
{
    bs58::decode(text).into_vec().ok()
}

/// Calls `STANDARD.encode(data)` of the `base64` crate. Claims: the result is the named
/// encoding, and decoding it gives `data` back.
#[verifier::external_body]
pub(crate) fn base64_encode(data: &[u8]) -> (r: String)
    ensures
        r@ == base64_text(data@),
        base64_bytes(r@) == Some(data@),
{
    base64::engine::general_purpose::STANDARD.encode(data)
}

/// Calls `STANDARD.decode(text)` of the `base64` crate. Claims: the result is the named
/// decoding.
#[verifier::external_body]
pub(crate) fn base64_decode(text: &str) -> (r: Option<Vec<u8>>)
    ensures
        match r {
            Some(v) => base64_bytes(text@) == Some(v@),
            None => base64_bytes(text@) is None,
        },
{
    base64::engine::general_purpose::STANDARD.decode(text).ok()
}

/// Calls `hex::decode(text)`. Claims: the result is the named decoding.
#[verifier::external_body]
pub(crate) fn hex_decode(text: &str) -> (r: Option<Vec<u8>>)
    ensures
        match r {
            Some(v) => hex_bytes(text@) == Some(v@),
            None => hex_bytes(text@) is None,
        },
{
    hex::decode(text).ok()
}

/// Calls `rand::RngCore::fill_bytes` of `rand::thread_rng()` on `n` zero bytes.
/// Claims only the length of the result: its contents are random.
#[verifier::external_body]
pub(crate) fn random_bytes(n: usize) -> (r: Vec<u8>)
    ensures
        r@.len() == n,
{
    let mut v = vec![0u8; n];
    rand::RngCore::fill_bytes(&mut rand::thread_rng(), &mut v);
    v
}

/// Calls `std::time::SystemTime::now()` and `duration_since(UNIX_EPOCH)` (0 before the
/// epoch). Nothing is claimed of the result: it is the clock.
#[verifier::external_body]
pub(crate) fn now_unix_secs() -> (r: u64) {
    std::time::SystemTime::now().duration_since(std::time::UNIX_EPOCH).map(|d| d.as_secs()).unwrap_or(
        0,
    )
}

/// Calls `std::str::from_utf8(bytes)`. Claims: it succeeds exactly on valid UTF-8, and then
/// the text's UTF-8 bytes are `bytes`.
#[verifier::external_body]
pub(crate) fn utf8_str(bytes: &[u8]) -> (r: Option<&str>)
    ensures
        r is Some <==> vstd::utf8::valid_utf8(bytes@),
        r matches Some(s) ==> s@ == vstd::utf8::decode_utf8(bytes@),
{
    std::str::from_utf8(bytes).ok()
}

/// The text that `String::from_utf8_lossy` makes of bytes.
pub uninterp spec fn utf8_lossy_text(bytes: Seq<u8>) -> Seq<char>;

/// Calls `String::from_utf8_lossy(bytes)`. Claims: the result is the named lossy text of
/// the bytes, and for valid UTF-8 it is the decoded text. What it holds for other bytes
/// (replacement characters) is left to the name.
#[verifier::external_body]
pub(crate) fn utf8_lossy(bytes: &[u8]) -> (r: String)
    ensures
        r@ == utf8_lossy_text(bytes@),
        vstd::utf8::valid_utf8(bytes@) ==> r@ == vstd::utf8::decode_utf8(bytes@),
{
    String::from_utf8_lossy(bytes).into_owned()
}

/// Calls `rand_chacha::ChaCha20Rng::from_seed(seed)` and `MlKem768::generate` with it,
/// returning the encoded (decapsulation, encapsulation) keys. Claims: the pair is the named
/// seeded key pair, of the ML-KEM-768 encoded sizes 2400 and 1184.
#[verifier::external_body]
pub(crate) fn mlkem768_keypair_from_seed(seed: &[u8; 32]) -> (r: (Vec<u8>, Vec<u8>))
    ensures
        (r.0@, r.1@) == mlkem768_seeded_keypair(seed@),
        r.0@.len() == 2400,
        r.1@.len() == 1184,
{
    let mut rng = <rand_chacha::ChaCha20Rng as rand_core::SeedableRng>::from_seed(*seed);
    let (dk, ek) = ml_kem::MlKem768::generate(&mut rng);
    (dk.as_bytes().to_vec(), ek.as_bytes().to_vec())
}

/// Calls `MlKem768::generate` with `rand::thread_rng()`, returning the encoded
/// (decapsulation, encapsulation) keys. Claims only their sizes: the keys are random.
#[verifier::external_body]
pub(crate) fn mlkem768_random_keypair() -> (r: (Vec<u8>, Vec<u8>))
    ensures
        r.0@.len() == 2400,
        r.1@.len() == 1184,
{
    let (dk, ek) = ml_kem::MlKem768::generate(&mut rand::thread_rng());
    (dk.as_bytes().to_vec(), ek.as_bytes().to_vec())
}

/// Calls `Encapsulate::encapsulate` of the encapsulation key decoded from `ek` with
/// `rand::thread_rng()`, returning (shared secret, ciphertext). Claims: it fails exactly
/// when `ek` is not 1184 bytes long; the shared secret is 32 bytes and the ciphertext 1088;
/// and the pair is an encapsulation to `ek` (the named relation). Which pair comes out is
/// not claimed: it depends on the randomness drawn.
#[verifier::external_body]
pub(crate) fn mlkem768_encapsulate(ek: &[u8]) -> (r: Option<(Vec<u8>, Vec<u8>)>)
    ensures
        r is Some <==> ek@.len() == 1184,
        r matches Some(p) ==> p.0@.len() == 32 && p.1@.len() == 1088,
        r matches Some(p) ==> mlkem768_encapsulated(ek@, p.0@, p.1@),
{
    let enc = ml_kem::Encoded::<<ml_kem::MlKem768 as KemCore>::EncapsulationKey>::try_from(ek).ok()?;
    let key = <ml_kem::MlKem768 as KemCore>::EncapsulationKey::from_bytes(&enc);
    let (ct, ss) = key.encapsulate(&mut rand::thread_rng()).ok()?;
    Some((ss.to_vec(), ct.to_vec()))
}

/// Calls `Decapsulate::decapsulate` of the decapsulation key decoded from `dk` on the
/// ciphertext `ct`; `None` where a length does not match. Claims: the result is the named
/// decapsulation; decapsulation itself never fails (the crate's implementation is
/// infallible), so the result is present exactly when `dk` is 2400 bytes and `ct` 1088,
/// and it is a 32-byte shared secret.
#[verifier::external_body]
pub(crate) fn mlkem768_decapsulate(dk: &[u8], ct: &[u8]) -> (r: Option<Vec<u8>>)
    ensures
        match r {
            Some(ss) => mlkem768_decapsulated(dk@, ct@) == Some(ss@),
            None => mlkem768_decapsulated(dk@, ct@) is None,
        },
        r is Some <==> (dk@.len() == 2400 && ct@.len() == 1088),
        r matches Some(ss) ==> ss@.len() == 32,
{
    let enc = ml_kem::Encoded::<<ml_kem::MlKem768 as KemCore>::DecapsulationKey>::try_from(dk).ok()?;
    let key = <ml_kem::MlKem768 as KemCore>::DecapsulationKey::from_bytes(&enc);
    let ct = ml_kem::Ciphertext::<ml_kem::MlKem768>::try_from(ct).ok()?;
    let ss = key.decapsulate(&ct).ok()?;
    Some(ss.to_vec())
}

} // verus!
