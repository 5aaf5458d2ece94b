use rok::encrypt::{AccessMode, Algorithm};
use rok::envelope::{AccessEntry, EncryptedEnvelope};
use rok::keys::key_id::KeyId;
use rok::keys::scope::Scope;

fn make_test_envelope() -> EncryptedEnvelope {
    EncryptedEnvelope {
        version: 1,
        algorithm: Algorithm::EciesX25519ChaCha20,
        scope: Scope::new("/test").unwrap(),
        ephemeral_x25519_public: [1u8; 32],
        ephemeral_mlkem_ciphertext: None,
        access_entries: vec![AccessEntry {
            read_key_id: KeyId::from_bytes([1, 2, 3, 4, 5, 6, 7, 8]),
            wrapped_data_key: vec![0u8; 48],
            wrap_nonce: [9u8; 12],
        }],
        nonce: [10u8; 12],
        ciphertext: vec![11u8; 64],
        tag: [12u8; 16],
        signature: [13u8; 64],
        spend_public_key: [14u8; 32],
        access_mode: AccessMode::Recipient,
    }
}

#[test]
fn test_serialize_deserialize_roundtrip() {
    let envelope = make_test_envelope();
    let bytes = envelope.to_bytes();
    let restored = EncryptedEnvelope::from_bytes(&bytes).unwrap();
    assert_eq!(restored.version, envelope.version);
    assert_eq!(restored.algorithm, envelope.algorithm);
    assert_eq!(restored.scope, envelope.scope);
    assert_eq!(restored.ephemeral_x25519_public, envelope.ephemeral_x25519_public);
    assert_eq!(restored.access_entries.len(), 1);
    assert_eq!(restored.nonce, envelope.nonce);
    assert_eq!(restored.ciphertext, envelope.ciphertext);
    assert_eq!(restored.tag, envelope.tag);
    assert_eq!(restored.signature, envelope.signature);
}

#[test]
fn envelope_test_invalid_magic() {
    let mut bytes = make_test_envelope().to_bytes();
    bytes[0] = b'X';
    assert!(EncryptedEnvelope::from_bytes(&bytes).is_err());
}

#[test]
fn envelope_test_metadata() {
    let envelope = make_test_envelope();
    let meta = envelope.metadata();
    assert_eq!(meta.version, 1);
    assert_eq!(meta.recipient_count, 1);
    assert_eq!(meta.ciphertext_len, 64);
}

#[test]
fn test_signable_bytes_deterministic() {
    let envelope = make_test_envelope();
    assert_eq!(envelope.signable_bytes(), envelope.signable_bytes());
}

#[test]
fn binary_layout_of_version_one() {
    let bytes = make_test_envelope().to_bytes();
    // magic, version 1, algorithm 1, scope length 5, "/test"
    assert_eq!(&bytes[..4], b"ROK\x01");
    assert_eq!(&bytes[4..8], &[1, 0, 0, 0]);
    assert_eq!(bytes[8], 1);
    assert_eq!(&bytes[9..11], &[5, 0]);
    assert_eq!(&bytes[11..16], b"/test");
    // 4 + 4 + 1 + 2 + 5 + 32 + 4 + 2 + (8 + 2 + 48 + 12) + 12 + 8 + 64 + 16 + 32 + 64
    assert_eq!(bytes.len(), 320);
}

#[test]
fn version_two_carries_the_access_mode() {
    let mut envelope = make_test_envelope();
    envelope.version = 2;
    envelope.access_mode = AccessMode::ScopeBased;
    envelope.ephemeral_mlkem_ciphertext = Some(vec![7u8; 5]);
    let bytes = envelope.to_bytes();
    assert_eq!(bytes[9], 1);
    let restored = EncryptedEnvelope::from_bytes(&bytes).unwrap();
    assert_eq!(restored.access_mode, AccessMode::ScopeBased);
    assert_eq!(restored.ephemeral_mlkem_ciphertext, Some(vec![7u8; 5]));
    assert_eq!(restored.to_bytes(), bytes);
}

#[test]
fn truncated_and_unknown_codes_are_rejected() {
    let bytes = make_test_envelope().to_bytes();
    for n in [0usize, 3, 8, 20, 100, 318] {
        let err = EncryptedEnvelope::from_bytes(&bytes[..n]).unwrap_err();
        assert!(err.message().starts_with("serialization error: "));
    }
    let mut bad_alg = bytes.clone();
    bad_alg[8] = 9;
    assert!(EncryptedEnvelope::from_bytes(&bad_alg).is_err());
    let mut bad_scope = bytes.clone();
    bad_scope[12] = b'!';
    let err = EncryptedEnvelope::from_bytes(&bad_scope).unwrap_err();
    assert!(err.message().starts_with("invalid scope path: "));
}

#[test]
fn signable_bytes_ignore_the_signature() {
    let mut envelope = make_test_envelope();
    let before = envelope.signable_bytes();
    envelope.signature = [0u8; 64];
    assert_eq!(envelope.signable_bytes(), before);
    envelope.nonce[0] ^= 1;
    assert_ne!(envelope.signable_bytes(), before);
}

#[test]
fn wire_codes_roundtrip() {
    for alg in [Algorithm::EciesX25519ChaCha20, Algorithm::HybridX25519MlKemChaCha20] {
        assert_eq!(Algorithm::from_u8(alg.to_u8()).unwrap(), alg);
    }
    for mode in [AccessMode::Recipient, AccessMode::ScopeBased] {
        assert_eq!(AccessMode::from_u8(mode.to_u8()).unwrap(), mode);
    }
    assert!(Algorithm::from_u8(0).is_err());
    assert_eq!(
        AccessMode::from_u8(7).unwrap_err().message(),
        "serialization error: unknown access mode: 7"
    );
    assert_eq!(AccessMode::default(), AccessMode::Recipient);
}

#[test]
fn every_proper_prefix_is_refused() {
    let bytes = make_test_envelope().to_bytes();
    for k in 0..bytes.len() {
        assert!(matches!(
            EncryptedEnvelope::from_bytes(&bytes[..k]),
            Err(rok::error::RokError::SerializationError(_))
        ));
    }
    assert!(EncryptedEnvelope::from_bytes(&bytes).is_ok());
}

#[test]
fn signable_bytes_follow_each_signed_field() {
    let base = make_test_envelope();
    let mut other = make_test_envelope();
    other.nonce[0] ^= 1;
    assert_ne!(base.signable_bytes(), other.signable_bytes());
    let mut other = make_test_envelope();
    other.scope = Scope::new("/tests").unwrap();
    assert_ne!(base.signable_bytes(), other.signable_bytes());
    let mut other = make_test_envelope();
    other.access_mode = AccessMode::ScopeBased;
    assert_eq!(base.signable_bytes(), other.signable_bytes());
}

#[test]
fn signable_bytes_follow_the_access_entries() {
    let base = make_test_envelope();
    let mut other = make_test_envelope();
    other.access_entries[0].wrapped_data_key[5] ^= 1;
    assert_ne!(base.signable_bytes(), other.signable_bytes());
    let mut other = make_test_envelope();
    other.access_entries[0].wrap_nonce[0] = 0;
    assert_ne!(base.signable_bytes(), other.signable_bytes());
    let mut other = make_test_envelope();
    other.access_entries[0].wrapped_data_key.push(0);
    assert_ne!(base.signable_bytes(), other.signable_bytes());
    let mut other = make_test_envelope();
    other.access_entries.push(AccessEntry {
        read_key_id: KeyId::from_bytes([8, 7, 6, 5, 4, 3, 2, 1]),
        wrapped_data_key: vec![1u8; 48],
        wrap_nonce: [2u8; 12],
    });
    assert_ne!(base.signable_bytes(), other.signable_bytes());
    let mut other = make_test_envelope();
    other.access_entries.clear();
    assert_ne!(base.signable_bytes(), other.signable_bytes());
}
