use rok::encoding;
use rok::encrypt::{decrypt, Algorithm, EncryptBuilder, Recipient};
use rok::envelope::EncryptedEnvelope;
use rok::keys::read::ReadKeyPair;
use rok::keys::scope::Scope;
use rok::keys::spend::SpendKeyPair;
use rok::sign;

fn recipient_of(k: &ReadKeyPair) -> Recipient {
    Recipient { read_public_key: *k.public_key(), key_id: k.key_id() }
}

#[test]
fn test_full_lifecycle() {
    let spend = SpendKeyPair::generate();
    let root = spend.derive_root_read_key();
    let finance = root.derive_child_segment("finance").unwrap();
    let finance_q1 = finance.derive_child_segment("q1").unwrap();
    let plaintext = b"Q1 2025 financial report: revenue $1.2M";
    let recipients = vec![recipient_of(&finance_q1)];
    let envelope =
        EncryptBuilder::new(Algorithm::EciesX25519ChaCha20, Scope::new("/finance/q1").unwrap())
            .add_recipients(&recipients)
            .set_spend_key(&spend)
            .encrypt(plaintext)
            .unwrap();
    let bytes = envelope.to_bytes();
    assert!(bytes.len() > 100);
    let restored = EncryptedEnvelope::from_bytes(&bytes).unwrap();
    assert_eq!(restored.version, envelope.version);
    assert_eq!(restored.algorithm, envelope.algorithm);
    let decrypted = decrypt(&restored, &finance_q1, &spend.verifying_key()).unwrap();
    assert_eq!(decrypted, plaintext);
}

#[test]
fn test_multi_level_delegation() {
    let spend = SpendKeyPair::from_seed(&[42u8; 32]);
    let root = spend.derive_root_read_key();
    let finance = root.derive_child_segment("finance").unwrap();
    let finance_q1 = finance.derive_child_segment("q1").unwrap();
    let legal = root.derive_child_segment("legal").unwrap();
    let plaintext = b"Confidential Q1 data";
    let recipients = vec![recipient_of(&root), recipient_of(&finance), recipient_of(&finance_q1)];
    let envelope =
        EncryptBuilder::new(Algorithm::EciesX25519ChaCha20, Scope::new("/finance/q1").unwrap())
            .add_recipients(&recipients)
            .set_spend_key(&spend)
            .encrypt(plaintext)
            .unwrap();
    let vk = spend.verifying_key();
    assert_eq!(decrypt(&envelope, &root, &vk).unwrap(), plaintext);
    assert_eq!(decrypt(&envelope, &finance, &vk).unwrap(), plaintext);
    assert_eq!(decrypt(&envelope, &finance_q1, &vk).unwrap(), plaintext);
    assert!(decrypt(&envelope, &legal, &vk).is_err());
}

#[test]
fn test_key_export_import_decrypt() {
    let spend = SpendKeyPair::from_seed(&[42u8; 32]);
    let root = spend.derive_root_read_key();
    let finance = root.derive_child_segment("finance").unwrap();
    let plaintext = b"delegated access test";
    let recipients = vec![recipient_of(&finance)];
    let envelope =
        EncryptBuilder::new(Algorithm::EciesX25519ChaCha20, Scope::new("/finance").unwrap())
            .add_recipients(&recipients)
            .set_spend_key(&spend)
            .encrypt(plaintext)
            .unwrap();
    let exported = finance.export();
    let encoded = encoding::encode_exported_read_key(&exported);
    let decoded = encoding::decode_exported_read_key(&encoded).unwrap();
    let imported = ReadKeyPair::import(&decoded).unwrap();
    let decrypted = decrypt(&envelope, &imported, &spend.verifying_key()).unwrap();
    assert_eq!(decrypted, plaintext);
}

#[test]
fn test_key_encoding_roundtrip() {
    let spend = SpendKeyPair::from_seed(&[42u8; 32]);
    let root = spend.derive_root_read_key();
    let finance = root.derive_child_segment("finance").unwrap();

    let spend_enc = encoding::encode_spend_public(&spend.verifying_key());
    let spend_dec = encoding::decode_spend_public(&spend_enc).unwrap();
    assert_eq!(spend.verifying_key(), spend_dec);

    let read_enc = encoding::encode_read_public(finance.public_key(), finance.scope());
    let (read_dec_key, read_dec_scope) = encoding::decode_read_public(&read_enc).unwrap();
    assert_eq!(&read_dec_key, finance.public_key());
    assert_eq!(read_dec_scope, *finance.scope());

    let exported = finance.export();
    let exp_enc = encoding::encode_exported_read_key(&exported);
    let exp_dec = encoding::decode_exported_read_key(&exp_enc).unwrap();
    assert_eq!(exp_dec.secret_bytes, exported.secret_bytes);
    assert_eq!(exp_dec.public_bytes, exported.public_bytes);
    assert_eq!(exp_dec.scope, exported.scope);
}

#[test]
fn test_sign_verify_flow() {
    let spend = SpendKeyPair::from_seed(&[42u8; 32]);
    let data = b"important document contents";
    let signature = sign::sign(&spend, data);
    assert!(sign::verify(&spend.verifying_key(), data, &signature).is_ok());
    let mut tampered = data.to_vec();
    tampered[0] ^= 0xff;
    assert!(sign::verify(&spend.verifying_key(), &tampered, &signature).is_err());
    let other_spend = SpendKeyPair::from_seed(&[99u8; 32]);
    assert!(sign::verify(&other_spend.verifying_key(), data, &signature).is_err());
}

#[test]
fn test_cross_scope_isolation() {
    let spend = SpendKeyPair::from_seed(&[42u8; 32]);
    let root = spend.derive_root_read_key();
    let finance = root.derive_child_segment("finance").unwrap();
    let legal = root.derive_child_segment("legal").unwrap();
    let vk = spend.verifying_key();
    let envelope =
        EncryptBuilder::new(Algorithm::EciesX25519ChaCha20, Scope::new("/finance").unwrap())
            .add_recipient(recipient_of(&finance))
            .set_spend_key(&spend)
            .encrypt(b"finance only")
            .unwrap();
    assert_eq!(decrypt(&envelope, &finance, &vk).unwrap(), b"finance only");
    let err = decrypt(&envelope, &legal, &vk).unwrap_err();
    assert!(err.message().contains("scope mismatch"));
    let err = decrypt(&envelope, &root, &vk).unwrap_err();
    assert!(err.message().contains("no matching access entry"));
}

#[test]
fn test_deterministic_derivation() {
    let spend1 = SpendKeyPair::from_seed(&[42u8; 32]);
    let spend2 = SpendKeyPair::from_seed(&[42u8; 32]);
    let root1 = spend1.derive_root_read_key();
    let root2 = spend2.derive_root_read_key();
    assert_eq!(root1.key_id(), root2.key_id());
    assert_eq!(root1.public_key(), root2.public_key());
    let fin1 = root1.derive_child_segment("finance").unwrap();
    let fin2 = root2.derive_child_segment("finance").unwrap();
    assert_eq!(fin1.key_id(), fin2.key_id());
    let q1_direct = root1.derive_child(&Scope::new("/finance/q1").unwrap()).unwrap();
    let q1_step = fin1.derive_child_segment("q1").unwrap();
    assert_eq!(q1_direct.key_id(), q1_step.key_id());
}

#[test]
fn test_binary_serialization_preserves_all_fields() {
    let spend = SpendKeyPair::from_seed(&[42u8; 32]);
    let root = spend.derive_root_read_key();
    let finance = root.derive_child_segment("finance").unwrap();
    let recipients = vec![recipient_of(&root), recipient_of(&finance)];
    let envelope =
        EncryptBuilder::new(Algorithm::EciesX25519ChaCha20, Scope::new("/finance").unwrap())
            .add_recipients(&recipients)
            .set_spend_key(&spend)
            .encrypt(b"test data for serialization")
            .unwrap();
    let bytes = envelope.to_bytes();
    let restored = EncryptedEnvelope::from_bytes(&bytes).unwrap();
    assert_eq!(restored.version, envelope.version);
    assert_eq!(restored.algorithm, envelope.algorithm);
    assert_eq!(restored.scope, envelope.scope);
    assert_eq!(restored.ephemeral_x25519_public, envelope.ephemeral_x25519_public);
    assert_eq!(restored.ephemeral_mlkem_ciphertext, envelope.ephemeral_mlkem_ciphertext);
    assert_eq!(restored.access_entries.len(), 2);
    assert_eq!(restored.nonce, envelope.nonce);
    assert_eq!(restored.ciphertext, envelope.ciphertext);
    assert_eq!(restored.tag, envelope.tag);
    assert_eq!(restored.signature, envelope.signature);
    assert_eq!(restored.spend_public_key, envelope.spend_public_key);
    let vk = spend.verifying_key();
    assert_eq!(decrypt(&restored, &root, &vk).unwrap(), b"test data for serialization");
    assert_eq!(decrypt(&restored, &finance, &vk).unwrap(), b"test data for serialization");
}

#[test]
fn test_tampered_envelope_rejected() {
    let spend = SpendKeyPair::from_seed(&[42u8; 32]);
    let root = spend.derive_root_read_key();
    let envelope = EncryptBuilder::new(Algorithm::EciesX25519ChaCha20, Scope::root())
        .add_recipient(recipient_of(&root))
        .set_spend_key(&spend)
        .encrypt(b"important data")
        .unwrap();
    let mut bytes = envelope.to_bytes();
    let tamper_pos = bytes.len() / 2;
    bytes[tamper_pos] ^= 0xff;
    if let Ok(tampered) = EncryptedEnvelope::from_bytes(&bytes) {
        let result = decrypt(&tampered, &root, &spend.verifying_key());
        assert!(result.is_err(), "tampered envelope should fail decryption");
    }
}

#[test]
fn test_full_lifecycle_protobuf() {
    let spend = SpendKeyPair::from_seed(&[42u8; 32]);
    let root = spend.derive_root_read_key();

    let plaintext = b"protobuf roundtrip test data";
    let recipients = vec![recipient_of(&root)];

    let envelope = EncryptBuilder::new(Algorithm::EciesX25519ChaCha20, Scope::root())
        .add_recipients(&recipients)
        .set_spend_key(&spend)
        .encrypt(plaintext)
        .unwrap();

    let proto_bytes = envelope.to_proto_bytes();
    let restored = EncryptedEnvelope::from_proto_bytes(&proto_bytes).unwrap();

    let decrypted = decrypt(&restored, &root, &spend.verifying_key()).unwrap();
    assert_eq!(decrypted, plaintext);
}
