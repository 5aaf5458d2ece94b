use rok::encrypt::{decrypt, AccessMode, Algorithm, EncryptBuilder, Recipient};
use rok::keys::read::ReadKeyPair;
use rok::keys::scope::Scope;
use rok::keys::spend::SpendKeyPair;

fn setup_keys() -> (SpendKeyPair, ReadKeyPair) {
    let spend = SpendKeyPair::from_seed(&[42u8; 32]);
    let root_read = spend.derive_root_read_key();
    (spend, root_read)
}

fn recipient_of(k: &ReadKeyPair) -> Recipient {
    Recipient { read_public_key: *k.public_key(), key_id: k.key_id() }
}

#[test]
fn test_encrypt_decrypt_roundtrip() {
    let (spend, root_read) = setup_keys();
    let plaintext = b"Hello, World! This is a secret message.";
    let envelope = EncryptBuilder::new(Algorithm::EciesX25519ChaCha20, Scope::root())
        .add_recipient(recipient_of(&root_read))
        .set_spend_key(&spend)
        .encrypt(plaintext)
        .unwrap();
    let decrypted = decrypt(&envelope, &root_read, &spend.verifying_key()).unwrap();
    assert_eq!(decrypted, plaintext);
}

#[test]
fn test_encrypt_decrypt_multiple_recipients() {
    let spend = SpendKeyPair::from_seed(&[42u8; 32]);
    let root_read = spend.derive_root_read_key();
    let finance_read = root_read.derive_child_segment("finance").unwrap();
    let plaintext = b"Quarterly financial report";
    let recipients = vec![recipient_of(&root_read), recipient_of(&finance_read)];
    let envelope =
        EncryptBuilder::new(Algorithm::EciesX25519ChaCha20, Scope::new("/finance").unwrap())
            .add_recipients(&recipients)
            .set_spend_key(&spend)
            .encrypt(plaintext)
            .unwrap();
    assert_eq!(decrypt(&envelope, &root_read, &spend.verifying_key()).unwrap(), plaintext);
    assert_eq!(decrypt(&envelope, &finance_read, &spend.verifying_key()).unwrap(), plaintext);
}

#[test]
fn test_decrypt_wrong_key_fails() {
    let spend = SpendKeyPair::from_seed(&[42u8; 32]);
    let root_read = spend.derive_root_read_key();
    let legal_read = root_read.derive_child_segment("legal").unwrap();
    let finance_read = root_read.derive_child_segment("finance").unwrap();
    let envelope =
        EncryptBuilder::new(Algorithm::EciesX25519ChaCha20, Scope::new("/finance").unwrap())
            .add_recipient(recipient_of(&finance_read))
            .set_spend_key(&spend)
            .encrypt(b"secret")
            .unwrap();
    assert!(decrypt(&envelope, &legal_read, &spend.verifying_key()).is_err());
}

#[test]
fn test_decrypt_tampered_ciphertext_fails() {
    let (spend, root_read) = setup_keys();
    let mut envelope = EncryptBuilder::new(Algorithm::EciesX25519ChaCha20, Scope::root())
        .add_recipient(recipient_of(&root_read))
        .set_spend_key(&spend)
        .encrypt(b"secret")
        .unwrap();
    envelope.ciphertext[0] ^= 0xff;
    assert!(decrypt(&envelope, &root_read, &spend.verifying_key()).is_err());
}

#[test]
fn test_decrypt_wrong_spend_key_fails() {
    let spend1 = SpendKeyPair::from_seed(&[1u8; 32]);
    let spend2 = SpendKeyPair::from_seed(&[2u8; 32]);
    let root_read = spend1.derive_root_read_key();
    let envelope = EncryptBuilder::new(Algorithm::EciesX25519ChaCha20, Scope::root())
        .add_recipient(recipient_of(&root_read))
        .set_spend_key(&spend1)
        .encrypt(b"secret")
        .unwrap();
    assert!(decrypt(&envelope, &root_read, &spend2.verifying_key()).is_err());
}

#[test]
fn test_empty_plaintext_roundtrip() {
    let (spend, root_read) = setup_keys();
    let envelope = EncryptBuilder::new(Algorithm::EciesX25519ChaCha20, Scope::root())
        .add_recipient(recipient_of(&root_read))
        .set_spend_key(&spend)
        .encrypt(b"")
        .unwrap();
    assert!(decrypt(&envelope, &root_read, &spend.verifying_key()).unwrap().is_empty());
}

#[test]
fn test_large_plaintext_roundtrip() {
    let (spend, root_read) = setup_keys();
    let plaintext = vec![0xABu8; 1024 * 1024];
    let envelope = EncryptBuilder::new(Algorithm::EciesX25519ChaCha20, Scope::root())
        .add_recipient(recipient_of(&root_read))
        .set_spend_key(&spend)
        .encrypt(&plaintext)
        .unwrap();
    assert_eq!(decrypt(&envelope, &root_read, &spend.verifying_key()).unwrap(), plaintext);
}

#[test]
fn test_no_recipients_fails() {
    let spend = SpendKeyPair::from_seed(&[42u8; 32]);
    let result = EncryptBuilder::new(Algorithm::EciesX25519ChaCha20, Scope::root())
        .set_spend_key(&spend)
        .encrypt(b"secret");
    assert!(result.is_err());
}

#[test]
fn test_no_spend_key_fails() {
    let spend = SpendKeyPair::from_seed(&[42u8; 32]);
    let root_read = spend.derive_root_read_key();
    let result = EncryptBuilder::new(Algorithm::EciesX25519ChaCha20, Scope::root())
        .add_recipient(recipient_of(&root_read))
        .encrypt(b"secret");
    assert!(result.is_err());
}

#[test]
fn hybrid_algorithm_is_refused_by_the_builder() {
    let (spend, root_read) = setup_keys();
    let err = EncryptBuilder::new(Algorithm::HybridX25519MlKemChaCha20, Scope::root())
        .add_recipient(recipient_of(&root_read))
        .set_spend_key(&spend)
        .encrypt(b"x")
        .unwrap_err();
    assert!(err.message().starts_with("encryption failed: "));
}

#[test]
fn test_scope_hierarchy_access() {
    let spend = SpendKeyPair::from_seed(&[42u8; 32]);
    let root = spend.derive_root_read_key();
    let finance = root.derive_child_segment("finance").unwrap();
    let finance_q1 = finance.derive_child_segment("q1").unwrap();
    let recipients = vec![recipient_of(&finance), recipient_of(&finance_q1)];
    let envelope =
        EncryptBuilder::new(Algorithm::EciesX25519ChaCha20, Scope::new("/finance/q1").unwrap())
            .add_recipients(&recipients)
            .set_spend_key(&spend)
            .encrypt(b"Q1 report")
            .unwrap();
    assert_eq!(decrypt(&envelope, &finance, &spend.verifying_key()).unwrap(), b"Q1 report");
    assert_eq!(decrypt(&envelope, &finance_q1, &spend.verifying_key()).unwrap(), b"Q1 report");
}

#[test]
fn test_scope_based_no_recipients_ok() {
    let spend = SpendKeyPair::from_seed(&[42u8; 32]);
    let envelope =
        EncryptBuilder::new(Algorithm::EciesX25519ChaCha20, Scope::new("/finance").unwrap())
            .set_spend_key(&spend)
            .set_scope_based()
            .encrypt(b"scope-based test")
            .unwrap();
    assert_eq!(envelope.access_mode, AccessMode::ScopeBased);
    assert_eq!(envelope.access_entries.len(), 1);
}

#[test]
fn test_scope_based_root_scope() {
    let spend = SpendKeyPair::from_seed(&[42u8; 32]);
    let root = spend.derive_root_read_key();
    let envelope = EncryptBuilder::new(Algorithm::EciesX25519ChaCha20, Scope::root())
        .set_spend_key(&spend)
        .set_scope_based()
        .encrypt(b"root scope-based")
        .unwrap();
    assert_eq!(envelope.access_mode, AccessMode::ScopeBased);
    assert_eq!(decrypt(&envelope, &root, &spend.verifying_key()).unwrap(), b"root scope-based");
}

#[test]
fn scope_based_ancestors_derive_down() {
    let spend = SpendKeyPair::from_seed(&[42u8; 32]);
    let root = spend.derive_root_read_key();
    let finance = root.derive_child_segment("finance").unwrap();
    let q1 = finance.derive_child_segment("q1").unwrap();
    let legal = root.derive_child_segment("legal").unwrap();
    let envelope =
        EncryptBuilder::new(Algorithm::EciesX25519ChaCha20, Scope::new("/finance/q1").unwrap())
            .set_spend_key(&spend)
            .set_scope_based()
            .encrypt(b"deep")
            .unwrap();
    let vk = spend.verifying_key();
    assert_eq!(decrypt(&envelope, &root, &vk).unwrap(), b"deep");
    assert_eq!(decrypt(&envelope, &finance, &vk).unwrap(), b"deep");
    assert_eq!(decrypt(&envelope, &q1, &vk).unwrap(), b"deep");
    let err = decrypt(&envelope, &legal, &vk).unwrap_err();
    assert!(err.message().starts_with("scope mismatch"));
    assert_eq!(envelope.version, 2);
}

#[test]
fn encrypt_with_fixed_randomness_is_deterministic() {
    let spend = SpendKeyPair::from_seed(&[42u8; 32]);
    let root = spend.derive_root_read_key();
    let mut builder = EncryptBuilder::new(Algorithm::EciesX25519ChaCha20, Scope::root());
    builder.add_recipient(recipient_of(&root)).set_spend_key(&spend);
    let wrap_nonces = vec![[5u8; 12]];
    let e1 = builder.encrypt_with(b"abc", &[1u8; 32], &[2u8; 32], &[3u8; 12], &wrap_nonces).unwrap();
    let e2 = builder.encrypt_with(b"abc", &[1u8; 32], &[2u8; 32], &[3u8; 12], &wrap_nonces).unwrap();
    assert_eq!(e1.to_bytes(), e2.to_bytes());
    assert_eq!(e1.ciphertext.len(), 3);
    assert_eq!(e1.access_entries[0].wrapped_data_key.len(), 48);
    assert_ne!(e1.ciphertext, b"abc".to_vec());
    assert_eq!(decrypt(&e1, &root, &spend.verifying_key()).unwrap(), b"abc");
}
