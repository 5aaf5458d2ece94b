use rand::Rng;
use rok::encrypt::{AccessMode, Algorithm};
use rok::envelope::EncryptedEnvelope;
use rok::keys::key_id::KeyId;
use rok::keys::scope::Scope;
use rok::keys::spend::SpendKeyPair;
use rok::pq::envelope::{hybrid_decrypt, hybrid_encrypt};
use rok::pq::hybrid::{hybrid_decapsulate, hybrid_encapsulate, HybridRecipient};
use rok::pq::kem::{decapsulate, encapsulate, PqKeyPair};
use rok::pq::pq_derive::derive_pq_keypair;

fn x25519_pair() -> ([u8; 32], [u8; 32]) {
    let mut secret = [0u8; 32];
    rand::thread_rng().fill(&mut secret);
    let public = x25519_dalek::PublicKey::from(&x25519_dalek::StaticSecret::from(secret)).to_bytes();
    (secret, public)
}

fn make_spend() -> SpendKeyPair {
    SpendKeyPair::from_seed(&[42u8; 32])
}

#[test]
fn test_keygen_encapsulate_decapsulate_roundtrip() {
    let keypair = PqKeyPair::generate();
    let (ss_sender, ct) = encapsulate(keypair.encapsulation_key());
    let ss_recipient = decapsulate(keypair.decapsulation_key(), &ct).unwrap();
    assert_eq!(ss_sender, ss_recipient);
    assert_eq!(ss_sender.len(), 32);
}

#[test]
fn test_different_keypairs_different_shared_secrets() {
    let kp1 = PqKeyPair::generate();
    let kp2 = PqKeyPair::generate();
    let (ss1, _) = encapsulate(kp1.encapsulation_key());
    let (ss2, _) = encapsulate(kp2.encapsulation_key());
    assert_ne!(ss1, ss2);
}

#[test]
fn test_wrong_key_decapsulation_yields_different_secret() {
    let kp1 = PqKeyPair::generate();
    let kp2 = PqKeyPair::generate();
    let (ss_sender, ct) = encapsulate(kp1.encapsulation_key());
    let ss_wrong = decapsulate(kp2.decapsulation_key(), &ct).unwrap();
    assert_ne!(ss_sender, ss_wrong);
}

#[test]
fn decapsulate_rejects_wrong_length() {
    let kp = PqKeyPair::generate();
    let err = decapsulate(kp.decapsulation_key(), &[0u8; 10]).unwrap_err();
    assert!(err.message().starts_with("decryption failed: "));
}

#[test]
fn test_deterministic_pq_derivation() {
    let secret = [42u8; 32];
    let scope = Scope::new("/finance").unwrap();
    let kp1 = derive_pq_keypair(&secret, &scope);
    let kp2 = derive_pq_keypair(&secret, &scope);
    assert_eq!(kp1.encapsulation_key(), kp2.encapsulation_key());
}

#[test]
fn test_different_scopes_different_pq_keys() {
    let secret = [42u8; 32];
    let kp_finance = derive_pq_keypair(&secret, &Scope::new("/finance").unwrap());
    let kp_legal = derive_pq_keypair(&secret, &Scope::new("/legal").unwrap());
    assert_ne!(kp_finance.encapsulation_key(), kp_legal.encapsulation_key());
}

#[test]
fn test_hybrid_roundtrip() {
    let pq_keypair = PqKeyPair::generate();
    let (x25519_secret, x25519_public) = x25519_pair();
    let recipient = HybridRecipient {
        x25519_public,
        mlkem_encapsulation_key: pq_keypair.encapsulation_key().to_vec(),
        key_id: KeyId::from_public_bytes(&x25519_public),
    };
    let (eph_secret, eph_public) = x25519_pair();
    let encap = hybrid_encapsulate(&recipient, &eph_secret);
    let decap_secret = hybrid_decapsulate(
        &x25519_secret,
        &eph_public,
        pq_keypair.decapsulation_key(),
        &encap.mlkem_ciphertext,
    )
    .unwrap();
    assert_eq!(encap.combined_shared_secret, decap_secret);
}

#[test]
fn test_hybrid_wrong_x25519_key_fails() {
    let pq_keypair = PqKeyPair::generate();
    let (_x25519_secret, x25519_public) = x25519_pair();
    let recipient = HybridRecipient {
        x25519_public,
        mlkem_encapsulation_key: pq_keypair.encapsulation_key().to_vec(),
        key_id: KeyId::from_public_bytes(&x25519_public),
    };
    let (eph_secret, eph_public) = x25519_pair();
    let encap = hybrid_encapsulate(&recipient, &eph_secret);
    let (wrong_secret, _) = x25519_pair();
    let decap = hybrid_decapsulate(
        &wrong_secret,
        &eph_public,
        pq_keypair.decapsulation_key(),
        &encap.mlkem_ciphertext,
    )
    .unwrap();
    assert_ne!(encap.combined_shared_secret, decap);
}

#[test]
fn test_hybrid_wrong_pq_key_fails() {
    let pq_keypair = PqKeyPair::generate();
    let wrong_pq = PqKeyPair::generate();
    let (x25519_secret, x25519_public) = x25519_pair();
    let recipient = HybridRecipient {
        x25519_public,
        mlkem_encapsulation_key: pq_keypair.encapsulation_key().to_vec(),
        key_id: KeyId::from_public_bytes(&x25519_public),
    };
    let (eph_secret, eph_public) = x25519_pair();
    let encap = hybrid_encapsulate(&recipient, &eph_secret);
    let decap = hybrid_decapsulate(
        &x25519_secret,
        &eph_public,
        wrong_pq.decapsulation_key(),
        &encap.mlkem_ciphertext,
    )
    .unwrap();
    assert_ne!(encap.combined_shared_secret, decap);
}

#[test]
fn test_hybrid_encrypt_decrypt_roundtrip() {
    let spend = make_spend();
    let root = spend.derive_root_read_key();
    let finance = root.derive_child_segment("finance").unwrap();
    let plaintext = b"Q1 finance report - hybrid encrypted";
    let scope = Scope::new("/finance").unwrap();
    let envelope = hybrid_encrypt(plaintext, &scope, &spend).unwrap();
    assert_eq!(envelope.algorithm, Algorithm::HybridX25519MlKemChaCha20);
    assert_eq!(envelope.access_mode, AccessMode::ScopeBased);
    assert!(envelope.ephemeral_mlkem_ciphertext.is_some());
    let decrypted = hybrid_decrypt(&envelope, &finance, &spend.verifying_key()).unwrap();
    assert_eq!(decrypted, plaintext);
}

#[test]
fn test_hybrid_ancestor_can_decrypt() {
    let spend = make_spend();
    let root = spend.derive_root_read_key();
    let finance = root.derive_child_segment("finance").unwrap();
    let scope = Scope::new("/finance/q1").unwrap();
    let plaintext = b"Q1 deep report";
    let envelope = hybrid_encrypt(plaintext, &scope, &spend).unwrap();
    assert_eq!(hybrid_decrypt(&envelope, &root, &spend.verifying_key()).unwrap(), plaintext);
    assert_eq!(hybrid_decrypt(&envelope, &finance, &spend.verifying_key()).unwrap(), plaintext);
}

#[test]
fn test_hybrid_sibling_rejected() {
    let spend = make_spend();
    let root = spend.derive_root_read_key();
    let legal = root.derive_child_segment("legal").unwrap();
    let envelope = hybrid_encrypt(b"secret", &Scope::new("/finance").unwrap(), &spend).unwrap();
    assert!(hybrid_decrypt(&envelope, &legal, &spend.verifying_key()).is_err());
}

#[test]
fn test_hybrid_binary_roundtrip() {
    let spend = make_spend();
    let root = spend.derive_root_read_key();
    let plaintext = b"binary roundtrip test";
    let envelope = hybrid_encrypt(plaintext, &Scope::new("/finance").unwrap(), &spend).unwrap();
    let bytes = envelope.to_bytes();
    let restored = EncryptedEnvelope::from_bytes(&bytes).unwrap();
    assert_eq!(hybrid_decrypt(&restored, &root, &spend.verifying_key()).unwrap(), plaintext);
}

#[test]
fn test_hybrid_tamper_rejected() {
    let spend = make_spend();
    let root = spend.derive_root_read_key();
    let mut envelope = hybrid_encrypt(b"tamper test", &Scope::new("/finance").unwrap(), &spend).unwrap();
    envelope.ciphertext[0] ^= 0xff;
    assert!(hybrid_decrypt(&envelope, &root, &spend.verifying_key()).is_err());
}

#[test]
fn test_hybrid_root_scope() {
    let spend = make_spend();
    let root = spend.derive_root_read_key();
    let plaintext = b"root scope hybrid";
    let envelope = hybrid_encrypt(plaintext, &Scope::root(), &spend).unwrap();
    assert_eq!(hybrid_decrypt(&envelope, &root, &spend.verifying_key()).unwrap(), plaintext);
}

#[test]
fn hybrid_decrypt_refuses_classical_envelopes() {
    let spend = make_spend();
    let root = spend.derive_root_read_key();
    let mut envelope = hybrid_encrypt(b"x", &Scope::root(), &spend).unwrap();
    envelope.algorithm = Algorithm::EciesX25519ChaCha20;
    let err = hybrid_decrypt(&envelope, &root, &spend.verifying_key()).unwrap_err();
    assert!(err.message().starts_with("decryption failed: "));
}

#[test]
fn test_hybrid_proto_roundtrip() {
    let spend = make_spend();
    let root = spend.derive_root_read_key();

    let scope = Scope::new("/finance").unwrap();
    let plaintext = b"proto roundtrip test";

    let envelope = hybrid_encrypt(plaintext, &scope, &spend).unwrap();

    let bytes = envelope.to_proto_bytes();
    let restored = EncryptedEnvelope::from_proto_bytes(&bytes).unwrap();
    let decrypted = hybrid_decrypt(&restored, &root, &spend.verifying_key()).unwrap();
    assert_eq!(decrypted, plaintext);
}
