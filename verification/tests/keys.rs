use rok::derive::{
    combine_hybrid_secrets, derive_child_read_secret, derive_root_read_secret, derive_wrapping_key,
};
use rok::keys::key_id::KeyId;
use rok::keys::read::ReadKeyPair;
use rok::keys::scope::Scope;
use rok::keys::spend::SpendKeyPair;
use rok::sign;

#[test]
fn test_root_derivation_deterministic() {
    let spend_secret = [42u8; 32];
    let root1 = derive_root_read_secret(&spend_secret);
    let root2 = derive_root_read_secret(&spend_secret);
    assert_eq!(root1, root2);
}

#[test]
fn test_root_derivation_different_inputs() {
    let root1 = derive_root_read_secret(&[1u8; 32]);
    let root2 = derive_root_read_secret(&[2u8; 32]);
    assert_ne!(root1, root2);
}

#[test]
fn test_child_derivation_deterministic() {
    let parent_secret = [99u8; 32];
    let parent_scope = Scope::root();
    let child_scope = Scope::new("/finance").unwrap();
    let child1 = derive_child_read_secret(&parent_secret, &parent_scope, &child_scope).unwrap();
    let child2 = derive_child_read_secret(&parent_secret, &parent_scope, &child_scope).unwrap();
    assert_eq!(child1, child2);
}

#[test]
fn test_sibling_independence() {
    let parent_secret = [99u8; 32];
    let parent_scope = Scope::root();
    let finance = Scope::new("/finance").unwrap();
    let legal = Scope::new("/legal").unwrap();
    let finance_secret = derive_child_read_secret(&parent_secret, &parent_scope, &finance).unwrap();
    let legal_secret = derive_child_read_secret(&parent_secret, &parent_scope, &legal).unwrap();
    assert_ne!(finance_secret, legal_secret);
}

#[test]
fn test_stepwise_derivation() {
    let root_secret = [77u8; 32];
    let root_scope = Scope::root();
    let finance_scope = Scope::new("/finance").unwrap();
    let finance_q1_scope = Scope::new("/finance/q1").unwrap();
    let direct = derive_child_read_secret(&root_secret, &root_scope, &finance_q1_scope).unwrap();
    let finance_secret = derive_child_read_secret(&root_secret, &root_scope, &finance_scope).unwrap();
    let stepwise =
        derive_child_read_secret(&finance_secret, &finance_scope, &finance_q1_scope).unwrap();
    assert_eq!(direct, stepwise);
}

#[test]
fn test_non_ancestor_scope_rejected() {
    let finance = Scope::new("/finance").unwrap();
    let legal = Scope::new("/legal").unwrap();
    assert!(derive_child_read_secret(&[1u8; 32], &finance, &legal).is_err());
}

#[test]
fn test_same_scope_rejected() {
    let scope = Scope::new("/finance").unwrap();
    assert!(derive_child_read_secret(&[1u8; 32], &scope, &scope).is_err());
}

#[test]
fn test_wrapping_key_deterministic() {
    let shared = [55u8; 32];
    let key_id = KeyId::from_bytes([1, 2, 3, 4, 5, 6, 7, 8]);
    assert_eq!(derive_wrapping_key(&shared, &key_id), derive_wrapping_key(&shared, &key_id));
}

#[test]
fn test_wrapping_key_different_key_ids() {
    let shared = [55u8; 32];
    let id1 = KeyId::from_bytes([1, 2, 3, 4, 5, 6, 7, 8]);
    let id2 = KeyId::from_bytes([8, 7, 6, 5, 4, 3, 2, 1]);
    assert_ne!(derive_wrapping_key(&shared, &id1), derive_wrapping_key(&shared, &id2));
}

#[test]
fn test_hybrid_combine_deterministic() {
    let x25519 = [10u8; 32];
    let mlkem = [20u8; 32];
    assert_eq!(combine_hybrid_secrets(&x25519, &mlkem), combine_hybrid_secrets(&x25519, &mlkem));
}

#[test]
fn test_hybrid_combine_different_from_components() {
    let x25519 = [10u8; 32];
    let mlkem = [20u8; 32];
    let combined = combine_hybrid_secrets(&x25519, &mlkem);
    assert_ne!(combined, x25519);
    assert_ne!(combined, mlkem);
}

#[test]
fn derive_errors_are_derivation_errors() {
    let scope = Scope::new("/finance").unwrap();
    let err = derive_child_read_secret(&[1u8; 32], &scope, &scope).unwrap_err();
    assert!(err.message().starts_with("key derivation failed: "));
}

#[test]
fn test_deterministic() {
    let key_bytes = b"some public key material here!!!";
    assert_eq!(KeyId::from_public_bytes(key_bytes), KeyId::from_public_bytes(key_bytes));
}

#[test]
fn test_different_keys_different_ids() {
    let id1 = KeyId::from_public_bytes(b"key1_material_aaaaaaaaaaaaaaaa");
    let id2 = KeyId::from_public_bytes(b"key2_material_aaaaaaaaaaaaaaaa");
    assert_ne!(id1, id2);
}

#[test]
fn test_base58_roundtrip() {
    let id = KeyId::from_public_bytes(b"test key bytes for roundtrip!!");
    let encoded = id.to_base58();
    let decoded = KeyId::from_base58(&encoded).unwrap();
    assert_eq!(id, decoded);
}

#[test]
fn test_invalid_base58() {
    assert!(KeyId::from_base58("!!!invalid!!!").is_err());
    assert!(KeyId::from_base58("1").is_err());
}

#[test]
fn key_id_is_sha256_prefix() {
    // SHA-256 of the empty string begins e3 b0 c4 42 98 fc 1c 14.
    let id = KeyId::from_public_bytes(b"");
    assert_eq!(*id.as_bytes(), [0xe3, 0xb0, 0xc4, 0x42, 0x98, 0xfc, 0x1c, 0x14]);
    assert_eq!(KeyId::from_bytes([0; 8]).to_base58(), "11111111");
}

#[test]
fn test_derive_child() {
    let spend = SpendKeyPair::from_seed(&[42u8; 32]);
    let root = spend.derive_root_read_key();
    let finance = root.derive_child_segment("finance").unwrap();
    assert_eq!(finance.scope().as_str(), "/finance");
    assert_eq!(finance.parent_key_id(), Some(&root.key_id()));
}

#[test]
fn test_derive_grandchild() {
    let spend = SpendKeyPair::from_seed(&[42u8; 32]);
    let root = spend.derive_root_read_key();
    let finance = root.derive_child_segment("finance").unwrap();
    let q1 = finance.derive_child_segment("q1").unwrap();
    assert_eq!(q1.scope().as_str(), "/finance/q1");
    assert_eq!(q1.parent_key_id(), Some(&finance.key_id()));
}

#[test]
fn test_can_access() {
    let spend = SpendKeyPair::from_seed(&[42u8; 32]);
    let root = spend.derive_root_read_key();
    let finance = root.derive_child_segment("finance").unwrap();
    let finance_scope = Scope::new("/finance").unwrap();
    let finance_q1 = Scope::new("/finance/q1").unwrap();
    let legal = Scope::new("/legal").unwrap();
    let root_scope = Scope::root();

    assert!(root.can_access(&root_scope));
    assert!(root.can_access(&finance_scope));
    assert!(root.can_access(&finance_q1));
    assert!(root.can_access(&legal));

    assert!(finance.can_access(&finance_scope));
    assert!(finance.can_access(&finance_q1));
    assert!(!finance.can_access(&root_scope));
    assert!(!finance.can_access(&legal));
}

#[test]
fn test_derive_non_descendant_fails() {
    let spend = SpendKeyPair::from_seed(&[42u8; 32]);
    let root = spend.derive_root_read_key();
    let finance = root.derive_child_segment("finance").unwrap();
    assert!(finance.derive_child(&Scope::new("/legal").unwrap()).is_err());
}

#[test]
fn test_derive_same_scope_fails() {
    let spend = SpendKeyPair::from_seed(&[42u8; 32]);
    let root = spend.derive_root_read_key();
    assert!(root.derive_child(&Scope::root()).is_err());
}

#[test]
fn test_export_import_roundtrip() {
    let spend = SpendKeyPair::from_seed(&[42u8; 32]);
    let root = spend.derive_root_read_key();
    let finance = root.derive_child_segment("finance").unwrap();
    let exported = finance.export();
    let imported = ReadKeyPair::import(&exported).unwrap();
    assert_eq!(finance.key_id(), imported.key_id());
    assert_eq!(finance.scope(), imported.scope());
    assert_eq!(finance.public_key(), imported.public_key());
}

#[test]
fn import_rejects_mismatched_public_key() {
    let spend = SpendKeyPair::from_seed(&[42u8; 32]);
    let mut exported = spend.derive_root_read_key().export();
    exported.public_bytes[0] ^= 1;
    let err = ReadKeyPair::import(&exported).err().unwrap();
    assert_eq!(err.message(), "invalid key material");
}

#[test]
fn test_derived_keys_are_deterministic() {
    let spend = SpendKeyPair::from_seed(&[42u8; 32]);
    let finance1 = spend.derive_root_read_key().derive_child_segment("finance").unwrap();
    let finance2 = spend.derive_root_read_key().derive_child_segment("finance").unwrap();
    assert_eq!(finance1.key_id(), finance2.key_id());
    assert_eq!(finance1.public_key(), finance2.public_key());
}

#[test]
fn test_multi_step_equals_direct() {
    let spend = SpendKeyPair::from_seed(&[42u8; 32]);
    let root = spend.derive_root_read_key();
    let abc_direct = root.derive_child(&Scope::new("/a/b/c").unwrap()).unwrap();
    let a = root.derive_child_segment("a").unwrap();
    let ab = a.derive_child_segment("b").unwrap();
    let abc_stepwise = ab.derive_child_segment("c").unwrap();
    assert_eq!(abc_direct.key_id(), abc_stepwise.key_id());
    assert_eq!(abc_direct.public_key(), abc_stepwise.public_key());
}

#[test]
fn test_generate_and_seed_roundtrip() {
    let key = SpendKeyPair::generate();
    let seed = key.seed();
    let restored = SpendKeyPair::from_seed(&seed);
    assert_eq!(key.verifying_key(), restored.verifying_key());
}

#[test]
fn test_key_id_deterministic() {
    let key = SpendKeyPair::from_seed(&[42u8; 32]);
    assert_eq!(key.key_id(), key.key_id());
}

#[test]
fn test_derive_root_read_key_deterministic() {
    let key = SpendKeyPair::from_seed(&[42u8; 32]);
    let root1 = key.derive_root_read_key();
    let root2 = key.derive_root_read_key();
    assert_eq!(root1.key_id(), root2.key_id());
    assert_eq!(root1.scope(), root2.scope());
}

#[test]
fn test_different_spend_keys_different_read_keys() {
    let root1 = SpendKeyPair::from_seed(&[1u8; 32]).derive_root_read_key();
    let root2 = SpendKeyPair::from_seed(&[2u8; 32]).derive_root_read_key();
    assert_ne!(root1.key_id(), root2.key_id());
}

#[test]
fn spend_key_from_known_seed() {
    // RFC 8032 test vector 1: this secret key has this public key.
    let seed: [u8; 32] = [
        0x9d, 0x61, 0xb1, 0x9d, 0xef, 0xfd, 0x5a, 0x60, 0xba, 0x84, 0x4a, 0xf4, 0x92, 0xec, 0x2c, 0xc4,
        0x44, 0x49, 0xc5, 0x69, 0x7b, 0x32, 0x69, 0x19, 0x70, 0x3b, 0xac, 0x03, 0x1c, 0xae, 0x7f, 0x60,
    ];
    let public: [u8; 32] = [
        0xd7, 0x5a, 0x98, 0x01, 0x82, 0xb1, 0x0a, 0xb7, 0xd5, 0x4b, 0xfe, 0xd3, 0xc9, 0x64, 0x07, 0x3a,
        0x0e, 0xe1, 0x72, 0xf3, 0xda, 0xa6, 0x23, 0x25, 0xaf, 0x02, 0x1a, 0x68, 0xf7, 0x07, 0x51, 0x1a,
    ];
    let key = SpendKeyPair::from_seed(&seed);
    assert_eq!(key.verifying_key(), public);
    assert_eq!(key.seed(), seed);
}

#[test]
fn test_sign_verify_roundtrip() {
    let spend = SpendKeyPair::from_seed(&[42u8; 32]);
    let data = b"hello world";
    let sig = sign::sign(&spend, data);
    assert!(sign::verify(&spend.verifying_key(), data, &sig).is_ok());
}

#[test]
fn test_verify_wrong_key_fails() {
    let spend1 = SpendKeyPair::from_seed(&[1u8; 32]);
    let spend2 = SpendKeyPair::from_seed(&[2u8; 32]);
    let data = b"hello";
    let sig = sign::sign(&spend1, data);
    assert!(sign::verify(&spend2.verifying_key(), data, &sig).is_err());
}

#[test]
fn test_verify_tampered_data_fails() {
    let spend = SpendKeyPair::from_seed(&[42u8; 32]);
    let sig = sign::sign(&spend, b"hello");
    assert!(sign::verify(&spend.verifying_key(), b"tampered", &sig).is_err());
}

#[test]
fn test_verify_tampered_signature_fails() {
    let spend = SpendKeyPair::from_seed(&[42u8; 32]);
    let data = b"hello";
    let mut sig = sign::sign(&spend, data);
    sig[0] ^= 0xff;
    let err = sign::verify(&spend.verifying_key(), data, &sig).unwrap_err();
    assert_eq!(err.message(), "signature verification failed");
}
