use rok::keyring::KeyStore;
use rok::keys::key_id::KeyId;
use rok::keys::spend::SpendKeyPair;
use rok::sdk::keyring::MemoryKeyring;

#[test]
fn test_spend_key_store_load() {
    let mut kr = MemoryKeyring::new();
    let spend = SpendKeyPair::from_seed(&[42u8; 32]);
    kr.store_spend_key("main", &spend).unwrap();
    let loaded = kr.load_spend_key("main").unwrap();
    assert_eq!(spend.verifying_key(), loaded.verifying_key());
}

#[test]
fn test_read_key_store_load() {
    let mut kr = MemoryKeyring::new();
    let spend = SpendKeyPair::from_seed(&[42u8; 32]);
    let root = spend.derive_root_read_key();
    let finance = root.derive_child_segment("finance").unwrap();
    kr.store_read_key(&finance).unwrap();
    let loaded = kr.load_read_key(&finance.key_id()).unwrap();
    assert_eq!(finance.key_id(), loaded.key_id());
    assert_eq!(finance.scope(), loaded.scope());
}

#[test]
fn test_list_read_keys() {
    let mut kr = MemoryKeyring::new();
    let spend = SpendKeyPair::from_seed(&[42u8; 32]);
    let root = spend.derive_root_read_key();
    let finance = root.derive_child_segment("finance").unwrap();
    let legal = root.derive_child_segment("legal").unwrap();
    kr.store_read_key(&finance).unwrap();
    kr.store_read_key(&legal).unwrap();
    assert_eq!(kr.list_read_keys().unwrap().len(), 2);
}

#[test]
fn test_revoke_key() {
    let mut kr = MemoryKeyring::new();
    let spend = SpendKeyPair::from_seed(&[42u8; 32]);
    let finance = spend.derive_root_read_key().derive_child_segment("finance").unwrap();
    kr.store_read_key(&finance).unwrap();
    assert!(!kr.is_revoked(&finance.key_id()).unwrap());
    kr.revoke_key(&finance.key_id()).unwrap();
    assert!(kr.is_revoked(&finance.key_id()).unwrap());
    assert!(kr.load_read_key(&finance.key_id()).is_err());
}

#[test]
fn test_delete_key() {
    let mut kr = MemoryKeyring::new();
    let spend = SpendKeyPair::from_seed(&[42u8; 32]);
    let finance = spend.derive_root_read_key().derive_child_segment("finance").unwrap();
    kr.store_read_key(&finance).unwrap();
    kr.delete_key(&finance.key_id()).unwrap();
    assert!(kr.load_read_key(&finance.key_id()).is_err());
}

#[test]
fn test_key_not_found() {
    let kr = MemoryKeyring::new();
    let fake_id = KeyId::from_bytes([0; 8]);
    assert!(kr.load_read_key(&fake_id).is_err());
}

#[test]
fn keyring_errors_by_kind() {
    let mut kr = MemoryKeyring::default();
    assert!(kr.load_spend_key("none").err().unwrap().message().starts_with("key not found: "));
    let spend = SpendKeyPair::from_seed(&[1u8; 32]);
    let root = spend.derive_root_read_key();
    kr.store_read_key_at(&root, 7);
    let info = kr.list_read_keys().unwrap();
    assert_eq!(info[0].created_at, 7);
    assert_eq!(info[0].key_id, root.key_id());
    kr.revoke_key(&root.key_id()).unwrap();
    assert!(kr.load_read_key(&root.key_id()).err().unwrap().message().starts_with("key revoked: "));
    assert!(kr.revoke_key(&KeyId::from_bytes([9; 8])).is_err());
    assert!(kr.delete_key(&KeyId::from_bytes([9; 8])).is_err());
}
