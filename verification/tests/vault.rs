use rok::encrypt::Recipient;
use rok::keys::read::ReadKeyPair;
use rok::keys::scope::Scope;
use rok::keys::spend::SpendKeyPair;
use rok::sdk::vault::Vault;

fn setup() -> (SpendKeyPair, ReadKeyPair, ReadKeyPair, ReadKeyPair) {
    let spend = SpendKeyPair::from_seed(&[42u8; 32]);
    let root = spend.derive_root_read_key();
    let finance = root.derive_child_segment("finance").unwrap();
    let legal = root.derive_child_segment("legal").unwrap();
    (spend, root, finance, legal)
}

fn recipient_of(k: &ReadKeyPair) -> Recipient {
    Recipient { read_public_key: *k.public_key(), key_id: k.key_id() }
}

#[test]
fn test_store_and_retrieve() {
    let (_spend, _root, finance, _) = setup();
    let mut vault = Vault::new(SpendKeyPair::from_seed(&[42u8; 32]));
    let recipients = vec![recipient_of(&finance)];
    vault.store("report.pdf", &Scope::new("/finance").unwrap(), b"secret data", &recipients).unwrap();
    let data = vault.retrieve("report.pdf", &finance).unwrap();
    assert_eq!(data, b"secret data");
}

#[test]
fn test_wrong_scope_key_fails() {
    let (_spend, _, finance, legal) = setup();
    let mut vault = Vault::new(SpendKeyPair::from_seed(&[42u8; 32]));
    let recipients = vec![recipient_of(&finance)];
    vault.store("report.pdf", &Scope::new("/finance").unwrap(), b"secret", &recipients).unwrap();
    assert!(vault.retrieve("report.pdf", &legal).is_err());
}

#[test]
fn test_list_documents() {
    let (_spend, _root, finance, legal) = setup();
    let mut vault = Vault::new(SpendKeyPair::from_seed(&[42u8; 32]));
    let fin_recipients = vec![recipient_of(&finance)];
    let legal_recipients = vec![recipient_of(&legal)];
    vault.store("fin.pdf", &Scope::new("/finance").unwrap(), b"data1", &fin_recipients).unwrap();
    vault.store("contract.pdf", &Scope::new("/legal").unwrap(), b"data2", &legal_recipients).unwrap();
    assert_eq!(vault.list(None).len(), 2);
    let fin_scope = Scope::new("/finance").unwrap();
    let fin_docs = vault.list(Some(&fin_scope));
    assert_eq!(fin_docs.len(), 1);
    assert_eq!(fin_docs[0].name, "fin.pdf");
}

#[test]
fn test_rekey() {
    let (_, root, finance, legal) = setup();
    let mut vault = Vault::new(SpendKeyPair::from_seed(&[42u8; 32]));
    let recipients = vec![recipient_of(&root), recipient_of(&finance)];
    vault.store("report.pdf", &Scope::new("/finance").unwrap(), b"secret data", &recipients).unwrap();
    let new_recipients = vec![recipient_of(&root), recipient_of(&legal)];
    let count = vault.rekey(&Scope::new("/finance").unwrap(), &root, &new_recipients).unwrap();
    assert_eq!(count, 1);
    assert!(vault.retrieve("report.pdf", &finance).is_err());
    let data = vault.retrieve("report.pdf", &root).unwrap();
    assert_eq!(data, b"secret data");
}

#[test]
fn vault_counts_and_missing_documents() {
    let (spend, root, _, _) = setup();
    let mut vault = Vault::new(SpendKeyPair::from_seed(&[42u8; 32]));
    assert!(vault.is_empty());
    assert_eq!(vault.verifying_key(), spend.verifying_key());
    assert!(vault.store("x", &Scope::root(), b"1", &[]).is_err());
    assert!(vault.is_empty());
    vault.store("x", &Scope::root(), b"1", &[recipient_of(&root)]).unwrap();
    vault.store("x", &Scope::root(), b"2", &[recipient_of(&root)]).unwrap();
    assert_eq!(vault.len(), 1);
    assert_eq!(vault.retrieve("x", &root).unwrap(), b"2");
    let err = vault.retrieve("y", &root).unwrap_err();
    assert_eq!(err.message(), "key not found: document 'y' not found");
}

#[test]
fn rekey_fails_where_a_document_cannot_be_rekeyed() {
    let (_spend, root, finance, legal) = setup();
    let mut vault = Vault::new(SpendKeyPair::from_seed(&[42u8; 32]));
    vault.store("a", &Scope::new("/finance").unwrap(), b"x", &vec![recipient_of(&finance)]).unwrap();
    vault.store("b", &Scope::new("/legal").unwrap(), b"y", &vec![recipient_of(&legal)]).unwrap();
    assert!(vault.rekey(&Scope::new("/finance").unwrap(), &root, &[]).is_err());
    assert_eq!(vault.rekey(&Scope::new("/other").unwrap(), &root, &[]).unwrap(), 0);
    assert!(vault.rekey(&Scope::new("/finance").unwrap(), &legal, &[recipient_of(&finance)]).is_err());
}
