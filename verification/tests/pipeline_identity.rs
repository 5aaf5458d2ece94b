use rok::encrypt::Recipient;
use rok::keys::read::ReadKeyPair;
use rok::keys::scope::Scope;
use rok::keys::spend::SpendKeyPair;
use rok::sdk::identity::Credential;
use rok::sdk::pipeline::Pipeline;

fn recipient_of(k: &ReadKeyPair) -> Recipient {
    Recipient { read_public_key: *k.public_key(), key_id: k.key_id() }
}

#[test]
fn test_pipeline_basic() {
    let spend = SpendKeyPair::from_seed(&[42u8; 32]);
    let vk = spend.verifying_key();
    let root = spend.derive_root_read_key();
    let consumer = root.derive_child_segment("stream").unwrap();
    let mut pipeline = Pipeline::new(Scope::new("/stream").unwrap(), SpendKeyPair::from_seed(&[42u8; 32]));
    pipeline.add_consumer(recipient_of(&consumer));
    let envelope = pipeline.encrypt_chunk(b"chunk 1").unwrap();
    let decrypted = Pipeline::decrypt_chunk(&envelope, &consumer, &vk).unwrap();
    assert_eq!(decrypted, b"chunk 1");
}

#[test]
fn test_pipeline_multiple_chunks() {
    let spend = SpendKeyPair::from_seed(&[42u8; 32]);
    let vk = spend.verifying_key();
    let root = spend.derive_root_read_key();
    let mut pipeline = Pipeline::new(Scope::root(), SpendKeyPair::from_seed(&[42u8; 32]));
    pipeline.add_consumer(recipient_of(&root));
    for i in 0..5 {
        let data = format!("chunk {}", i);
        let envelope = pipeline.encrypt_chunk(data.as_bytes()).unwrap();
        let decrypted = Pipeline::decrypt_chunk(&envelope, &root, &vk).unwrap();
        assert_eq!(decrypted, data.as_bytes());
    }
}

#[test]
fn test_pipeline_remove_consumer() {
    let spend = SpendKeyPair::from_seed(&[42u8; 32]);
    let root = spend.derive_root_read_key();
    let c1 = root.derive_child_segment("c1").unwrap();
    let c2 = root.derive_child_segment("c2").unwrap();
    let mut pipeline = Pipeline::new(Scope::root(), SpendKeyPair::from_seed(&[42u8; 32]));
    pipeline.add_consumer(recipient_of(&c1));
    pipeline.add_consumer(recipient_of(&c2));
    assert_eq!(pipeline.consumer_count(), 2);
    pipeline.remove_consumer(&c1.key_id());
    assert_eq!(pipeline.consumer_count(), 1);
}

#[test]
fn pipeline_without_consumers_cannot_encrypt() {
    let spend = SpendKeyPair::from_seed(&[42u8; 32]);
    let root = spend.derive_root_read_key();
    let mut pipeline = Pipeline::new(Scope::root(), SpendKeyPair::from_seed(&[42u8; 32]));
    assert!(pipeline.encrypt_chunk(b"x").is_err());
    pipeline.add_consumer(recipient_of(&root));
    pipeline.add_consumer(recipient_of(&root));
    pipeline.remove_consumer(&root.key_id());
    assert_eq!(pipeline.consumer_count(), 0);
}

#[test]
fn test_issue_and_full_disclosure() {
    let spend = SpendKeyPair::from_seed(&[42u8; 32]);
    let root = spend.derive_root_read_key();
    let recipients = vec![recipient_of(&root)];
    let name_scope = Scope::new("/identity/name").unwrap();
    let dob_scope = Scope::new("/identity/dob").unwrap();
    let cred = Credential::issue(
        &spend,
        "user-123",
        &[("name", &name_scope, b"Alice Smith"), ("dob", &dob_scope, b"1990-01-15")],
        &recipients,
    )
    .unwrap();
    assert_eq!(cred.attribute_count(), 2);
    let disclosed = cred.disclose(&root).unwrap();
    assert_eq!(disclosed.len(), 2);
}

#[test]
fn test_selective_disclosure() {
    let spend = SpendKeyPair::from_seed(&[42u8; 32]);
    let root = spend.derive_root_read_key();
    let identity = root.derive_child_segment("identity").unwrap();
    let name_key = identity.derive_child_segment("name").unwrap();
    let recipients = vec![recipient_of(&root), recipient_of(&name_key)];
    let name_scope = Scope::new("/identity/name").unwrap();
    let dob_scope = Scope::new("/identity/dob").unwrap();
    let cred = Credential::issue(
        &spend,
        "user-123",
        &[("name", &name_scope, b"Alice Smith"), ("dob", &dob_scope, b"1990-01-15")],
        &recipients,
    )
    .unwrap();
    let disclosed = cred.disclose(&name_key).unwrap();
    assert_eq!(disclosed.len(), 1);
    assert_eq!(disclosed[0].0, "name");
    assert_eq!(disclosed[0].1, b"Alice Smith");
}

#[test]
fn test_attribute_names() {
    let spend = SpendKeyPair::from_seed(&[42u8; 32]);
    let root = spend.derive_root_read_key();
    let recipients = vec![recipient_of(&root)];
    let name_scope = Scope::new("/identity/name").unwrap();
    let dob_scope = Scope::new("/identity/dob").unwrap();
    let cred = Credential::issue(
        &spend,
        "user-123",
        &[("name", &name_scope, b"Alice"), ("dob", &dob_scope, b"1990")],
        &recipients,
    )
    .unwrap();
    let names = cred.attribute_names();
    assert_eq!(names.len(), 2);
    assert!(names.iter().any(|(n, _)| *n == "name"));
    assert!(names.iter().any(|(n, _)| *n == "dob"));
}

#[test]
fn credential_without_recipients() {
    let spend = SpendKeyPair::from_seed(&[42u8; 32]);
    let scope = Scope::new("/identity/name").unwrap();
    assert!(Credential::issue(&spend, "u", &[("name", &scope, b"A")], &[]).is_err());
    let empty = Credential::issue(&spend, "u", &[], &[]).unwrap();
    assert_eq!(empty.attribute_count(), 0);
    assert_eq!(empty.issuer_verifying_key, spend.verifying_key());
}
