use rok::encrypt::{AccessMode, Algorithm, EncryptBuilder};
use rok::keys::scope::Scope;
use rok::keys::spend::SpendKeyPair;
use rok::sectioned::{Section, SectionedEnvelope, SectionedEnvelopeBuilder, SECTIONED_VERSION};

fn make_test_section(spend: &SpendKeyPair, name: &str, scope_str: &str, data: &[u8]) -> Section {
    let scope = Scope::new(scope_str).unwrap();
    let envelope = EncryptBuilder::new(Algorithm::EciesX25519ChaCha20, scope)
        .set_spend_key(spend)
        .set_scope_based()
        .encrypt(data)
        .unwrap();
    Section { name: name.to_string(), envelope }
}

#[test]
fn test_binary_roundtrip() {
    let spend = SpendKeyPair::from_seed(&[42u8; 32]);
    let s1 = make_test_section(&spend, "finance", "/finance", b"finance data");
    let s2 = make_test_section(&spend, "legal", "/legal", b"legal data");
    let mut builder = SectionedEnvelopeBuilder::new();
    builder.add_section(s1.name.clone(), s1.envelope.clone()).unwrap();
    builder.add_section(s2.name.clone(), s2.envelope.clone()).unwrap();
    let sectioned = builder.build().unwrap();
    let bytes = sectioned.to_bytes();
    let restored = SectionedEnvelope::from_bytes(&bytes).unwrap();
    assert_eq!(restored.version, SECTIONED_VERSION);
    assert_eq!(restored.sections.len(), 2);
    assert_eq!(restored.sections[0].name, "finance");
    assert_eq!(restored.sections[1].name, "legal");
    assert_eq!(restored.sections[0].envelope.scope, s1.envelope.scope);
    assert_eq!(restored.sections[1].envelope.scope, s2.envelope.scope);
}

#[test]
fn sectioned_test_invalid_magic() {
    let spend = SpendKeyPair::from_seed(&[42u8; 32]);
    let envelope = EncryptBuilder::new(Algorithm::EciesX25519ChaCha20, Scope::root())
        .set_spend_key(&spend)
        .set_scope_based()
        .encrypt(b"test")
        .unwrap();
    let single_bytes = envelope.to_bytes();
    assert!(SectionedEnvelope::from_bytes(&single_bytes).is_err());
}

#[test]
fn test_empty_sections_rejected() {
    let builder = SectionedEnvelopeBuilder::new();
    assert!(builder.build().is_err());
}

#[test]
fn test_duplicate_names_rejected() {
    let spend = SpendKeyPair::from_seed(&[42u8; 32]);
    let s1 = make_test_section(&spend, "finance", "/finance", b"data1");
    let s2 = make_test_section(&spend, "finance", "/legal", b"data2");
    let mut builder = SectionedEnvelopeBuilder::new();
    builder.add_section(s1.name, s1.envelope).unwrap();
    assert!(builder.add_section(s2.name, s2.envelope).is_err());
}

#[test]
fn sectioned_test_metadata() {
    let spend = SpendKeyPair::from_seed(&[42u8; 32]);
    let s1 = make_test_section(&spend, "finance", "/finance", b"finance data");
    let s2 = make_test_section(&spend, "legal", "/legal", b"legal data");
    let mut builder = SectionedEnvelopeBuilder::new();
    builder.add_section(s1.name, s1.envelope).unwrap();
    builder.add_section(s2.name, s2.envelope).unwrap();
    let sectioned = builder.build().unwrap();
    let meta = sectioned.metadata();
    assert_eq!(meta.version, SECTIONED_VERSION);
    assert_eq!(meta.section_count, 2);
    assert_eq!(meta.sections[0].name, "finance");
    assert_eq!(meta.sections[0].scope, "/finance");
    assert_eq!(meta.sections[0].algorithm, Algorithm::EciesX25519ChaCha20);
    assert_eq!(meta.sections[0].access_mode, AccessMode::ScopeBased);
    assert_eq!(meta.sections[1].name, "legal");
    assert_eq!(meta.sections[1].scope, "/legal");
}

#[test]
fn sectioned_header_and_truncation() {
    let spend = SpendKeyPair::from_seed(&[42u8; 32]);
    let s1 = make_test_section(&spend, "a", "/a", b"1");
    let mut builder = SectionedEnvelopeBuilder::default();
    builder.add_section(s1.name, s1.envelope).unwrap();
    let bytes = builder.build().unwrap().to_bytes();
    assert_eq!(&bytes[..4], b"ROKS");
    assert_eq!(&bytes[4..10], &[1, 0, 0, 0, 1, 0]);
    assert!(SectionedEnvelope::from_bytes(&bytes[..bytes.len() - 1]).is_err());
    let restored = SectionedEnvelope::from_bytes(&bytes).unwrap();
    assert_eq!(restored.to_bytes(), bytes);
}

#[test]
fn sectioned_test_proto_roundtrip() {
    let spend = SpendKeyPair::from_seed(&[42u8; 32]);
    let s1 = make_test_section(&spend, "finance", "/finance", b"finance data");
    let s2 = make_test_section(&spend, "legal", "/legal", b"legal data");

    let mut builder = SectionedEnvelopeBuilder::new();
    builder.add_section(s1.name.clone(), s1.envelope.clone()).unwrap();
    builder.add_section(s2.name.clone(), s2.envelope.clone()).unwrap();
    let sectioned = builder.build().unwrap();

    let bytes = sectioned.to_proto_bytes();
    let restored = SectionedEnvelope::from_proto_bytes(&bytes).unwrap();

    assert_eq!(restored.version, SECTIONED_VERSION);
    assert_eq!(restored.sections.len(), 2);
    assert_eq!(restored.sections[0].name, "finance");
    assert_eq!(restored.sections[1].name, "legal");
}

#[test]
fn proto_section_without_envelope_is_refused() {
    let m = rok::proto::rok::SectionedEnvelope {
        version: 1,
        sections: vec![rok::proto::rok::SectionedSection { name: "x".to_string(), envelope: None }],
    };
    let err = SectionedEnvelope::from_proto_bytes(&m.encode_to_vec()).err().unwrap();
    assert_eq!(err.message(), "serialization error: sectioned section missing envelope");
}
