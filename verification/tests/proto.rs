use rok::encrypt::{AccessMode, Algorithm};
use rok::envelope::{AccessEntry, EncryptedEnvelope};
use rok::keys::key_id::KeyId;
use rok::keys::read::ExportedReadKey;
use rok::keys::scope::Scope;
use rok::keys::spend::SpendKeyPair;
use rok::proto::rok as messages;
use rok::proto::wire::{push_varint, read_varint_exec};

fn make_test_envelope() -> EncryptedEnvelope {
    EncryptedEnvelope {
        version: 2,
        algorithm: Algorithm::EciesX25519ChaCha20,
        scope: Scope::new("/test").unwrap(),
        ephemeral_x25519_public: [1u8; 32],
        ephemeral_mlkem_ciphertext: None,
        access_entries: vec![AccessEntry {
            read_key_id: KeyId::from_bytes([1, 2, 3, 4, 5, 6, 7, 8]),
            wrapped_data_key: vec![0u8; 48],
            wrap_nonce: [9u8; 12],
        }],
        nonce: [10u8; 12],
        ciphertext: vec![11u8; 64],
        tag: [12u8; 16],
        signature: [13u8; 64],
        spend_public_key: [14u8; 32],
        access_mode: AccessMode::Recipient,
    }
}

#[test]
fn test_protobuf_roundtrip() {
    let envelope = make_test_envelope();
    let bytes = envelope.to_proto_bytes();
    let restored = EncryptedEnvelope::from_proto_bytes(&bytes).unwrap();

    assert_eq!(restored.version, envelope.version);
    assert_eq!(restored.algorithm, envelope.algorithm);
    assert_eq!(restored.scope, envelope.scope);
    assert_eq!(restored.ephemeral_x25519_public, envelope.ephemeral_x25519_public);
    assert_eq!(restored.access_entries.len(), 1);
    assert_eq!(restored.access_entries[0].read_key_id, envelope.access_entries[0].read_key_id);
    assert_eq!(restored.nonce, envelope.nonce);
    assert_eq!(restored.ciphertext, envelope.ciphertext);
    assert_eq!(restored.tag, envelope.tag);
    assert_eq!(restored.signature, envelope.signature);
    assert_eq!(restored.spend_public_key, envelope.spend_public_key);
}

#[test]
fn test_protobuf_with_mlkem_ciphertext() {
    let mut envelope = make_test_envelope();
    envelope.algorithm = Algorithm::HybridX25519MlKemChaCha20;
    envelope.ephemeral_mlkem_ciphertext = Some(vec![42u8; 1088]);

    let bytes = envelope.to_proto_bytes();
    let restored = EncryptedEnvelope::from_proto_bytes(&bytes).unwrap();

    assert_eq!(restored.algorithm, Algorithm::HybridX25519MlKemChaCha20);
    assert_eq!(restored.ephemeral_mlkem_ciphertext, Some(vec![42u8; 1088]));
}

#[test]
fn test_algorithm_conversion_roundtrip() {
    let native = Algorithm::EciesX25519ChaCha20;
    let proto = messages::Algorithm::from_native(native);
    let back = proto.to_native().unwrap();
    assert_eq!(native, back);

    let native = Algorithm::HybridX25519MlKemChaCha20;
    let proto = messages::Algorithm::from_native(native);
    let back = proto.to_native().unwrap();
    assert_eq!(native, back);
}

#[test]
fn test_invalid_protobuf_bytes_rejected() {
    assert!(EncryptedEnvelope::from_proto_bytes(b"garbage").is_err());
}

#[test]
fn test_spend_public_key_roundtrip() {
    let spend = SpendKeyPair::from_seed(&[42u8; 32]);
    let proto = messages::SpendPublicKey::from_verifying_key(&spend.verifying_key());
    let restored = proto.to_verifying_key().unwrap();
    assert_eq!(spend.verifying_key(), restored);
}

#[test]
fn test_read_public_key_roundtrip() {
    let spend = SpendKeyPair::from_seed(&[42u8; 32]);
    let root = spend.derive_root_read_key();
    let finance = root.derive_child_segment("finance").unwrap();

    let proto =
        messages::ReadPublicKey::from_parts(finance.public_key(), finance.scope(), finance.parent_key_id());
    let (key, scope, parent) = proto.to_parts().unwrap();
    assert_eq!(&key, finance.public_key());
    assert_eq!(scope, *finance.scope());
    assert!(parent.is_some());
}

#[test]
fn proto_test_exported_read_key_roundtrip() {
    let spend = SpendKeyPair::from_seed(&[42u8; 32]);
    let root = spend.derive_root_read_key();
    let finance = root.derive_child_segment("finance").unwrap();
    let exported = finance.export();

    let proto = messages::ExportedReadKey::from_native(&exported);
    let restored: ExportedReadKey = proto.to_native().unwrap();

    assert_eq!(restored.secret_bytes, exported.secret_bytes);
    assert_eq!(restored.public_bytes, exported.public_bytes);
    assert_eq!(restored.scope, exported.scope);
}

#[test]
fn test_access_policy_proto_roundtrip() {
    let policy = messages::AccessPolicy {
        rules: vec![messages::AccessRule {
            scope: "/finance".into(),
            recipient_key_ids: vec![vec![1, 2, 3, 4, 5, 6, 7, 8]],
            expires_at: 0,
        }],
    };

    let bytes = policy.to_proto_bytes();
    let restored = messages::AccessPolicy::from_proto_bytes(&bytes).unwrap();
    assert_eq!(restored.rules.len(), 1);
    assert_eq!(restored.rules[0].scope, "/finance");
}

#[test]
fn test_revocation_list_proto_roundtrip() {
    let list = messages::RevocationList {
        entries: vec![messages::RevocationEntry {
            key_id: vec![1, 2, 3, 4, 5, 6, 7, 8],
            revoked_at: 1700000000,
            reason: "compromised".into(),
        }],
    };

    let bytes = list.to_proto_bytes();
    let restored = messages::RevocationList::from_proto_bytes(&bytes).unwrap();
    assert_eq!(restored.entries.len(), 1);
    assert_eq!(restored.entries[0].reason, "compromised");
}

// --- wire format ---

#[test]
fn varint_bytes_are_leb128() {
    let mut buf = Vec::new();
    push_varint(&mut buf, 1);
    push_varint(&mut buf, 300);
    push_varint(&mut buf, u64::MAX);
    assert_eq!(buf[..3], [0x01, 0xac, 0x02]);
    assert_eq!(buf.len(), 3 + 10);
    assert_eq!(buf[12], 0x01);
    assert_eq!(read_varint_exec(&buf, 1), Some((300, 3)));
    assert_eq!(read_varint_exec(&buf, 3), Some((u64::MAX, 13)));
}

#[test]
fn varint_reading_refuses_overlong_and_truncated_input() {
    assert_eq!(read_varint_exec(&[0x80, 0x80], 0), None);
    assert_eq!(read_varint_exec(&[0xff; 11], 0), None);
    // ten bytes whose last carries more than the 64th bit
    let mut v = vec![0xffu8; 9];
    v.push(0x02);
    assert_eq!(read_varint_exec(&v, 0), None);
    // a non-canonical encoding of zero is still zero
    assert_eq!(read_varint_exec(&[0x80, 0x00], 0), Some((0, 2)));
}

#[test]
fn envelope_message_bytes_start_with_version_and_algorithm() {
    let bytes = make_test_envelope().to_proto_bytes();
    // field 1 (varint) = 2, field 2 (varint) = 1, field 3 (string) = "/test"
    assert_eq!(bytes[..9], [0x08, 0x02, 0x10, 0x01, 0x1a, 0x05, b'/', b't', b'e']);
}

#[test]
fn default_fields_are_left_out() {
    let empty = messages::EncryptedEnvelope::default();
    assert!(empty.encode_to_vec().is_empty());
    let decoded = messages::EncryptedEnvelope::decode(&[]).unwrap();
    assert_eq!(decoded.version, 0);
    assert!(decoded.scope.is_empty());
}

#[test]
fn unknown_fields_are_skipped() {
    let mut bytes = make_test_envelope().to_proto_bytes();
    // field 20, varint 7; field 21, fixed32; field 22, fixed64
    bytes.extend_from_slice(&[0xa0, 0x01, 0x07, 0xad, 0x01, 1, 2, 3, 4, 0xb1, 0x01, 1, 2, 3, 4, 5, 6, 7, 8]);
    let restored = EncryptedEnvelope::from_proto_bytes(&bytes).unwrap();
    assert_eq!(restored.version, 2);
}

#[test]
fn wrong_wire_type_and_groups_are_refused() {
    // field 1 as length-delimited
    assert!(messages::EncryptedEnvelope::decode(&[0x0a, 0x00]).is_none());
    // a group of an unknown field
    assert!(messages::EncryptedEnvelope::decode(&[0xa3, 0x01]).is_none());
    // field number zero
    assert!(messages::EncryptedEnvelope::decode(&[0x00, 0x00]).is_none());
}

#[test]
fn conversion_faults_are_reported_by_kind() {
    let mut m = messages::EncryptedEnvelope::from_native(&make_test_envelope());
    m.scope = "no-slash".to_string();
    let err = EncryptedEnvelope::from_proto_bytes(&m.encode_to_vec()).err().unwrap();
    assert!(err.message().starts_with("invalid scope path"));

    let mut m = messages::EncryptedEnvelope::from_native(&make_test_envelope());
    m.algorithm = 0;
    let err = EncryptedEnvelope::from_proto_bytes(&m.encode_to_vec()).err().unwrap();
    assert_eq!(err.message(), "serialization error: unspecified algorithm");

    let mut m = messages::EncryptedEnvelope::from_native(&make_test_envelope());
    m.algorithm = 9;
    assert!(EncryptedEnvelope::from_proto_bytes(&m.encode_to_vec()).is_err());

    let mut m = messages::EncryptedEnvelope::from_native(&make_test_envelope());
    m.access_entries[0].read_key_id = vec![1, 2, 3];
    let err = EncryptedEnvelope::from_proto_bytes(&m.encode_to_vec()).err().unwrap();
    assert!(err.message().starts_with("serialization error: "));

    let mut m = messages::EncryptedEnvelope::from_native(&make_test_envelope());
    m.access_mode = 5;
    assert!(EncryptedEnvelope::from_proto_bytes(&m.encode_to_vec()).is_err());

    let mut m = messages::EncryptedEnvelope::from_native(&make_test_envelope());
    m.signature = vec![0; 63];
    assert!(EncryptedEnvelope::from_proto_bytes(&m.encode_to_vec()).is_err());
}

#[test]
fn negative_enum_numbers_are_carried() {
    let mut m = messages::EncryptedEnvelope::default();
    m.algorithm = -1;
    let bytes = m.encode_to_vec();
    assert_eq!(bytes.len(), 1 + 10);
    assert_eq!(messages::EncryptedEnvelope::decode(&bytes).unwrap().algorithm, -1);
}

#[test]
fn spend_public_key_rejects_bad_lengths() {
    let proto = messages::SpendPublicKey { key_bytes: vec![1; 31], key_id: vec![] };
    assert!(proto.to_verifying_key().err().unwrap().message().starts_with("serialization error"));
}
