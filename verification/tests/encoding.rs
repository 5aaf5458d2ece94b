use sha2::Digest;
use rok::encoding;
use rok::keys::scope::Scope;
use rok::keys::spend::SpendKeyPair;

#[test]
fn test_spend_public_roundtrip() {
    let spend = SpendKeyPair::from_seed(&[42u8; 32]);
    let encoded = encoding::encode_spend_public(&spend.verifying_key());
    let decoded = encoding::decode_spend_public(&encoded).unwrap();
    assert_eq!(spend.verifying_key(), decoded);
}

#[test]
fn test_read_public_roundtrip() {
    let spend = SpendKeyPair::from_seed(&[42u8; 32]);
    let root = spend.derive_root_read_key();
    let scope = Scope::new("/finance").unwrap();
    let finance = root.derive_child_segment("finance").unwrap();
    let encoded = encoding::encode_read_public(finance.public_key(), &scope);
    let (decoded_key, decoded_scope) = encoding::decode_read_public(&encoded).unwrap();
    assert_eq!(&decoded_key, finance.public_key());
    assert_eq!(decoded_scope, scope);
}

#[test]
fn encoding_test_exported_read_key_roundtrip() {
    let spend = SpendKeyPair::from_seed(&[42u8; 32]);
    let root = spend.derive_root_read_key();
    let finance = root.derive_child_segment("finance").unwrap();
    let exported = finance.export();
    let encoded = encoding::encode_exported_read_key(&exported);
    let decoded = encoding::decode_exported_read_key(&encoded).unwrap();
    assert_eq!(decoded.secret_bytes, exported.secret_bytes);
    assert_eq!(decoded.public_bytes, exported.public_bytes);
    assert_eq!(decoded.scope, exported.scope);
    assert_eq!(
        decoded.parent_key_id.map(|k| *k.as_bytes()),
        exported.parent_key_id.map(|k| *k.as_bytes())
    );
}

#[test]
fn test_invalid_checksum_rejected() {
    let spend = SpendKeyPair::from_seed(&[42u8; 32]);
    let encoded = encoding::encode_spend_public(&spend.verifying_key());
    let mut bytes = encoded.into_bytes();
    let last = bytes.len() - 1;
    bytes[last] = if bytes[last] == b'1' { b'2' } else { b'1' };
    let encoded = String::from_utf8(bytes).unwrap();
    assert!(encoding::decode_spend_public(&encoded).is_err());
}

#[test]
fn test_wrong_type_tag_rejected() {
    let spend = SpendKeyPair::from_seed(&[42u8; 32]);
    let encoded = encoding::encode_spend_public(&spend.verifying_key());
    let err = encoding::decode_read_public(&encoded).unwrap_err();
    assert_eq!(err.message(), "invalid type tag: expected 2, got 1");
}

#[test]
fn test_root_read_key_no_parent() {
    let spend = SpendKeyPair::from_seed(&[42u8; 32]);
    let exported = spend.derive_root_read_key().export();
    let encoded = encoding::encode_exported_read_key(&exported);
    let decoded = encoding::decode_exported_read_key(&encoded).unwrap();
    assert!(decoded.parent_key_id.is_none());
}

#[test]
fn decode_errors_by_kind() {
    assert!(encoding::decode_spend_public("0OIl").unwrap_err().message().starts_with("encoding error: "));
    assert!(encoding::decode_spend_public("1111").unwrap_err().message().starts_with("encoding error: "));
}

#[test]
fn exported_key_with_bad_parent_flag_is_refused() {
    let spend = SpendKeyPair::from_seed(&[42u8; 32]);
    let root = spend.derive_root_read_key();
    let text = encoding::encode_exported_read_key(&root.export());
    let raw = bs58::decode(&text).into_vec().unwrap();
    let mut body = raw[..raw.len() - 4].to_vec();
    assert_eq!(body[1 + 64], 0);
    body[1 + 64] = 2;
    let sum = sha2::Sha256::digest(sha2::Sha256::digest(&body));
    body.extend_from_slice(&sum[..4]);
    let bad = bs58::encode(&body).into_string();
    assert!(matches!(
        encoding::decode_exported_read_key(&bad),
        Err(rok::error::RokError::EncodingError(_))
    ));
}
