use rok::commands::{
    decrypt_envelope, decrypt_sections, decode_envelope, decrypted_name, delete_in_keyring, encode_envelope,
    encrypt_data, encrypt_sections, grant_key, inspect_data, list_keyring, load_read_key, parse_section_flags,
    parse_spend_seed, revoke_in_keyring, select_export_key, verify_signature, AlgorithmChoice, CommandError,
    Format, Inspected, Section, SectionOutcome,
};
use rok::encoding::{encode_exported_read_key, encode_read_public};
use rok::keys::scope::Scope;
use rok::keys::spend::SpendKeyPair;
use rok::sign::sign;

const SEED_HEX: &str = "2a2a2a2a2a2a2a2a2a2a2a2a2a2a2a2a2a2a2a2a2a2a2a2a2a2a2a2a2a2a2a2a";

#[test]
fn spend_seed_parses_from_hex() {
    let spend = parse_spend_seed(SEED_HEX).unwrap();
    assert_eq!(spend.seed(), [42u8; 32]);
    assert_eq!(spend.verifying_key(), SpendKeyPair::from_seed(&[42u8; 32]).verifying_key());
}

#[test]
fn spend_seed_of_wrong_length_is_a_usage_error() {
    assert!(matches!(parse_spend_seed("2a2a"), Err(CommandError::Usage(_))));
    assert!(matches!(parse_spend_seed("zz"), Err(CommandError::Usage(_))));
    assert!(matches!(parse_spend_seed("abc"), Err(CommandError::Usage(_))));
}

#[test]
fn decrypted_name_strips_rok_suffix() {
    assert_eq!(decrypted_name("report.pdf.rok"), "report.pdf");
    assert_eq!(decrypted_name("report.pdf"), "report.pdf.dec");
    assert_eq!(decrypted_name(".rok"), "");
    assert_eq!(decrypted_name("rok"), "rok.dec");
}

#[test]
fn section_flags_split_at_first_two_colons() {
    let flags = vec!["a:b:c:d".to_string(), "summary:/finance:sum.txt".to_string()];
    let defs = parse_section_flags(&flags).unwrap();
    assert_eq!(defs.len(), 2);
    assert_eq!(defs[0].name, "a");
    assert_eq!(defs[0].scope, "b");
    assert_eq!(defs[0].file, "c:d");
    assert_eq!(defs[1].name, "summary");
    assert_eq!(defs[1].scope, "/finance");
    assert_eq!(defs[1].file, "sum.txt");
}

#[test]
fn section_flag_without_two_colons_is_refused() {
    let flags = vec!["name:scope".to_string()];
    match parse_section_flags(&flags) {
        Err(CommandError::Usage(m)) => assert!(m.contains("name:scope:file")),
        _ => panic!("expected a usage error"),
    }
}

#[test]
fn classical_scope_based_roundtrip_through_both_formats() {
    let spend = SpendKeyPair::from_seed(&[42u8; 32]);
    let scope = Scope::new("/finance").unwrap();
    let env = encrypt_data(&spend, scope, AlgorithmChoice::Classical, true, &vec![], b"hello").unwrap();
    let key = grant_key(&spend, &Scope::new("/finance").unwrap()).unwrap();
    for format in [Format::Binary, Format::Proto] {
        let bytes = encode_envelope(&env, format);
        let back = decode_envelope(&bytes, format).unwrap();
        let pt = decrypt_envelope(&back, &key, &spend.verifying_key()).unwrap();
        assert_eq!(pt, b"hello");
    }
}

#[test]
fn hybrid_scope_based_roundtrip() {
    let spend = SpendKeyPair::from_seed(&[7u8; 32]);
    let env = encrypt_data(&spend, Scope::new("/legal").unwrap(), AlgorithmChoice::Hybrid, true, &vec![], b"pq")
        .unwrap();
    let key = grant_key(&spend, &Scope::new("/legal").unwrap()).unwrap();
    assert_eq!(decrypt_envelope(&env, &key, &spend.verifying_key()).unwrap(), b"pq");
}

#[test]
fn encrypt_argument_errors() {
    let spend = SpendKeyPair::from_seed(&[42u8; 32]);
    let s = || Scope::new("/a").unwrap();
    assert!(matches!(
        encrypt_data(&spend, s(), AlgorithmChoice::Hybrid, false, &vec![], b"x"),
        Err(CommandError::Usage(_))
    ));
    let recipients = vec!["whatever".to_string()];
    assert!(matches!(
        encrypt_data(&spend, s(), AlgorithmChoice::Hybrid, true, &recipients, b"x"),
        Err(CommandError::Usage(_))
    ));
    assert!(matches!(
        encrypt_data(&spend, s(), AlgorithmChoice::Classical, false, &vec![], b"x"),
        Err(CommandError::Usage(_))
    ));
    assert!(matches!(
        encrypt_data(&spend, s(), AlgorithmChoice::Classical, false, &recipients, b"x"),
        Err(CommandError::Rok(_))
    ));
}

#[test]
fn encrypt_to_a_recipient() {
    let spend = SpendKeyPair::from_seed(&[42u8; 32]);
    let key = grant_key(&spend, &Scope::new("/team").unwrap()).unwrap();
    let recipients = vec![encode_read_public(key.public_key(), key.scope())];
    let env = encrypt_data(&spend, Scope::new("/team").unwrap(), AlgorithmChoice::Classical, false, &recipients, b"r")
        .unwrap();
    assert_eq!(env.access_entries.len(), 1);
    assert_eq!(decrypt_envelope(&env, &key, &spend.verifying_key()).unwrap(), b"r");
}

#[test]
fn exported_key_loads_back() {
    let spend = SpendKeyPair::from_seed(&[42u8; 32]);
    let key = grant_key(&spend, &Scope::new("/finance/q1").unwrap()).unwrap();
    let text = encode_exported_read_key(&key.export());
    let loaded = load_read_key(&text).unwrap();
    assert_eq!(loaded.key_id(), key.key_id());
    assert!(load_read_key("not a key").is_err());
}

#[test]
fn grant_refuses_the_root_scope() {
    let spend = SpendKeyPair::from_seed(&[42u8; 32]);
    assert!(grant_key(&spend, &Scope::new("/").unwrap()).is_err());
}

#[test]
fn sections_skip_what_the_key_cannot_read() {
    let spend = SpendKeyPair::from_seed(&[42u8; 32]);
    let defs = parse_section_flags(&vec!["pub:/public:a".to_string(), "sec:/secret:b".to_string()]).unwrap();
    let plaintexts = vec![b"open".to_vec(), b"closed".to_vec()];
    let sectioned = encrypt_sections(&spend, &defs, &plaintexts, AlgorithmChoice::Classical, true).unwrap();
    assert_eq!(sectioned.sections.len(), 2);
    let key = grant_key(&spend, &Scope::new("/public").unwrap()).unwrap();
    let out = decrypt_sections(&sectioned, &key, &spend.verifying_key(), &vec![]).unwrap();
    assert_eq!(out.len(), 2);
    assert_eq!(out[0].0, "pub");
    assert!(matches!(&out[0].1, SectionOutcome::Decrypted(p) if p == b"open"));
    assert_eq!(out[1].0, "sec");
    assert!(matches!(out[1].1, SectionOutcome::NoAccess));
    let only = decrypt_sections(&sectioned, &key, &spend.verifying_key(), &vec!["sec".to_string()]).unwrap();
    assert_eq!(only.len(), 1);
    assert_eq!(only[0].0, "sec");
}

#[test]
fn sections_need_at_least_one() {
    let spend = SpendKeyPair::from_seed(&[42u8; 32]);
    assert!(matches!(
        encrypt_sections(&spend, &vec![], &vec![], AlgorithmChoice::Classical, true),
        Err(CommandError::Usage(_))
    ));
}

#[test]
fn inspect_tells_single_from_sectioned() {
    let spend = SpendKeyPair::from_seed(&[42u8; 32]);
    let env = encrypt_data(&spend, Scope::new("/x").unwrap(), AlgorithmChoice::Classical, true, &vec![], b"1")
        .unwrap();
    assert!(matches!(inspect_data(&env.to_bytes(), Format::Binary).unwrap(), Inspected::Single(_)));
    assert!(matches!(inspect_data(&env.to_proto_bytes(), Format::Proto).unwrap(), Inspected::Single(_)));
    let defs = parse_section_flags(&vec!["s:/x:f".to_string()]).unwrap();
    let sectioned = encrypt_sections(&spend, &defs, &vec![b"2".to_vec()], AlgorithmChoice::Classical, true).unwrap();
    assert!(matches!(inspect_data(&sectioned.to_bytes(), Format::Binary).unwrap(), Inspected::Sectioned(_)));
    assert!(matches!(
        inspect_data(&sectioned.to_proto_bytes(), Format::Proto).unwrap(),
        Inspected::Sectioned(_)
    ));
    assert!(inspect_data(b"junk", Format::Binary).is_err());
}

#[test]
fn signature_must_be_sixty_four_bytes() {
    let spend = SpendKeyPair::from_seed(&[42u8; 32]);
    let sig = sign(&spend, b"data");
    assert!(verify_signature(&spend.verifying_key(), b"data", &sig).is_ok());
    match verify_signature(&spend.verifying_key(), b"data", &sig[..10]) {
        Err(CommandError::Usage(m)) => assert_eq!(m, "signature must be exactly 64 bytes, got 10"),
        _ => panic!("expected a usage error"),
    }
    assert!(matches!(verify_signature(&spend.verifying_key(), b"other", &sig), Err(CommandError::Rok(_))));
}

#[test]
fn keyring_list_and_export() {
    let spend = SpendKeyPair::from_seed(&[42u8; 32]);
    let listed = list_keyring(&spend, &vec!["/finance".to_string()]).unwrap();
    assert_eq!(listed.len(), 2);
    let root = spend.derive_root_read_key();
    let root_id = root.key_id().to_base58();
    assert_eq!(select_export_key(&spend, &root_id, None).unwrap().key_id(), root.key_id());
    let child = grant_key(&spend, &Scope::new("/finance").unwrap()).unwrap();
    let child_id = child.key_id().to_base58();
    assert!(matches!(select_export_key(&spend, &child_id, None), Err(CommandError::Usage(_))));
    assert_eq!(select_export_key(&spend, &child_id, Some("/finance")).unwrap().key_id(), child.key_id());
    assert!(matches!(select_export_key(&spend, &child_id, Some("/legal")), Err(CommandError::Usage(_))));
}

#[test]
fn revoke_and_delete_in_keyring() {
    let spend = SpendKeyPair::from_seed(&[42u8; 32]);
    let child = grant_key(&spend, &Scope::new("/finance").unwrap()).unwrap();
    let child_id = child.key_id().to_base58();
    assert_eq!(revoke_in_keyring(&child_id, SEED_HEX, Some("/finance")).unwrap(), child.key_id());
    assert!(matches!(revoke_in_keyring(&child_id, SEED_HEX, None), Err(CommandError::Usage(_))));
    assert_eq!(delete_in_keyring(&child_id, Some(SEED_HEX), Some("/finance")).unwrap(), child.key_id());
    assert!(matches!(delete_in_keyring(&child_id, None, None), Err(CommandError::Usage(_))));
}

#[test]
fn section_renders_as_text() {
    let s = Section::new("Envelope").field("Version", "2").field("Scope", "/finance");
    assert_eq!(s.render_text(), "=== Envelope ===\n  Version: 2\n  Scope: /finance\n");
}

#[test]
fn sections_with_one_name_twice_are_refused() {
    let spend = SpendKeyPair::from_seed(&[42u8; 32]);
    let defs = parse_section_flags(&vec!["s:/a:f".to_string(), "s:/b:g".to_string()]).unwrap();
    let r = encrypt_sections(&spend, &defs, &vec![b"1".to_vec(), b"2".to_vec()], AlgorithmChoice::Classical, true);
    assert!(matches!(r, Err(CommandError::Rok(_))));
}

#[test]
fn classical_sections_need_scope_based() {
    let spend = SpendKeyPair::from_seed(&[42u8; 32]);
    let defs = parse_section_flags(&vec!["s:/a:f".to_string()]).unwrap();
    let r = encrypt_sections(&spend, &defs, &vec![b"1".to_vec()], AlgorithmChoice::Classical, false);
    assert!(matches!(r, Err(CommandError::Rok(_))));
    let ok = encrypt_sections(&spend, &defs, &vec![b"1".to_vec()], AlgorithmChoice::Hybrid, false).unwrap();
    assert_eq!(ok.sections[0].name, "s");
}

#[test]
fn keyring_listing_refuses_the_root_scope() {
    let spend = SpendKeyPair::from_seed(&[42u8; 32]);
    assert!(list_keyring(&spend, &vec!["/".to_string()]).is_err());
    assert!(list_keyring(&spend, &vec!["finance".to_string()]).is_err());
    assert_eq!(list_keyring(&spend, &vec![]).unwrap().len(), 1);
}

#[test]
fn revoke_needs_a_valid_seed_and_key_id() {
    let spend = SpendKeyPair::from_seed(&[42u8; 32]);
    let root_id = spend.derive_root_read_key().key_id().to_base58();
    assert_eq!(revoke_in_keyring(&root_id, SEED_HEX, None).unwrap().to_base58(), root_id);
    assert!(matches!(revoke_in_keyring("0OIl", SEED_HEX, None), Err(CommandError::Rok(_))));
    assert!(matches!(revoke_in_keyring(&root_id, "2a", None), Err(CommandError::Usage(_))));
    assert!(matches!(revoke_in_keyring(&root_id, SEED_HEX, Some("/")), Err(CommandError::Rok(_))));
}

#[test]
fn granted_key_is_the_scope_key_of_the_spend_key() {
    let spend = SpendKeyPair::from_seed(&[42u8; 32]);
    let key = grant_key(&spend, &Scope::new("/finance/q1").unwrap()).unwrap();
    let root = spend.derive_root_read_key();
    let expected = root.derive_child(&Scope::new("/finance/q1").unwrap()).unwrap();
    assert_eq!(key.secret(), expected.secret());
    assert_eq!(key.public_key(), expected.public_key());
    assert_eq!(key.parent_key_id(), Some(&root.key_id()));
    let other = grant_key(&SpendKeyPair::from_seed(&[7u8; 32]), &Scope::new("/finance/q1").unwrap()).unwrap();
    assert_ne!(key.secret(), other.secret());
}
