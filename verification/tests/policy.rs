use rok::keys::key_id::KeyId;
use rok::keys::scope::Scope;
use rok::sdk::policy::AccessPolicy;

#[test]
fn test_grant_and_lookup() {
    let mut policy = AccessPolicy::new();
    let scope = Scope::new("/finance").unwrap();
    let kid = KeyId::from_bytes([1, 2, 3, 4, 5, 6, 7, 8]);
    policy.grant(&scope, &kid, None);
    let keys = policy.key_ids_for_scope(&scope);
    assert_eq!(keys.len(), 1);
    assert_eq!(keys[0], kid.to_base58());
}

#[test]
fn test_ancestor_scope_includes() {
    let mut policy = AccessPolicy::new();
    let kid = KeyId::from_bytes([1, 2, 3, 4, 5, 6, 7, 8]);
    policy.grant(&Scope::root(), &kid, None);
    let finance = Scope::new("/finance").unwrap();
    assert_eq!(policy.key_ids_for_scope(&finance).len(), 1);
}

#[test]
fn test_revoke() {
    let mut policy = AccessPolicy::new();
    let scope = Scope::new("/finance").unwrap();
    let kid = KeyId::from_bytes([1, 2, 3, 4, 5, 6, 7, 8]);
    policy.grant(&scope, &kid, None);
    assert_eq!(policy.key_ids_for_scope(&scope).len(), 1);
    policy.revoke(&scope, &kid);
    assert_eq!(policy.key_ids_for_scope(&scope).len(), 0);
}

#[test]
fn test_no_duplicate_grants() {
    let mut policy = AccessPolicy::new();
    let scope = Scope::new("/finance").unwrap();
    let kid = KeyId::from_bytes([1, 2, 3, 4, 5, 6, 7, 8]);
    policy.grant(&scope, &kid, None);
    policy.grant(&scope, &kid, None);
    assert_eq!(policy.key_ids_for_scope(&scope).len(), 1);
}

#[test]
fn policy_lookup_is_sorted_deduplicated_and_expires() {
    let mut policy = AccessPolicy::default();
    let a = KeyId::from_bytes([9; 8]);
    let b = KeyId::from_bytes([1; 8]);
    let finance = Scope::new("/finance").unwrap();
    policy.grant(&finance, &a, None);
    policy.grant(&Scope::root(), &b, Some(1000));
    policy.grant(&Scope::root(), &a, None);
    let mut expected = vec![a.to_base58(), b.to_base58()];
    expected.sort();
    assert_eq!(policy.key_ids_for_scope_at(&finance, 1000), expected);
    assert_eq!(policy.key_ids_for_scope_at(&finance, 1001), vec![a.to_base58()]);
    assert_eq!(policy.key_ids_for_scope_at(&Scope::new("/legal").unwrap(), 5), expected);
    assert_eq!(policy.rules().len(), 2);
}

#[test]
fn policy_test_proto_roundtrip() {
    let mut policy = AccessPolicy::new();
    let scope = Scope::new("/finance").unwrap();
    let kid = KeyId::from_bytes([1, 2, 3, 4, 5, 6, 7, 8]);
    policy.grant(&scope, &kid, None);

    let bytes = policy.to_proto_bytes();
    let restored = AccessPolicy::from_proto_bytes(&bytes).unwrap();

    assert_eq!(restored.rules().len(), 1);
    assert_eq!(restored.key_ids_for_scope(&scope), policy.key_ids_for_scope(&scope));
}

#[test]
fn proto_drops_key_ids_that_are_not_eight_bytes() {
    let m = rok::proto::rok::AccessPolicy {
        rules: vec![rok::proto::rok::AccessRule {
            scope: "/a".to_string(),
            recipient_key_ids: vec![vec![1, 2, 3], vec![1, 2, 3, 4, 5, 6, 7, 8], vec![]],
            expires_at: 5,
        }],
    };
    let restored = AccessPolicy::from_proto_bytes(&m.to_proto_bytes()).unwrap();
    let rule = &restored.rules()[0];
    assert_eq!(rule.recipient_key_ids, vec![KeyId::from_bytes([1, 2, 3, 4, 5, 6, 7, 8]).to_base58()]);
    assert_eq!(rule.expires_at, Some(5));
    assert!(AccessPolicy::from_proto_bytes(&[0x0a, 0x05]).is_err());
}

#[test]
fn zero_expiry_means_no_expiry() {
    let mut policy = AccessPolicy::new();
    let scope = Scope::new("/finance").unwrap();
    let kid = KeyId::from_bytes([1, 2, 3, 4, 5, 6, 7, 8]);
    policy.grant(&scope, &kid, Some(0));
    assert_eq!(policy.key_ids_for_scope_at(&scope, 1_000_000), vec![kid.to_base58()]);
    assert_eq!(policy.key_ids_for_scope(&scope), vec![kid.to_base58()]);
}
