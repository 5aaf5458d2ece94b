use rok::keys::read::ReadKeyPair;
use rok::keys::scope::Scope;
use rok::keys::spend::SpendKeyPair;
use rok::sdk::memory::{open_memory, seal_memory, MemoryStore, Proposal};
use rok::sdk::storage::{MemoryStorage, StorageBackend};

fn setup() -> (MemoryStore<MemoryStorage>, ReadKeyPair, ReadKeyPair, ReadKeyPair) {
    let spend = SpendKeyPair::from_seed(&[42u8; 32]);
    let root = spend.derive_root_read_key();
    let finance = root.derive_child_segment("finance").unwrap();
    let engineering = root.derive_child_segment("engineering").unwrap();
    let store = MemoryStore::new(SpendKeyPair::from_seed(&[42u8; 32]), MemoryStorage::new());
    (store, root, finance, engineering)
}

#[test]
fn test_write_and_read() {
    let (mut store, _root, finance, _) = setup();
    let scope = Scope::new("/finance").unwrap();
    store.write(&scope, "report", b"Q1 numbers").unwrap();
    let data = store.read(&finance, &scope, "report").unwrap();
    assert_eq!(data, b"Q1 numbers");
}

#[test]
fn test_ancestor_key_reads_descendant() {
    let (mut store, root, _, _) = setup();
    let scope = Scope::new("/finance/q1").unwrap();
    store.write(&scope, "summary", b"deep data").unwrap();
    let data = store.read(&root, &scope, "summary").unwrap();
    assert_eq!(data, b"deep data");
}

#[test]
fn test_wrong_scope_cannot_read() {
    let (mut store, _, _, engineering) = setup();
    let scope = Scope::new("/finance").unwrap();
    store.write(&scope, "secret", b"finance only").unwrap();
    assert!(store.read(&engineering, &scope, "secret").is_err());
}

#[test]
fn test_list_memories() {
    let (mut store, root, _, _) = setup();
    store.write(&Scope::new("/finance").unwrap(), "report", b"r1").unwrap();
    store.write(&Scope::new("/finance/q1").unwrap(), "q1", b"q1data").unwrap();
    store.write(&Scope::new("/engineering").unwrap(), "roadmap", b"eng").unwrap();
    let all = store.list(&root).unwrap();
    assert_eq!(all.len(), 3);
}

#[test]
fn test_list_scoped() {
    let (mut store, _, finance, _) = setup();
    store.write(&Scope::new("/finance").unwrap(), "report", b"r1").unwrap();
    store.write(&Scope::new("/finance/q1").unwrap(), "q1", b"q1data").unwrap();
    store.write(&Scope::new("/engineering").unwrap(), "roadmap", b"eng").unwrap();
    let finance_memories = store.list(&finance).unwrap();
    assert_eq!(finance_memories.len(), 2);
}

#[test]
fn test_accept_proposal() {
    let (mut store, _, finance, _) = setup();
    let scope = Scope::new("/finance").unwrap();
    let proposal = Proposal {
        scope: scope.clone(),
        key: "agent-finding".to_string(),
        plaintext: b"interesting pattern found".to_vec(),
        proposed_by: "perplexity".to_string(),
    };
    store.accept_proposal(&proposal).unwrap();
    let data = store.read(&finance, &scope, "agent-finding").unwrap();
    assert_eq!(data, b"interesting pattern found");
}

#[test]
fn test_grant_access() {
    let (store, _, _, _) = setup();
    let scope = Scope::new("/finance").unwrap();
    let exported = store.grant_access(&scope).unwrap();
    let read_key = ReadKeyPair::import(&exported).unwrap();
    assert_eq!(read_key.scope().as_str(), "/finance");
    assert!(read_key.can_access(&scope));
    assert!(!read_key.can_access(&Scope::new("/engineering").unwrap()));
}

#[test]
fn test_grant_root_access() {
    let (store, _, _, _) = setup();
    let exported = store.grant_access(&Scope::root()).unwrap();
    let read_key = ReadKeyPair::import(&exported).unwrap();
    assert_eq!(read_key.scope().as_str(), "/");
}

#[test]
fn sealed_memory_opens_for_the_hierarchy_only() {
    let spend = SpendKeyPair::from_seed(&[3u8; 32]);
    let root = spend.derive_root_read_key();
    let a = root.derive_child_segment("a").unwrap();
    let b = root.derive_child_segment("b").unwrap();
    let bytes = seal_memory(&spend, &Scope::new("/a/x").unwrap(), b"payload").unwrap();
    let vk = spend.verifying_key();
    assert_eq!(open_memory(&bytes, &root, &vk).unwrap(), b"payload");
    assert_eq!(open_memory(&bytes, &a, &vk).unwrap(), b"payload");
    assert!(open_memory(&bytes, &b, &vk).is_err());
    assert!(open_memory(&bytes[..10], &a, &vk).is_err());
}

#[test]
fn written_memory_reaches_the_backend_sealed() {
    let (mut store, _, finance, _) = setup();
    let scope = Scope::new("/finance").unwrap();
    store.write(&scope, "report", b"Q1 numbers").unwrap();
    let entry = store.backend().get_by_key("/finance", "report").unwrap();
    assert_eq!(entry.scope, "/finance");
    assert_eq!(entry.key, "report");
    assert_ne!(entry.data, b"Q1 numbers".to_vec());
    assert!(!entry.data.windows(10).any(|w| w == b"Q1 numbers"));
    let vk = SpendKeyPair::from_seed(&[42u8; 32]).verifying_key();
    assert_eq!(open_memory(&entry.data, &finance, &vk).unwrap(), b"Q1 numbers");
}

#[test]
fn accepted_proposal_reaches_the_backend_sealed() {
    let (mut store, root, _, _) = setup();
    let proposal = Proposal {
        scope: Scope::new("/finance/q1").unwrap(),
        key: "note".to_string(),
        plaintext: b"plain words".to_vec(),
        proposed_by: "agent".to_string(),
    };
    store.accept_proposal(&proposal).unwrap();
    let entry = store.backend().get_by_key("/finance/q1", "note").unwrap();
    assert!(!entry.data.windows(11).any(|w| w == b"plain words"));
    let vk = SpendKeyPair::from_seed(&[42u8; 32]).verifying_key();
    assert_eq!(open_memory(&entry.data, &root, &vk).unwrap(), b"plain words");
}

#[test]
fn read_gives_back_the_latest_write() {
    let (mut store, root, _, _) = setup();
    let scope = Scope::new("/notes").unwrap();
    store.write(&scope, "todo", b"first").unwrap();
    store.write(&scope, "todo", b"second").unwrap();
    assert_eq!(store.read(&root, &scope, "todo").unwrap(), b"second");
    assert_eq!(store.list(&root).unwrap().len(), 1);
}
