use std::cell::RefCell;
use std::rc::Rc;

use rok::encoding;
use rok::error::Result as RokResult;
use rok::keys::scope::Scope;
use rok::keys::spend::SpendKeyPair;
use rok::mcp::resources::memory_uri;
use rok::mcp::session::{Role, Session};
use rok::sdk::memory::MemoryEntry;
use rok::sdk::storage::{MemoryStorage, StorageBackend, StorageEntry, StorageId};

#[derive(Clone)]
struct SharedStorage(Rc<RefCell<MemoryStorage>>);

impl SharedStorage {
    fn new() -> Self {
        Self(Rc::new(RefCell::new(MemoryStorage::new())))
    }
}

impl StorageBackend for SharedStorage {
    fn put(&mut self, scope: &str, key: &str, data: &[u8]) -> RokResult<StorageId> {
        self.0.borrow_mut().put(scope, key, data)
    }
    fn get(&self, id: &StorageId) -> RokResult<StorageEntry> {
        self.0.borrow().get(id)
    }
    fn get_by_key(&self, scope: &str, key: &str) -> RokResult<StorageEntry> {
        self.0.borrow().get_by_key(scope, key)
    }
    fn list(&self, scope_prefix: &str) -> RokResult<Vec<StorageEntry>> {
        self.0.borrow().list(scope_prefix)
    }
    fn delete(&mut self, id: &StorageId) -> RokResult<()> {
        self.0.borrow_mut().delete(id)
    }
}

const TEST_SEED: [u8; 32] = [42u8; 32];

fn owner_session() -> Session {
    Session::new_owner(TEST_SEED, Scope::root(), "http://localhost:8001".into(), "test-key".into())
}

fn agent_session() -> Session {
    let spend = SpendKeyPair::from_seed(&TEST_SEED);
    let root = spend.derive_root_read_key();
    let finance = root.derive_child_segment("finance").unwrap();
    let exported = finance.export();
    let read_key_encoded = encoding::encode_exported_read_key(&exported);
    let spend_public_encoded = encoding::encode_spend_public(&spend.verifying_key());
    Session::new_agent(
        read_key_encoded,
        spend_public_encoded,
        Scope::new("/finance").unwrap(),
        "http://localhost:8001".into(),
        "test-key".into(),
    )
}

#[test]
fn owner_role_and_key_derivation() {
    let session = owner_session();
    assert_eq!(session.role, Role::Owner);
    assert_eq!(session.scope, Scope::root());
    let spend = session.spend_key().unwrap();
    assert_eq!(spend.seed(), TEST_SEED);
    let read = session.read_key().unwrap();
    assert_eq!(read.scope(), &Scope::root());
    let vk = session.spend_verifying_key().unwrap();
    assert_eq!(vk, spend.verifying_key());
}

#[test]
fn owner_scoped_session_derives_child_key() {
    let session = Session::new_owner(
        TEST_SEED,
        Scope::new("/engineering").unwrap(),
        "http://localhost:8001".into(),
        "test-key".into(),
    );
    let read = session.read_key().unwrap();
    assert_eq!(read.scope().as_str(), "/engineering");
    assert!(read.can_access(&Scope::new("/engineering").unwrap()));
    assert!(read.can_access(&Scope::new("/engineering/frontend").unwrap()));
    assert!(!read.can_access(&Scope::new("/finance").unwrap()));
}

#[test]
fn agent_role_and_key_import() {
    let session = agent_session();
    assert_eq!(session.role, Role::Agent);
    assert_eq!(session.scope, Scope::new("/finance").unwrap());
    assert!(session.spend_key().is_err());
    let read = session.read_key().unwrap();
    assert_eq!(read.scope().as_str(), "/finance");
    assert!(read.can_access(&Scope::new("/finance").unwrap()));
    assert!(!read.can_access(&Scope::new("/engineering").unwrap()));
    let vk = session.spend_verifying_key().unwrap();
    let spend = SpendKeyPair::from_seed(&TEST_SEED);
    assert_eq!(vk, spend.verifying_key());
}

#[test]
fn agent_cannot_build_store() {
    let session = agent_session();
    assert!(session.memory_store_with(SharedStorage::new()).is_err());
}

#[test]
fn owner_write_and_read_round_trip() {
    let session = owner_session();
    let storage = SharedStorage::new();
    let mut store = session.memory_store_with(storage.clone()).unwrap();
    let scope = Scope::new("/notes").unwrap();
    store.write(&scope, "hello", b"world").unwrap();
    let reader = session.memory_reader_with(storage).unwrap();
    let read_key = session.read_key().unwrap();
    let data = reader.read(&read_key, &scope, "hello").unwrap();
    assert_eq!(data, b"world");
}

#[test]
fn owner_write_agent_read() {
    let storage = SharedStorage::new();
    let owner = owner_session();
    let mut store = owner.memory_store_with(storage.clone()).unwrap();
    let scope = Scope::new("/finance").unwrap();
    store.write(&scope, "report", b"Q1 revenue: $1M").unwrap();
    let agent = agent_session();
    let reader = agent.memory_reader_with(storage).unwrap();
    let read_key = agent.read_key().unwrap();
    let data = reader.read(&read_key, &scope, "report").unwrap();
    assert_eq!(data, b"Q1 revenue: $1M");
}

#[test]
fn agent_cannot_read_sibling_scope() {
    let storage = SharedStorage::new();
    let owner = owner_session();
    let mut store = owner.memory_store_with(storage.clone()).unwrap();
    let scope = Scope::new("/engineering").unwrap();
    store.write(&scope, "roadmap", b"secret plans").unwrap();
    let agent = agent_session();
    let reader = agent.memory_reader_with(storage).unwrap();
    let read_key = agent.read_key().unwrap();
    assert!(reader.read(&read_key, &scope, "roadmap").is_err());
}

#[test]
fn owner_list_memories() {
    let storage = SharedStorage::new();
    let owner = owner_session();
    let mut store = owner.memory_store_with(storage.clone()).unwrap();
    store.write(&Scope::new("/a").unwrap(), "x", b"1").unwrap();
    store.write(&Scope::new("/b").unwrap(), "y", b"2").unwrap();
    let reader = owner.memory_reader_with(storage).unwrap();
    let read_key = owner.read_key().unwrap();
    let entries = reader.list(&read_key).unwrap();
    assert_eq!(entries.len(), 2);
}

#[test]
fn owner_grant_produces_valid_agent_key() {
    let storage = SharedStorage::new();
    let owner = owner_session();
    let mut store = owner.memory_store_with(storage.clone()).unwrap();
    let scope = Scope::new("/finance").unwrap();
    store.write(&scope, "secret", b"numbers").unwrap();
    let exported = store.grant_access(&scope).unwrap();
    let encoded = encoding::encode_exported_read_key(&exported);
    let spend_pub = encoding::encode_spend_public(&owner.spend_key().unwrap().verifying_key());
    let agent = Session::new_agent(
        encoded,
        spend_pub,
        scope.clone(),
        "http://localhost:8001".into(),
        "test-key".into(),
    );
    let reader = agent.memory_reader_with(storage).unwrap();
    let read_key = agent.read_key().unwrap();
    let data = reader.read(&read_key, &scope, "secret").unwrap();
    assert_eq!(data, b"numbers");
}

#[test]
fn role_display() {
    assert_eq!(Role::Owner.as_str(), "owner");
    assert_eq!(Role::Agent.as_str(), "agent");
}

#[test]
fn memory_uri_format() {
    let entry = MemoryEntry {
        scope: Scope::new("/finance/q1").unwrap(),
        key: "report".to_string(),
        data: vec![1, 2, 3],
    };
    assert_eq!(memory_uri(&entry), "rok://memory/finance/q1/report");
}
