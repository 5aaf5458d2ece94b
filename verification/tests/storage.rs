use rok::sdk::storage::{MemoryStorage, StorageBackend, StorageId};

#[test]
fn test_put_and_get() {
    let mut storage = MemoryStorage::new();
    let id = storage.put("/finance", "report", b"encrypted-data").unwrap();
    let entry = storage.get(&id).unwrap();
    assert_eq!(entry.scope, "/finance");
    assert_eq!(entry.key, "report");
    assert_eq!(entry.data, b"encrypted-data");
}

#[test]
fn test_get_by_key() {
    let mut storage = MemoryStorage::new();
    storage.put("/finance", "report", b"data1").unwrap();
    let entry = storage.get_by_key("/finance", "report").unwrap();
    assert_eq!(entry.data, b"data1");
}

#[test]
fn test_put_overwrites() {
    let mut storage = MemoryStorage::new();
    storage.put("/finance", "report", b"v1").unwrap();
    storage.put("/finance", "report", b"v2").unwrap();
    let entry = storage.get_by_key("/finance", "report").unwrap();
    assert_eq!(entry.data, b"v2");
}

#[test]
fn test_list_by_scope_prefix() {
    let mut storage = MemoryStorage::new();
    storage.put("/finance", "report", b"d1").unwrap();
    storage.put("/finance/q1", "summary", b"d2").unwrap();
    storage.put("/engineering", "roadmap", b"d3").unwrap();
    assert_eq!(storage.list("/finance").unwrap().len(), 2);
    assert_eq!(storage.list("/engineering").unwrap().len(), 1);
    assert_eq!(storage.list("/").unwrap().len(), 3);
}

#[test]
fn test_delete() {
    let mut storage = MemoryStorage::new();
    let id = storage.put("/finance", "report", b"data").unwrap();
    storage.delete(&id).unwrap();
    assert!(storage.get(&id).is_err());
}

#[test]
fn test_get_nonexistent() {
    let storage = MemoryStorage::new();
    assert!(storage.get(&StorageId("nope".to_string())).is_err());
}

#[test]
fn test_delete_nonexistent() {
    let mut storage = MemoryStorage::new();
    assert!(storage.delete(&StorageId("nope".to_string())).is_err());
}

#[test]
fn storage_ids_and_timestamps() {
    let mut storage = MemoryStorage::new();
    let id = storage.put_at("/a", "k", b"1", 100);
    assert_eq!(id.0, "/a/k");
    storage.put_at("/a", "k", b"2", 200);
    let e = storage.get(&id).unwrap();
    assert_eq!((e.created_at, e.updated_at), (100, 200));
    assert_eq!(e.data, b"2");
    // a prefix that is no path boundary does not match
    storage.put_at("/ab", "k", b"3", 300);
    assert_eq!(storage.list("/a").unwrap().len(), 1);
    let err = storage.get(&StorageId("missing".to_string())).unwrap_err();
    assert_eq!(err.message(), "storage error: entry not found: missing");
}
