use std::cell::RefCell;
use std::rc::Rc;

use rok::encoding;
use rok::error::Result as RokResult;
use rok::keys::scope::Scope;
use rok::keys::spend::SpendKeyPair;
use rok::mcp::session::{Role, Session, SessionConfig};
use rok::mcp::tools::{
    auto_load_on_start, build_session_from_config, count_memories, grant_memory, list_memories,
    list_text, login_session, login_text, missing_permissions, parse_memory_uri, permission_list,
    propose_memory, read_memory, read_resource_memory, require_session, setup_session,
    setup_text, status_text, sync_memories, sync_step, sync_text, sync_tool, SyncStep, write_memory, SyncParams, GrantParams, LoginParams,
    ProposeParams, ReadParams, SetupParams, SyncEntry, SyncOutcome, ToolError, WriteParams,
};
use rok::sdk::memory::{preview_lines, MemoryEntry};
use rok::sdk::storage::{MemoryStorage, StorageBackend, StorageEntry, StorageId};

#[derive(Clone)]
struct SharedStorage(Rc<RefCell<MemoryStorage>>);

impl SharedStorage {
    fn new() -> Self {
        Self(Rc::new(RefCell::new(MemoryStorage::new())))
    }
}

impl StorageBackend for SharedStorage {
    fn put(&mut self, scope: &str, key: &str, data: &[u8]) -> RokResult<StorageId> {
        self.0.borrow_mut().put(scope, key, data)
    }
    fn get(&self, id: &StorageId) -> RokResult<StorageEntry> {
        self.0.borrow().get(id)
    }
    fn get_by_key(&self, scope: &str, key: &str) -> RokResult<StorageEntry> {
        self.0.borrow().get_by_key(scope, key)
    }
    fn list(&self, scope_prefix: &str) -> RokResult<Vec<StorageEntry>> {
        self.0.borrow().list(scope_prefix)
    }
    fn delete(&mut self, id: &StorageId) -> RokResult<()> {
        self.0.borrow_mut().delete(id)
    }
}

const SEED_HEX: &str = "2a2a2a2a2a2a2a2a2a2a2a2a2a2a2a2a2a2a2a2a2a2a2a2a2a2a2a2a2a2a2a2a";

fn owner() -> Session {
    Session::new_owner([42u8; 32], Scope::root(), "http://localhost:8001".into(), "k".into())
}

fn agent_at_finance() -> Session {
    let spend = SpendKeyPair::from_seed(&[42u8; 32]);
    let finance = spend.derive_root_read_key().derive_child_segment("finance").unwrap();
    Session::new_agent(
        encoding::encode_exported_read_key(&finance.export()),
        encoding::encode_spend_public(&spend.verifying_key()),
        Scope::new("/finance").unwrap(),
        "http://localhost:8001".into(),
        "k".into(),
    )
}

fn login(seed: Option<&str>, rk: Option<&str>, sp: Option<&str>, scope: &str) -> LoginParams {
    LoginParams {
        api_key: "key".into(),
        fileverse_url: "http://x".into(),
        spend_seed: seed.map(|s| s.to_string()),
        read_key: rk.map(|s| s.to_string()),
        spend_public: sp.map(|s| s.to_string()),
        scope: scope.into(),
    }
}

fn invalid_text(e: ToolError) -> String {
    match e {
        ToolError::InvalidParams(m) => m,
        ToolError::Internal(m) => panic!("internal error: {m}"),
    }
}

#[test]
fn login_picks_the_role_from_the_credentials() {
    let s = login_session(&login(Some(SEED_HEX), None, None, "/finance")).unwrap();
    assert_eq!(s.role, Role::Owner);
    assert_eq!(s.scope.as_str(), "/finance");
    assert_eq!(s.credentials.spend_seed, Some([42u8; 32]));

    let s = login_session(&login(None, Some("rk"), Some("sp"), "/")).unwrap();
    assert_eq!(s.role, Role::Agent);
    assert_eq!(s.credentials.read_key_encoded.as_deref(), Some("rk"));
}

#[test]
fn login_refusals_name_the_problem() {
    let e = login_session(&login(Some("abcd"), None, None, "/")).err().unwrap();
    assert_eq!(invalid_text(e), "spend seed must be 32 bytes (64 hex chars), got 2");
    let e = login_session(&login(Some("zz"), None, None, "/")).err().unwrap();
    assert!(invalid_text(e).starts_with("invalid hex"));
    let e = login_session(&login(None, Some("rk"), None, "/")).err().unwrap();
    assert_eq!(invalid_text(e), "provide either spend_seed (owner) or read_key + spend_public (agent)");
    let e = login_session(&login(Some(SEED_HEX), None, None, "finance")).err().unwrap();
    assert!(invalid_text(e).starts_with("invalid scope: "));
}

#[test]
fn config_builds_root_sessions() {
    let mut cfg = SessionConfig::default();
    assert!(build_session_from_config(&cfg).is_none());
    cfg.api_key = Some("key".into());
    assert!(build_session_from_config(&cfg).is_none());
    cfg.spend_seed = Some(SEED_HEX.into());
    let s = build_session_from_config(&cfg).unwrap();
    assert_eq!(s.role, Role::Owner);
    assert_eq!(s.scope.as_str(), "/");
    assert_eq!(s.credentials.fileverse_url, "http://127.0.0.1:8001");
    cfg.spend_seed = Some("00".into());
    assert!(build_session_from_config(&cfg).is_none());
    cfg.spend_seed = None;
    cfg.read_key = Some("rk".into());
    cfg.spend_public = Some("sp".into());
    cfg.fileverse_url = Some("http://y".into());
    let s = build_session_from_config(&cfg).unwrap();
    assert_eq!(s.role, Role::Agent);
    assert_eq!(s.credentials.fileverse_url, "http://y");
    cfg.auto_load = Some(true);
    assert!(auto_load_on_start(&Some(cfg), true));
    assert!(!auto_load_on_start(&None, true));
}

#[test]
fn setup_validates_before_storing() {
    let params = SetupParams {
        api_key: "key".into(),
        fileverse_url: "http://x".into(),
        spend_seed: None,
        read_key: None,
        spend_public: None,
        auto_load: Some(true),
    };
    let e = setup_session(&params).err().unwrap();
    assert!(invalid_text(e).starts_with("invalid credentials"));
    let params = SetupParams { spend_seed: Some(SEED_HEX.into()), ..params };
    let (cfg, s) = setup_session(&params).unwrap();
    assert_eq!(cfg.api_key.as_deref(), Some("key"));
    assert_eq!(cfg.auto_load, Some(true));
    assert_eq!(s.role, Role::Owner);
    assert_eq!(
        setup_text(Role::Owner, 3, true, "settings/local.json"),
        "rok-memory configured\n  config: ~/.rok/session.json\n  permissions: settings/local.json\n  role: owner\n  memories: 3\n  auto_load: true (memories load on conversation start)"
    );
}

#[test]
fn replies_are_exact() {
    assert_eq!(
        login_text(Role::Agent, &Scope::new("/finance").unwrap(), 12),
        "rok session started\n  role: agent\n  scope: /finance\n  memories: 12"
    );
    let mut s = owner();
    s.memory_count = 7;
    assert_eq!(
        status_text(Some(&s)),
        "rok session active\n  role: owner\n  scope: /\n  memories: 7\n  capabilities: read, write, grant, propose"
    );
    assert_eq!(status_text(None), "no active session");
    assert!(require_session(None).is_err());
}

#[test]
fn owner_writes_and_reads_through_the_tools() {
    let storage = SharedStorage::new();
    let s = owner();
    let reply = write_memory(
        Some(&s),
        storage.clone(),
        &WriteParams { scope: "/finance".into(), key: "q1".into(), content: "revenue up".into() },
    )
    .unwrap();
    assert_eq!(reply, "stored /finance:q1 (id: /finance/q1)");
    let data = read_memory(Some(&s), storage.clone(), &ReadParams { scope: "/finance".into(), key: "q1".into() }).unwrap();
    assert_eq!(data, b"revenue up");
    assert_eq!(list_memories(Some(&s), storage.clone()).unwrap().len(), 1);
    assert_eq!(count_memories(&s, storage.clone()).unwrap(), 1);
    let data = read_resource_memory(Some(&s), storage.clone(), "rok://memory/finance/q1").unwrap();
    assert_eq!(data, b"revenue up");
}

#[test]
fn agents_cannot_write_or_grant() {
    let storage = SharedStorage::new();
    let a = agent_at_finance();
    let e = write_memory(
        Some(&a),
        storage.clone(),
        &WriteParams { scope: "/finance".into(), key: "x".into(), content: "y".into() },
    )
    .err()
    .unwrap();
    assert!(invalid_text(e).starts_with("write requires owner role"));
    let e = grant_memory(Some(&a), storage.clone(), &GrantParams { scope: "/finance".into() }).err().unwrap();
    assert_eq!(invalid_text(e), "grant requires owner role (spend seed)");
    let e = write_memory(None, storage, &WriteParams { scope: "/".into(), key: "x".into(), content: "y".into() })
        .err()
        .unwrap();
    assert!(invalid_text(e).starts_with("no active session"));
}

#[test]
fn grant_hands_out_working_credentials() {
    let storage = SharedStorage::new();
    let s = owner();
    write_memory(
        Some(&s),
        storage.clone(),
        &WriteParams { scope: "/finance".into(), key: "q1".into(), content: "data".into() },
    )
    .unwrap();
    let reply = grant_memory(Some(&s), storage.clone(), &GrantParams { scope: "/finance".into() }).unwrap();
    assert!(reply.starts_with("granted access to /finance\n  read_key: "));
    assert!(reply.ends_with("\n\nGive both values to the agent. They can read /finance and descendants."));
    let read_key = reply.split("read_key: ").nth(1).unwrap().split('\n').next().unwrap();
    let spend_public = reply.split("spend_public: ").nth(1).unwrap().split('\n').next().unwrap();
    let agent = Session::new_agent(
        read_key.to_string(),
        spend_public.to_string(),
        Scope::new("/finance").unwrap(),
        "u".into(),
        "k".into(),
    );
    let data = read_memory(Some(&agent), storage, &ReadParams { scope: "/finance".into(), key: "q1".into() }).unwrap();
    assert_eq!(data, b"data");
}

#[test]
fn proposals_are_accepted_by_owners_and_staged_by_agents() {
    let storage = SharedStorage::new();
    let params = ProposeParams {
        scope: "/finance".into(),
        key: "idea".into(),
        content: "héllo".into(),
        agent_id: "agent-7".into(),
    };
    let reply = propose_memory(Some(&agent_at_finance()), storage.clone(), &params).unwrap();
    assert_eq!(
        reply,
        "proposal staged (agent cannot write directly)\n  scope: /finance\n  key: idea\n  from: agent-7\n  size: 6 bytes\n\nThe owner must accept this with rok_memory:propose using their spend seed."
    );
    let reply = propose_memory(Some(&owner()), storage.clone(), &params).unwrap();
    assert_eq!(reply, "accepted proposal from 'agent-7' at /finance:idea (id: /finance/idea)");
}

#[test]
fn sync_skips_unchanged_and_reports_errors() {
    let storage = SharedStorage::new();
    let s = owner();
    let entries = vec![
        SyncEntry { scope: "/a".into(), key: "k".into(), content: "one".into() },
        SyncEntry { scope: "bad".into(), key: "k".into(), content: "two".into() },
    ];
    let outcomes = sync_memories(&s, storage.clone(), storage.clone(), &entries).unwrap();
    assert!(matches!(outcomes[0], SyncOutcome::Written));
    assert!(matches!(outcomes[1], SyncOutcome::InvalidScope(_)));
    let text = sync_text(&outcomes);
    assert!(text.starts_with("sync: 1 written, 1 errors\n  error: bad:k — invalid scope: "));

    let again = vec![SyncEntry { scope: "/a".into(), key: "k".into(), content: "one".into() }];
    let outcomes = sync_memories(&s, storage.clone(), storage.clone(), &again).unwrap();
    assert!(matches!(outcomes[0], SyncOutcome::Unchanged));
    assert_eq!(sync_text(&outcomes), "sync: 1 unchanged");

    let outcomes = sync_memories(&agent_at_finance(), storage.clone(), storage, &vec![
        SyncEntry { scope: "/finance".into(), key: "n".into(), content: "new".into() },
    ])
    .unwrap();
    assert!(matches!(outcomes[0], SyncOutcome::Proposed));
    assert_eq!(sync_text(&outcomes), "sync: 1 proposed");
}

#[test]
fn memory_uris_split_at_the_last_slash() {
    assert_eq!(parse_memory_uri("rok://memory/finance/q1").unwrap(), ("/finance".to_string(), "q1".to_string()));
    assert_eq!(parse_memory_uri("rok://memory/memo").unwrap(), ("/".to_string(), "memo".to_string()));
    assert!(parse_memory_uri("http://memory/a/b").is_err());
    assert!(parse_memory_uri("rok://memory/finance/").is_err());
    assert!(parse_memory_uri("rok://memorynoslash").is_err());
    let e = read_resource_memory(None, SharedStorage::new(), "rok://memory/a/b").err().unwrap();
    assert!(matches!(e, ToolError::Internal(_)));
}

#[test]
fn only_missing_permissions_are_added() {
    let all = permission_list();
    assert_eq!(all.len(), 10);
    assert_eq!(missing_permissions(&vec![]), all);
    let some = vec!["other".to_string(), all[3].clone(), all[0].clone()];
    let missing = missing_permissions(&some);
    assert_eq!(missing.len(), 8);
    assert!(!missing.contains(&all[0]));
    assert_eq!(missing[0], all[1]);
}

#[test]
fn sync_tool_needs_a_session_and_entries() {
    let storage = SharedStorage::new();
    let none = sync_tool(None, storage.clone(), storage.clone(), &SyncParams { entries: vec![] });
    assert!(matches!(none, Err(ToolError::InvalidParams(_))));
    let s = owner();
    assert_eq!(sync_tool(Some(&s), storage.clone(), storage.clone(), &SyncParams { entries: vec![] }).unwrap(), "nothing to sync");
    let params = SyncParams {
        entries: vec![
            SyncEntry { scope: "/a".into(), key: "x".into(), content: "1".into() },
            SyncEntry { scope: "/a".into(), key: "y".into(), content: "2".into() },
        ],
    };
    assert_eq!(sync_tool(Some(&s), storage.clone(), storage.clone(), &params).unwrap(), "sync: 2 written");
    assert_eq!(sync_tool(Some(&s), storage.clone(), storage, &params).unwrap(), "sync: 2 unchanged");
}

#[test]
fn list_reply_previews_memories() {
    let entry = |key: &str, data: Vec<u8>| MemoryEntry { scope: Scope::new("/a").unwrap(), key: key.into(), data };
    assert_eq!(list_text(&vec![]).unwrap(), "no memories found");
    let short = vec![entry("k", b"hello".to_vec())];
    assert_eq!(list_text(&short).unwrap(), "memories (1):\n  [/a] k = hello");
    let long = vec![entry("k", vec![b'x'; 130])];
    assert_eq!(list_text(&long).unwrap(), format!("memories (1):\n  [/a] k = {}…", "x".repeat(120)));
    let mut split = vec![b'x'; 119];
    split.extend_from_slice("é".as_bytes());
    split.extend_from_slice(b"tail");
    assert!(list_text(&vec![entry("k", split)]).is_none());
    let lines = preview_lines(&vec![entry("k", vec![0xff, b'a'])], 80, "...").unwrap();
    assert_eq!(lines[0], "  [/a] k = \u{fffd}a");
}

#[test]
fn sync_steps_follow_the_read_back() {
    assert_eq!(sync_step(Role::Owner, false, None, b"x"), SyncStep::Invalid);
    assert_eq!(sync_step(Role::Owner, true, Some(b"x"), b"x"), SyncStep::Skip);
    assert_eq!(sync_step(Role::Agent, true, Some(b"x"), b"x"), SyncStep::Skip);
    assert_eq!(sync_step(Role::Owner, true, Some(b"y"), b"x"), SyncStep::Write);
    assert_eq!(sync_step(Role::Owner, true, None, b"x"), SyncStep::Write);
    assert_eq!(sync_step(Role::Agent, true, None, b"x"), SyncStep::Stage);
}

#[test]
fn sync_fails_only_where_the_session_keys_do_not_resolve() {
    let storage = SharedStorage::new();
    let bad_agent = Session::new_agent(
        "not a key".into(),
        encoding::encode_spend_public(&SpendKeyPair::from_seed(&[42u8; 32]).verifying_key()),
        Scope::root(),
        "http://localhost:8001".into(),
        "k".into(),
    );
    let entries = vec![SyncEntry { scope: "/a".into(), key: "k".into(), content: "c".into() }];
    assert!(matches!(sync_memories(&bad_agent, storage.clone(), storage.clone(), &entries), Err(ToolError::Internal(_))));
    let outcomes = sync_memories(&owner(), storage.clone(), storage, &vec![]).unwrap();
    assert!(outcomes.is_empty());
}
