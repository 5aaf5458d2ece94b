//! What the memory server's tools decide and answer: parameter checks, session set-up,
//! the memory operations behind each tool, and the texts they reply with.
//!
//! The server itself (the protocol, the shared session, the files it writes) is not part
//! of the library; it hands each tool's parameters to these functions.
use vstd::prelude::*;
use crate::crypto::{hex_bytes, hex_decode};
use crate::error::{decimal_digits, error_text, RokError};
use crate::keys::scope::{root_path, valid_scope, Scope};
use crate::mcp::session::{Role, Session, SessionConfig};
use crate::sdk::memory::{MemoryEntry, Proposal};
use crate::sdk::storage::StorageBackend;
use crate::text::{find_last, last_index_of, lemma_last_index_of, usize_to_decimal};
use vstd::utf8::encode_utf8;

verus! {

/// Why a tool call fails: the caller's parameters, or a failure inside the server.
#[derive(Debug)]
pub enum ToolError {
    InvalidParams(String),
    Internal(String),
}

impl ToolError {
    /// The error's text.
    pub fn message(&self) -> (s: &str)
        ensures
            s@ == match self {
                ToolError::InvalidParams(m) => m@,
                ToolError::Internal(m) => m@,
            },
    {
        match self {
            ToolError::InvalidParams(m) => m.as_str(),
            ToolError::Internal(m) => m.as_str(),
        }
    }
}

/// Parameters of the login tool.
pub struct LoginParams {
    /// Fileverse API key for storage access.
    pub api_key: String,
    /// Fileverse server URL.
    pub fileverse_url: String,
    /// Hex-encoded 32-byte spend seed (owner role).
    pub spend_seed: Option<String>,
    /// Encoded exported read key (agent role); needs `spend_public`.
    pub read_key: Option<String>,
    /// Encoded spend public key (agent role).
    pub spend_public: Option<String>,
    /// Session scope path.
    pub scope: String,
}

/// Parameters of the setup tool.
pub struct SetupParams {
    pub api_key: String,
    pub fileverse_url: String,
    pub spend_seed: Option<String>,
    pub read_key: Option<String>,
    pub spend_public: Option<String>,
    /// Load memories into context when a conversation starts.
    pub auto_load: Option<bool>,
}

/// Parameters of the write tool.
pub struct WriteParams {
    pub scope: String,
    pub key: String,
    pub content: String,
}

/// Parameters of the read tool.
pub struct ReadParams {
    pub scope: String,
    pub key: String,
}

/// Parameters of the grant tool: the scope to delegate (with its descendants).
pub struct GrantParams {
    pub scope: String,
}

/// Parameters of the propose tool.
pub struct ProposeParams {
    pub scope: String,
    pub key: String,
    pub content: String,
    /// Identifier of the proposing agent.
    pub agent_id: String,
}

/// One memory to upsert.
pub struct SyncEntry {
    pub scope: String,
    pub key: String,
    pub content: String,
}

/// Parameters of the sync tool: memories to upsert; unchanged ones are skipped.
pub struct SyncParams {
    pub entries: Vec<SyncEntry>,
}

/// The server's default Fileverse URL.
pub open spec fn default_fileverse_url() -> Seq<char> {
    "http://127.0.0.1:8001"@
}

/// The text of a role.
pub open spec fn role_text(r: Role) -> Seq<char> {
    match r {
        Role::Owner => "owner"@,
        Role::Agent => "agent"@,
    }
}

fn invalid(text: &str) -> (e: ToolError)
    ensures
        e matches ToolError::InvalidParams(m) && m@ == text@,
{
    ToolError::InvalidParams(String::from_str(text))
}

fn internal(prefix: &str, e: &RokError) -> (r: ToolError)
    ensures
        r matches ToolError::Internal(m) && m@ == prefix@ + error_text(*e),
{
    let mut m = String::from_str(prefix);
    let text = e.message();
    m.append(text.as_str());
    ToolError::Internal(m)
}

fn invalid_scope(e: &RokError) -> (r: ToolError)
    ensures
        r matches ToolError::InvalidParams(m) && m@ == "invalid scope: "@ + error_text(*e),
{
    let mut m = String::from_str("invalid scope: ");
    let text = e.message();
    m.append(text.as_str());
    ToolError::InvalidParams(m)
}

/// The session, or the error that asks for a login first.
pub fn require_session<'a>(session: Option<&'a Session>) -> (r: Result<&'a Session, ToolError>)
    ensures
        match session {
            Some(s) => r matches Ok(t) && t == s,
            None => r matches Err(e) && e is InvalidParams,
        },
{
    match session {
        Some(s) => Ok(s),
        None => Err(invalid("no active session — call rok_memory:login first")),
    }
}

// ---------------------------------------------------------------------------
// Sessions from credentials
// ---------------------------------------------------------------------------

fn seed_array(bytes: &Vec<u8>) -> (seed: [u8; 32])
    requires
        bytes@.len() == 32,
    ensures
        seed@ == bytes@,
{
    let seed = crate::bytes::array32(bytes.as_slice(), 0);
    assert(bytes@.subrange(0, 32) =~= bytes@);
    seed
}

/// The session a stored configuration describes: an API key is needed; an owner session
/// at the root scope where a spend seed is given (it must be hex of 32 bytes, else there
/// is none), otherwise an agent session at the root scope where a read key and a spend
/// public key are given. The Fileverse URL defaults to the local server.
pub fn build_session_from_config(cfg: &SessionConfig) -> (r: Option<Session>)
    ensures
        r is Some <==> cfg.api_key is Some && match cfg.spend_seed {
            Some(hex) => hex_bytes(hex@) matches Some(b) && b.len() == 32,
            None => cfg.read_key is Some && cfg.spend_public is Some,
        },
        r matches Some(s) ==> {
            &&& s.scope@ == root_path()
            &&& s.memory_count == 0
            &&& s.credentials.api_key@ == cfg.api_key->Some_0@
            &&& s.credentials.fileverse_url@ == match cfg.fileverse_url {
                Some(u) => u@,
                None => default_fileverse_url(),
            }
            &&& match cfg.spend_seed {
                Some(hex) => s.role == Role::Owner && (s.credentials.spend_seed matches Some(seed)
                    && hex_bytes(hex@) == Some(seed@)),
                None => s.role == Role::Agent && (s.credentials.read_key_encoded matches Some(t)
                    && t@ == cfg.read_key->Some_0@) && (s.credentials.spend_public_encoded matches Some(
                    p,
                ) && p@ == cfg.spend_public->Some_0@),
            }
        },
{
    let url = match &cfg.fileverse_url {
        Some(u) => u.clone(),
        None => String::from_str("http://127.0.0.1:8001"),
    };
    let api_key = match &cfg.api_key {
        Some(k) => k.clone(),
        None => return None,
    };
    match &cfg.spend_seed {
        Some(seed_hex) => {
            let bytes = match hex_decode(seed_hex.as_str()) {
                Some(b) => b,
                None => return None,
            };
            if bytes.len() != 32 {
                return None;
            }
            let seed = seed_array(&bytes);
            Some(Session::new_owner(seed, Scope::root(), url, api_key))
        },
        None => match (&cfg.read_key, &cfg.spend_public) {
            (Some(rk), Some(sp)) => Some(
                Session::new_agent(rk.clone(), sp.clone(), Scope::root(), url, api_key),
            ),
            _ => None,
        },
    }
}

/// The session the login tool starts, or why there is none: the scope must be valid; a
/// spend seed (hex of 32 bytes) makes an owner session, otherwise a read key with a spend
/// public key makes an agent session. Every refusal is an invalid-parameters error.
pub fn login_session(params: &LoginParams) -> (r: Result<Session, ToolError>)
    ensures
        r is Ok <==> valid_scope(params.scope@) && match params.spend_seed {
            Some(hex) => hex_bytes(hex@) matches Some(b) && b.len() == 32,
            None => params.read_key is Some && params.spend_public is Some,
        },
        r matches Err(e) ==> e is InvalidParams,
        r matches Ok(s) ==> {
            &&& s.scope@ == params.scope@
            &&& s.memory_count == 0
            &&& s.credentials.api_key@ == params.api_key@
            &&& s.credentials.fileverse_url@ == params.fileverse_url@
            &&& match params.spend_seed {
                Some(hex) => s.role == Role::Owner && (s.credentials.spend_seed matches Some(seed)
                    && hex_bytes(hex@) == Some(seed@)),
                None => s.role == Role::Agent && (s.credentials.read_key_encoded matches Some(t)
                    && t@ == params.read_key->Some_0@) && (s.credentials.spend_public_encoded
                    matches Some(p) && p@ == params.spend_public->Some_0@),
            }
        },
{
    let scope = match Scope::new(params.scope.as_str()) {
        Ok(s) => s,
        Err(e) => return Err(invalid_scope(&e)),
    };
    match &params.spend_seed {
        Some(seed_hex) => {
            let bytes = match hex_decode(seed_hex.as_str()) {
                Some(b) => b,
                None => return Err(invalid("invalid hex: not a hex string of whole bytes")),
            };
            if bytes.len() != 32 {
                let mut m = String::from_str("spend seed must be 32 bytes (64 hex chars), got ");
                let n = usize_to_decimal(bytes.len());
                m.append(n.as_str());
                return Err(ToolError::InvalidParams(m));
            }
            let seed = seed_array(&bytes);
            Ok(
                Session::new_owner(
                    seed,
                    scope,
                    params.fileverse_url.clone(),
                    params.api_key.clone(),
                ),
            )
        },
        None => match (&params.read_key, &params.spend_public) {
            (Some(rk), Some(sp)) => Ok(
                Session::new_agent(
                    rk.clone(),
                    sp.clone(),
                    scope,
                    params.fileverse_url.clone(),
                    params.api_key.clone(),
                ),
            ),
            _ => Err(invalid("provide either spend_seed (owner) or read_key + spend_public (agent)")),
        },
    }
}

/// The configuration that the setup tool stores.
pub fn setup_config(params: &SetupParams) -> (c: SessionConfig)
    ensures
        c.api_key matches Some(k) && k@ == params.api_key@,
        c.fileverse_url matches Some(u) && u@ == params.fileverse_url@,
        c.spend_seed == params.spend_seed,
        c.read_key == params.read_key,
        c.spend_public == params.spend_public,
        c.auto_load == params.auto_load,
{
    SessionConfig {
        api_key: Some(params.api_key.clone()),
        fileverse_url: Some(params.fileverse_url.clone()),
        spend_seed: params.spend_seed.clone(),
        read_key: params.read_key.clone(),
        spend_public: params.spend_public.clone(),
        auto_load: params.auto_load,
    }
}

/// The configuration and session that the setup tool starts with, or the refusal when the
/// credentials describe no session.
pub fn setup_session(params: &SetupParams) -> (r: Result<(SessionConfig, Session), ToolError>)
    ensures
        r is Ok <==> match params.spend_seed {
            Some(hex) => hex_bytes(hex@) matches Some(b) && b.len() == 32,
            None => params.read_key is Some && params.spend_public is Some,
        },
        r matches Err(e) ==> e is InvalidParams,
        r matches Ok((c, s)) ==> s.scope@ == root_path() && c.spend_seed == params.spend_seed
            && c.read_key == params.read_key && c.spend_public == params.spend_public
            && c.auto_load == params.auto_load && s.credentials.api_key@ == params.api_key@
            && s.credentials.fileverse_url@ == params.fileverse_url@ && (s.role == Role::Owner
            <==> params.spend_seed is Some),
{
    let config = setup_config(params);
    match build_session_from_config(&config) {
        Some(s) => Ok((config, s)),
        None => Err(
            invalid(
                "invalid credentials: provide spend_seed (owner) or read_key + spend_public (agent)",
            ),
        ),
    }
}

/// Whether the server loads memories on start: configured so, and a session exists.
pub fn auto_load_on_start(config: &Option<SessionConfig>, has_session: bool) -> (r: bool)
    ensures
        r == (has_session && (config matches Some(c) && c.auto_load == Some(true))),
{
    match config {
        Some(c) => match c.auto_load {
            Some(b) => b && has_session,
            None => false,
        },
        None => false,
    }
}

// ---------------------------------------------------------------------------
// Replies
// ---------------------------------------------------------------------------

/// The reply of a started session.
pub open spec fn login_reply(role: Role, scope: Seq<char>, count: nat) -> Seq<char> {
    "rok session started\n  role: "@ + role_text(role) + "\n  scope: "@ + scope
        + "\n  memories: "@ + decimal_digits(count)
}

/// The reply of a completed setup, naming the settings file that received the tool
/// permissions.
pub open spec fn setup_reply(role: Role, count: nat, auto_load: bool, settings: Seq<char>) -> Seq<char> {
    "rok-memory configured\n  config: ~/.rok/session.json\n  permissions: "@ + settings
        + "\n  role: "@ + role_text(role) + "\n  memories: "@ + decimal_digits(count) + if auto_load {
        "\n  auto_load: true (memories load on conversation start)"@
    } else {
        Seq::<char>::empty()
    }
}

/// The reply of the status tool.
pub open spec fn status_reply(role: Role, scope: Seq<char>, count: nat) -> Seq<char> {
    "rok session active\n  role: "@ + role_text(role) + "\n  scope: "@ + scope
        + "\n  memories: "@ + decimal_digits(count) + "\n  capabilities: "@ + match role {
        Role::Owner => "read, write, grant, propose"@,
        Role::Agent => "read, propose (staged)"@,
    }
}

/// The reply of a stored memory.
pub open spec fn stored_reply(scope: Seq<char>, key: Seq<char>, id: Seq<char>) -> Seq<char> {
    "stored "@ + scope + ":"@ + key + " (id: "@ + id + ")"@
}

/// The reply of a granted scope, with the encoded read key and spend public key.
pub open spec fn grant_reply(scope: Seq<char>, read_key: Seq<char>, spend_public: Seq<char>) -> Seq<char> {
    "granted access to "@ + scope + "\n  read_key: "@ + read_key + "\n  spend_public: "@
        + spend_public + "\n\nGive both values to the agent. They can read "@ + scope
        + " and descendants."@
}

/// The reply of an accepted proposal.
pub open spec fn accepted_reply(agent: Seq<char>, scope: Seq<char>, key: Seq<char>, id: Seq<char>) -> Seq<char> {
    "accepted proposal from '"@ + agent + "' at "@ + scope + ":"@ + key + " (id: "@ + id + ")"@
}

/// The reply of a proposal staged by an agent.
pub open spec fn staged_reply(scope: Seq<char>, key: Seq<char>, agent: Seq<char>, size: nat) -> Seq<char> {
    "proposal staged (agent cannot write directly)\n  scope: "@ + scope + "\n  key: "@ + key
        + "\n  from: "@ + agent + "\n  size: "@ + decimal_digits(size)
        + " bytes\n\nThe owner must accept this with rok_memory:propose using their spend seed."@
}

/// The reply of a started session.
pub fn login_text(role: Role, scope: &Scope, count: usize) -> (s: String)
    ensures
        s@ == login_reply(role, scope@, count as nat),
{
    let mut s = String::from_str("rok session started\n  role: ");
    s.append(role.as_str());
    s.append("\n  scope: ");
    s.append(scope.as_str());
    s.append("\n  memories: ");
    let n = usize_to_decimal(count);
    s.append(n.as_str());
    s
}

/// The reply of a completed setup.
pub fn setup_text(role: Role, count: usize, auto_load: bool, settings: &str) -> (s: String)
    ensures
        s@ == setup_reply(role, count as nat, auto_load, settings@),
{
    let mut s = String::from_str("rok-memory configured\n  config: ~/.rok/session.json\n  permissions: ");
    s.append(settings);
    s.append("\n  role: ");
    s.append(role.as_str());
    s.append("\n  memories: ");
    let n = usize_to_decimal(count);
    s.append(n.as_str());
    if auto_load {
        s.append("\n  auto_load: true (memories load on conversation start)");
    } else {
        assert(s@ =~= s@ + Seq::<char>::empty());
    }
    s
}

/// The reply of the status tool.
pub fn status_text(session: Option<&Session>) -> (s: String)
    ensures
        s@ == match session {
            Some(x) => status_reply(x.role, x.scope@, x.memory_count as nat),
            None => "no active session"@,
        },
{
    match session {
        None => String::from_str("no active session"),
        Some(x) => {
            let mut s = String::from_str("rok session active\n  role: ");
            s.append(x.role.as_str());
            s.append("\n  scope: ");
            s.append(x.scope.as_str());
            s.append("\n  memories: ");
            let n = usize_to_decimal(x.memory_count);
            s.append(n.as_str());
            s.append("\n  capabilities: ");
            match x.role {
                Role::Owner => s.append("read, write, grant, propose"),
                Role::Agent => s.append("read, propose (staged)"),
            }
            s
        },
    }
}

// ---------------------------------------------------------------------------
// Memory operations
// ---------------------------------------------------------------------------

/// The number of memories a session's read key lists.
pub fn count_memories<B: StorageBackend>(session: &Session, backend: B) -> (r: Result<usize, RokError>)
    ensures
        r is Ok ==> session.spend_verifying_key_spec() is Some,
        r matches Ok(n) ==> exists|es: Seq<crate::sdk::storage::EntryView>, k: crate::keys::read::ReadKeyView|
            session.is_session_read_key(k) && crate::sdk::storage::held_under(backend, es, k.scope)
                && (#[trigger] crate::sdk::memory::collected(
                es,
                k,
                session.spend_verifying_key_spec()->Some_0,
            ) matches Some(ms) && ms.len() == n),
{
    let ghost b0 = backend;
    let reader = session.memory_reader_with(backend)?;
    let read_key = session.read_key()?;
    assert(session.is_session_read_key(read_key@));
    let entries = reader.list(&read_key)?;
    proof {
        let es = choose|es: Seq<crate::sdk::storage::EntryView>|
            crate::sdk::storage::held_under(reader.stored_backend(), es, read_key@.scope)
                && #[trigger] crate::sdk::memory::collected(es, read_key@, reader.spend_vk()) == Some(
                crate::sdk::memory::memory_views(entries@),
            );
        assert(crate::sdk::storage::held_under(b0, es, read_key@.scope));
        assert(crate::sdk::memory::collected(es, read_key@, session.spend_verifying_key_spec()->Some_0) matches Some(
            ms,
        ) && ms.len() == entries@.len());
    }
    Ok(entries.len())
}

/// The write tool: owner sessions only; stores the content at the scope and key.
pub fn write_memory<B: StorageBackend>(session: Option<&Session>, backend: B, params: &WriteParams) -> (r: Result<String, ToolError>)
    ensures
        session is None ==> (r matches Err(e) && e is InvalidParams),
        (session matches Some(s) && s.role != Role::Owner) ==> (r matches Err(e) && e is InvalidParams),
        (session matches Some(s) && s.role == Role::Owner && !valid_scope(params.scope@)) ==> (r matches Err(e)
            && e is InvalidParams),
        r matches Ok(t) ==> exists|id: Seq<char>| t@ == stored_reply(params.scope@, params.key@, id),
{
    let session = require_session(session)?;
    if session.role != Role::Owner {
        return Err(invalid("write requires owner role — use rok_memory:propose to stage changes as agent"));
    }
    let scope = match Scope::new(params.scope.as_str()) {
        Ok(s) => s,
        Err(e) => return Err(invalid_scope(&e)),
    };
    let mut store = match session.memory_store_with(backend) {
        Ok(s) => s,
        Err(e) => return Err(internal("", &e)),
    };
    let id = match store.write(&scope, params.key.as_str(), params.content.as_str().as_bytes()) {
        Ok(id) => id,
        Err(e) => return Err(internal("write failed: ", &e)),
    };
    let t = stored_text(params.scope.as_str(), params.key.as_str(), id.0.as_str());
    Ok(t)
}

fn stored_text(scope: &str, key: &str, id: &str) -> (s: String)
    ensures
        s@ == stored_reply(scope@, key@, id@),
{
    let mut s = String::from_str("stored ");
    s.append(scope);
    s.append(":");
    s.append(key);
    s.append(" (id: ");
    s.append(id);
    s.append(")");
    s
}

/// The read tool: decrypts the memory at the scope and key with the session's read key.
pub fn read_memory<B: StorageBackend>(session: Option<&Session>, backend: B, params: &ReadParams) -> (r: Result<Vec<u8>, ToolError>)
    ensures
        session is None ==> (r matches Err(e) && e is InvalidParams),
        session is Some && !valid_scope(params.scope@) ==> (r matches Err(e) && e is InvalidParams),
        session is Some && valid_scope(params.scope@) ==> (r matches Err(e) ==> e is Internal),
        session matches Some(s) ==> (r matches Ok(p) ==> read_back(s, backend.data_at(params.scope@, params.key@), p@)),
{
    let session = require_session(session)?;
    let scope = match Scope::new(params.scope.as_str()) {
        Ok(s) => s,
        Err(e) => return Err(invalid_scope(&e)),
    };
    read_at(session, backend, &scope, params.key.as_str(), "read failed: ")
}

fn read_at<B: StorageBackend>(session: &Session, backend: B, scope: &Scope, key: &str, prefix: &str) -> (r: Result<Vec<u8>, ToolError>)
    ensures
        r matches Err(e) ==> e is Internal,
        r is Ok ==> session.spend_verifying_key_spec() is Some,
        r matches Ok(p) ==> read_back(session, backend.data_at(scope@, key@), p@),
{
    let ghost b0 = backend;
    let reader = match session.memory_reader_with(backend) {
        Ok(x) => x,
        Err(e) => return Err(internal("", &e)),
    };
    let read_key = match session.read_key() {
        Ok(k) => k,
        Err(e) => return Err(internal("", &e)),
    };
    assert(session.is_session_read_key(read_key@));
    match reader.read(&read_key, scope, key) {
        Ok(data) => {
            proof {
                assert(read_back(session, b0.data_at(scope@, key@), data@));
            }
            Ok(data)
        },
        Err(e) => Err(internal(prefix, &e)),
    }
}

/// The list tool: the memories the session's read key lists.
pub fn list_memories<B: StorageBackend>(session: Option<&Session>, backend: B) -> (r: Result<Vec<MemoryEntry>, ToolError>)
    ensures
        session is None ==> (r matches Err(e) && e is InvalidParams),
        session is Some ==> (r matches Err(e) ==> e is Internal),
        session matches Some(s) ==> (r matches Ok(v) ==> exists|
            es: Seq<crate::sdk::storage::EntryView>,
            k: crate::keys::read::ReadKeyView,
        |
            s.is_session_read_key(k) && crate::sdk::storage::held_under(backend, es, k.scope)
                && #[trigger] crate::sdk::memory::collected(es, k, s.spend_verifying_key_spec()->Some_0)
                == Some(crate::sdk::memory::memory_views(v@))),
{
    let ghost b0 = backend;
    let session = require_session(session)?;
    let reader = match session.memory_reader_with(backend) {
        Ok(x) => x,
        Err(e) => return Err(internal("", &e)),
    };
    let read_key = match session.read_key() {
        Ok(k) => k,
        Err(e) => return Err(internal("", &e)),
    };
    assert(session.is_session_read_key(read_key@));
    match reader.list(&read_key) {
        Ok(v) => {
            proof {
                let es = choose|es: Seq<crate::sdk::storage::EntryView>|
                    crate::sdk::storage::held_under(reader.stored_backend(), es, read_key@.scope)
                        && #[trigger] crate::sdk::memory::collected(es, read_key@, reader.spend_vk()) == Some(
                        crate::sdk::memory::memory_views(v@),
                    );
                assert(crate::sdk::storage::held_under(b0, es, read_key@.scope));
                assert(crate::sdk::memory::collected(es, read_key@, session.spend_verifying_key_spec()->Some_0)
                    == Some(crate::sdk::memory::memory_views(v@)));
            }
            Ok(v)
        },
        Err(e) => Err(internal("list failed: ", &e)),
    }
}

/// Lines each put after a line break.
pub open spec fn line_block(lines: Seq<Seq<char>>) -> Seq<char>
    decreases lines.len(),
{
    if lines.len() == 0 {
        Seq::empty()
    } else {
        line_block(lines.drop_last()) + "\n"@ + lines.last()
    }
}

/// The reply of the list tool for the lines of the memories.
pub open spec fn list_reply(lines: Seq<Seq<char>>) -> Seq<char> {
    if lines.len() == 0 {
        "no memories found"@
    } else {
        "memories ("@ + decimal_digits(lines.len()) + "):"@ + line_block(lines)
    }
}

/// The list tool's lines of memories: previews of at most 120 bytes, cut with `…`.
pub open spec fn listed_lines(ms: Seq<crate::sdk::memory::MemoryView>) -> Seq<Seq<char>> {
    Seq::new(ms.len(), |i: int| crate::sdk::memory::entry_line(ms[i], 120, "…"@))
}

/// The reply of the list tool: a count, then one line per memory with a preview of its
/// text; `None` where a preview cut would split a character.
pub fn list_text(entries: &Vec<MemoryEntry>) -> (r: Option<String>)
    ensures
        r is Some <==> forall|i: int|
            0 <= i < entries@.len() ==> crate::sdk::memory::cut_ok(
                crate::crypto::utf8_lossy_text((#[trigger] entries@[i]).data@),
                120,
            ),
        r matches Some(t) ==> t@ == list_reply(listed_lines(crate::sdk::memory::memory_views(entries@))),
{
    let lines = match crate::sdk::memory::preview_lines(entries, 120, "…") {
        Some(v) => v,
        None => return None,
    };
    let ghost want = listed_lines(crate::sdk::memory::memory_views(entries@));
    if lines.len() == 0 {
        return Some(String::from_str("no memories found"));
    }
    let mut t = String::from_str("memories (");
    let n = usize_to_decimal(lines.len());
    t.append(n.as_str());
    t.append("):");
    let ghost head = t@;
    let mut i: usize = 0;
    assert(want.subrange(0, 0) =~= Seq::<Seq<char>>::empty());
    while i < lines.len()
        invariant
            i <= lines@.len(),
            lines@.len() == entries@.len(),
            want.len() == lines@.len(),
            forall|j: int| 0 <= j < lines@.len() ==> (#[trigger] lines@[j])@ == want[j],
            t@ == head + line_block(want.subrange(0, i as int)),
        decreases lines@.len() - i,
    {
        assert(want.subrange(0, i + 1).drop_last() =~= want.subrange(0, i as int));
        t.append("\n");
        t.append(lines[i].as_str());
        i = i + 1;
    }
    assert(want.subrange(0, i as int) =~= want);
    Some(t)
}

/// The read key that granting a scope hands out: the scope's key in the hierarchy of the
/// spend seed, with the root key as parent below the root.
pub open spec fn granted_key(seed: Seq<u8>, scope: Seq<char>) -> crate::keys::read::ExportedReadKeyView {
    crate::keys::read::ExportedReadKeyView {
        secret: crate::derive::scope_read_secret(seed, scope),
        public: crate::crypto::x25519_public_key(crate::derive::scope_read_secret(seed, scope)),
        scope,
        parent_key_id: if scope == root_path() {
            None
        } else {
            Some(
                crate::keys::key_id::key_id_of(
                    crate::crypto::x25519_public_key(crate::derive::root_read_secret(seed)),
                ),
            )
        },
    }
}

/// The grant tool: owner sessions only; exports the scope's read key for an agent and
/// replies with it and the spend public key, both encoded.
pub fn grant_memory<B: StorageBackend>(session: Option<&Session>, backend: B, params: &GrantParams) -> (r: Result<String, ToolError>)
    ensures
        session is None ==> (r matches Err(e) && e is InvalidParams),
        (session matches Some(s) && s.role != Role::Owner) ==> (r matches Err(e) && e is InvalidParams),
        (session matches Some(s) && s.role == Role::Owner && !valid_scope(params.scope@)) ==> (r matches Err(e)
            && e is InvalidParams),
        session matches Some(s) ==> (s.role == Role::Owner && s.credentials.spend_seed is Some && valid_scope(params.scope@)
            ==> (r matches Ok(t) && exists|k: Seq<char>, p: Seq<char>|
            {
                &&& t@ == grant_reply(params.scope@, k, p)
                &&& crate::encoding::exported_decoded(k) == crate::encoding::Decoded::Ok(
                    granted_key(s.credentials.spend_seed->Some_0@, params.scope@),
                )
                &&& crate::encoding::untagged(p, crate::encoding::TAG_SPEND_PUBLIC) == crate::encoding::Decoded::Ok(
                    crate::crypto::ed25519_verifying_key(s.credentials.spend_seed->Some_0@),
                )
            })),
{
    let session = require_session(session)?;
    if session.role != Role::Owner {
        return Err(invalid("grant requires owner role (spend seed)"));
    }
    let scope = match Scope::new(params.scope.as_str()) {
        Ok(s) => s,
        Err(e) => return Err(invalid_scope(&e)),
    };
    let store = match session.memory_store_with(backend) {
        Ok(s) => s,
        Err(e) => return Err(internal("", &e)),
    };
    let exported = match store.grant_access(&scope) {
        Ok(x) => x,
        Err(e) => return Err(internal("grant failed: ", &e)),
    };
    let encoded_key = crate::encoding::encode_exported_read_key(&exported);
    let spend = match session.spend_key() {
        Ok(k) => k,
        Err(e) => return Err(internal("", &e)),
    };
    let spend_public = crate::encoding::encode_spend_public(&spend.verifying_key());
    let mut t = String::from_str("granted access to ");
    t.append(params.scope.as_str());
    t.append("\n  read_key: ");
    t.append(encoded_key.as_str());
    t.append("\n  spend_public: ");
    t.append(spend_public.as_str());
    t.append("\n\nGive both values to the agent. They can read ");
    t.append(params.scope.as_str());
    t.append(" and descendants.");
    assert(t@ =~= grant_reply(params.scope@, encoded_key@, spend_public@));
    Ok(t)
}

/// The propose tool: an owner accepts the proposal and stores it; an agent's proposal is
/// only staged, and the reply tells the owner what to accept.
pub fn propose_memory<B: StorageBackend>(session: Option<&Session>, backend: B, params: &ProposeParams) -> (r: Result<String, ToolError>)
    ensures
        session is None ==> (r matches Err(e) && e is InvalidParams),
        session is Some && !valid_scope(params.scope@) ==> (r matches Err(e) && e is InvalidParams),
        (session matches Some(s) && s.role == Role::Agent && valid_scope(params.scope@)) ==> (r matches Ok(t)
            && t@ == staged_reply(params.scope@, params.key@, params.agent_id@, encode_utf8(params.content@).len())),
        (session matches Some(s) && s.role == Role::Owner) ==> (r matches Ok(t) ==> exists|id: Seq<char>|
            t@ == accepted_reply(params.agent_id@, params.scope@, params.key@, id)),
{
    let session = require_session(session)?;
    let scope = match Scope::new(params.scope.as_str()) {
        Ok(s) => s,
        Err(e) => return Err(invalid_scope(&e)),
    };
    match session.role {
        Role::Owner => {
            let mut store = match session.memory_store_with(backend) {
                Ok(s) => s,
                Err(e) => return Err(internal("", &e)),
            };
            let proposal = Proposal {
                scope,
                key: params.key.clone(),
                plaintext: crate::bytes::copy_range(params.content.as_str().as_bytes(), 0, params.content.as_str().as_bytes().len()),
                proposed_by: params.agent_id.clone(),
            };
            let id = match store.accept_proposal(&proposal) {
                Ok(id) => id,
                Err(e) => return Err(internal("accept failed: ", &e)),
            };
            let mut t = String::from_str("accepted proposal from '");
            t.append(params.agent_id.as_str());
            t.append("' at ");
            t.append(params.scope.as_str());
            t.append(":");
            t.append(params.key.as_str());
            t.append(" (id: ");
            t.append(id.0.as_str());
            t.append(")");
            assert(t@ =~= accepted_reply(params.agent_id@, params.scope@, params.key@, id.0@));
            Ok(t)
        },
        Role::Agent => {
            let mut t = String::from_str("proposal staged (agent cannot write directly)\n  scope: ");
            t.append(params.scope.as_str());
            t.append("\n  key: ");
            t.append(params.key.as_str());
            t.append("\n  from: ");
            t.append(params.agent_id.as_str());
            t.append("\n  size: ");
            let n = usize_to_decimal(params.content.as_str().as_bytes().len());
            t.append(n.as_str());
            t.append(" bytes\n\nThe owner must accept this with rok_memory:propose using their spend seed.");
            assert(t@ =~= staged_reply(params.scope@, params.key@, params.agent_id@, encode_utf8(params.content@).len()));
            Ok(t)
        },
    }
}

// ---------------------------------------------------------------------------
// Resources
// ---------------------------------------------------------------------------

/// The scope and key a memory URI names: after `rok://memory`, the key follows the last
/// `/` and may not be empty; an empty scope is the root.
pub open spec fn memory_uri_parts(u: Seq<char>) -> Option<(Seq<char>, Seq<char>)> {
    let prefix = "rok://memory"@;
    if u.len() >= prefix.len() && u.subrange(0, prefix.len() as int) == prefix {
        let path = u.skip(prefix.len() as int);
        let c = last_index_of(path, '/');
        if c < 0 || c + 1 == path.len() {
            None
        } else {
            Some((if c == 0 { root_path() } else { path.take(c) }, path.skip(c + 1)))
        }
    } else {
        None
    }
}

/// Parse a memory URI `rok://memory{scope}/{key}` into scope and key.
pub fn parse_memory_uri(uri: &str) -> (r: Result<(String, String), ToolError>)
    ensures
        match memory_uri_parts(uri@) {
            Some((s, k)) => r matches Ok((s2, k2)) && s2@ == s && k2@ == k,
            None => r matches Err(e) && e is InvalidParams,
        },
{
    let prefix = "rok://memory";
    proof {
        reveal_strlit("rok://memory");
        reveal_strlit("/");
    }
    let n = uri.unicode_len();
    let pn = prefix.unicode_len();
    if n < pn {
        return Err(invalid("invalid URI"));
    }
    let mut i: usize = 0;
    while i < pn
        invariant
            prefix@ == "rok://memory"@,
            pn == prefix@.len(),
            n == uri@.len(),
            pn <= n,
            i <= pn,
            forall|k: int| 0 <= k < i ==> uri@[k] == prefix@[k],
        decreases pn - i,
    {
        if uri.get_char(i) != prefix.get_char(i) {
            proof {
                assert(uri@.subrange(0, pn as int) != prefix@) by {
                    assert(uri@.subrange(0, pn as int)[i as int] == uri@[i as int]);
                }
            }
            return Err(invalid("invalid URI"));
        }
        i = i + 1;
    }
    assert(uri@.subrange(0, pn as int) =~= prefix@);
    let path = uri.substring_char(pn, n);
    assert(path@ =~= uri@.skip(pn as int));
    let c = match find_last(path, '/') {
        Some(c) => c,
        None => return Err(invalid("URI must be rok://memory/{scope}/{key}")),
    };
    proof {
        lemma_last_index_of(path@, '/');
    }
    let m = path.unicode_len();
    if c + 1 == m {
        return Err(invalid("URI must be rok://memory/{scope}/{key}"));
    }
    let scope = if c == 0 {
        String::from_str("/")
    } else {
        String::from_str(path.substring_char(0, c))
    };
    let key = String::from_str(path.substring_char(c + 1, m));
    assert(key@ =~= path@.skip(c + 1));
    proof {
        if c > 0 {
            assert(scope@ =~= path@.take(c as int));
        } else {
            assert(scope@ =~= root_path());
        }
    }
    Ok((scope, key))
}

/// The read-resource request: parses the URI, then reads the memory it names with the
/// session's read key.
pub fn read_resource_memory<B: StorageBackend>(session: Option<&Session>, backend: B, uri: &str) -> (r: Result<Vec<u8>, ToolError>)
    ensures
        memory_uri_parts(uri@) is None ==> (r matches Err(e) && e is InvalidParams),
        memory_uri_parts(uri@) is Some && session is None ==> (r matches Err(e) && e is Internal),
        (memory_uri_parts(uri@) matches Some((s, _)) && session is Some && !valid_scope(s)) ==> (r matches Err(e)
            && e is InvalidParams),
        memory_uri_parts(uri@) matches Some((s, k)) ==> (session matches Some(ss) ==> (r matches Ok(p)
            ==> read_back(ss, backend.data_at(s, k), p@))),
{
    let (scope_text, key) = parse_memory_uri(uri)?;
    let session = match session {
        Some(s) => s,
        None => return Err(ToolError::Internal(String::from_str("no active session"))),
    };
    let scope = match Scope::new(scope_text.as_str()) {
        Ok(s) => s,
        Err(e) => return Err(invalid_scope(&e)),
    };
    read_at(session, backend, &scope, key.as_str(), "")
}

// ---------------------------------------------------------------------------
// Sync
// ---------------------------------------------------------------------------

/// What became of one memory in a sync.
pub enum SyncOutcome {
    /// Its scope is invalid; the text says why.
    InvalidScope(String),
    /// The stored memory already holds the content.
    Unchanged,
    /// The owner stored it.
    Written,
    /// Storing it failed; the text says why.
    WriteFailed(String),
    /// An agent's session staged it as a proposal.
    Proposed,
}

/// Counts outcomes of one kind.
pub open spec fn count_outcomes(os: Seq<SyncOutcome>, kind: nat) -> nat
    decreases os.len(),
{
    if os.len() == 0 {
        0
    } else {
        count_outcomes(os.drop_last(), kind) + if outcome_kind(os.last()) == kind {
            1nat
        } else {
            0nat
        }
    }
}

/// The kind of an outcome: 0 written, 1 proposed, 2 unchanged, 3 an error.
pub open spec fn outcome_kind(o: SyncOutcome) -> nat {
    match o {
        SyncOutcome::Written => 0,
        SyncOutcome::Proposed => 1,
        SyncOutcome::Unchanged => 2,
        _ => 3,
    }
}

/// What syncing one memory calls for.
#[derive(Debug, Clone, Copy, PartialEq, Eq, Structural)]
pub enum SyncStep {
    /// Its scope is invalid.
    Invalid,
    /// The stored memory already holds the content: nothing to do.
    Skip,
    /// The owner writes it.
    Write,
    /// An agent stages it as a proposal.
    Stage,
}

/// What syncing one memory calls for, given whether its scope is valid and what reading
/// the stored memory back gave (`None` where the read failed): a memory whose stored
/// content equals the new content is skipped; otherwise an owner writes it and an agent
/// stages it.
pub open spec fn sync_step_of(role: Role, scope_valid: bool, existing: Option<Seq<u8>>, content: Seq<u8>) -> SyncStep {
    if !scope_valid {
        SyncStep::Invalid
    } else if existing == Some(content) {
        SyncStep::Skip
    } else if role == Role::Owner {
        SyncStep::Write
    } else {
        SyncStep::Stage
    }
}

/// What syncing one memory calls for.
pub fn sync_step(role: Role, scope_valid: bool, existing: Option<&[u8]>, content: &[u8]) -> (s: SyncStep)
    ensures
        s == sync_step_of(
            role,
            scope_valid,
            match existing {
                Some(e) => Some(e@),
                None => None,
            },
            content@,
        ),
{
    if !scope_valid {
        return SyncStep::Invalid;
    }
    let same = match existing {
        Some(e) => crate::bytes::bytes_equal(e, content),
        None => false,
    };
    if same {
        SyncStep::Skip
    } else {
        match role {
            Role::Owner => SyncStep::Write,
            Role::Agent => SyncStep::Stage,
        }
    }
}

/// Whether an outcome is what a step leads to: a report of the invalid scope, unchanged,
/// written or a failed write, or staged.
pub open spec fn outcome_of_step(o: SyncOutcome, step: SyncStep) -> bool {
    match step {
        SyncStep::Invalid => o is InvalidScope,
        SyncStep::Skip => o is Unchanged,
        SyncStep::Write => o is Written || o is WriteFailed,
        SyncStep::Stage => o is Proposed,
    }
}

/// Whether `content` is what reading back the bytes `held` at a memory's place gives the
/// session: the backend holds bytes there, signed by the session's spend key, that the
/// session's read key opens to exactly `content`.
pub open spec fn read_back(session: &Session, held: Option<Seq<u8>>, content: Seq<u8>) -> bool {
    held matches Some(bytes) && exists|k: crate::keys::read::ReadKeyView|
        session.is_session_read_key(k) && #[trigger] crate::sdk::memory::open_outcome(
            bytes,
            k,
            session.spend_verifying_key_spec()->Some_0,
        ) == crate::sdk::memory::OpenOutcome::Opened(crate::encrypt::DecryptOutcome::Plaintext(content))
}

/// Whether a backend holds, at a memory's place, bytes that seal its content for the
/// session's spend key.
pub open spec fn holds_sealed<B: StorageBackend>(backend: B, session: &Session, entry: SyncEntry) -> bool {
    session.credentials.spend_seed matches Some(seed) && exists|b: Seq<u8>|
        backend.data_at(entry.scope@, entry.key@) == Some(b) && #[trigger] crate::sdk::memory::memory_sealed(
            b,
            (crate::keys::spend::SpendKeyView { seed: seed@, public: crate::crypto::ed25519_verifying_key(seed@) }),
            entry.scope@,
            encode_utf8(entry.content@),
        )
}

/// Whether `os` is what syncing `entries` comes to when reading the stored memories back
/// from `reader` gave `reads` and the store's backend went through `states`: each outcome
/// is the one its step calls for; each content read back is what the session's keys open
/// of the bytes `reader` holds at the memory's place; each written memory is held sealed
/// by the store's backend after its write, and a memory not written leaves that backend
/// as it was.
pub open spec fn synced<B: StorageBackend>(
    os: Seq<SyncOutcome>,
    reads: Seq<Option<Seq<u8>>>,
    states: Seq<B>,
    session: &Session,
    reader: B,
    entries: Seq<SyncEntry>,
) -> bool {
    &&& os.len() == entries.len()
    &&& reads.len() == entries.len()
    &&& states.len() == entries.len() + 1
    &&& forall|i: int|
        0 <= i < entries.len() ==> outcome_of_step(
            #[trigger] os[i],
            sync_step_of(session.role, valid_scope(entries[i].scope@), reads[i], encode_utf8(entries[i].content@)),
        )
    &&& forall|i: int|
        0 <= i < entries.len() ==> (#[trigger] reads[i] matches Some(b) ==> read_back(
            session,
            reader.data_at(entries[i].scope@, entries[i].key@),
            b,
        ))
    &&& forall|i: int| 0 <= i < entries.len() ==> (#[trigger] os[i] is Written ==> holds_sealed(states[i + 1], session, entries[i]))
    &&& forall|i: int|
        0 <= i < entries.len() ==> (!(#[trigger] os[i] is Written) && !(os[i] is WriteFailed) ==> states[i + 1]
            == states[i])
}

/// Whether syncing can start: the session has a spend verifying key and its read key
/// resolves.
pub open spec fn sync_can_start(session: &Session) -> bool {
    session.spend_verifying_key_spec() is Some && session.read_key_resolves()
}

/// What the sync of each memory came to, one outcome per memory in order: an invalid
/// scope is reported; otherwise the stored memory is read back, and one whose content
/// equals the new content is unchanged; otherwise an owner writes it and an agent stages
/// it. It fails only where the session's keys do not resolve.
pub fn sync_memories<B: StorageBackend>(
    session: &Session,
    reader_backend: B,
    store_backend: B,
    entries: &Vec<SyncEntry>,
) -> (r: Result<Vec<SyncOutcome>, ToolError>)
    ensures
        r is Ok <==> sync_can_start(session),
        r matches Err(e) ==> e is Internal,
        r matches Ok(os) ==> exists|reads: Seq<Option<Seq<u8>>>, states: Seq<B>|
            states[0] == store_backend && #[trigger] synced(os@, reads, states, session, reader_backend, entries@),
{
    let ghost reader0 = reader_backend;
    let ghost store0 = store_backend;
    let reader = match session.memory_reader_with(reader_backend) {
        Ok(x) => x,
        Err(e) => return Err(internal("", &e)),
    };
    let read_key = match session.read_key() {
        Ok(k) => k,
        Err(e) => return Err(internal("", &e)),
    };
    assert(session.is_session_read_key(read_key@));
    let mut store = match session.role {
        Role::Owner => match session.memory_store_with(store_backend) {
            Ok(s) => Some(s),
            Err(e) => return Err(internal("", &e)),
        },
        Role::Agent => None,
    };
    let ghost mut read_backs: Seq<Option<Seq<u8>>> = Seq::empty();
    let ghost mut states: Seq<B> = seq![store0];
    let mut outcomes: Vec<SyncOutcome> = Vec::new();
    let mut i: usize = 0;
    while i < entries.len()
        invariant
            i <= entries@.len(),
            outcomes@.len() == i,
            read_backs.len() == i,
            states.len() == i + 1,
            states[0] == store0,
            session.role == Role::Owner <==> store is Some,
            store matches Some(st) ==> (st.stored_backend() == states[i as int] && (session.credentials.spend_seed
                matches Some(seed) && st.spend_key()@ == (crate::keys::spend::SpendKeyView {
                seed: seed@,
                public: crate::crypto::ed25519_verifying_key(seed@),
            }))),
            reader.spend_vk() == session.spend_verifying_key_spec()->Some_0,
            reader.stored_backend() == reader0,
            session.spend_verifying_key_spec() is Some,
            session.is_session_read_key(read_key@),
            forall|k: int|
                0 <= k < i ==> outcome_of_step(
                    #[trigger] outcomes@[k],
                    sync_step_of(session.role, valid_scope(entries@[k].scope@), read_backs[k], encode_utf8(entries@[k].content@)),
                ),
            forall|k: int|
                0 <= k < i ==> (#[trigger] read_backs[k] matches Some(b) ==> read_back(
                    session,
                    reader0.data_at(entries@[k].scope@, entries@[k].key@),
                    b,
                )),
            forall|k: int| 0 <= k < i ==> (#[trigger] outcomes@[k] is Written ==> holds_sealed(states[k + 1], session, entries@[k])),
            forall|k: int|
                0 <= k < i ==> (!(#[trigger] outcomes@[k] is Written) && !(outcomes@[k] is WriteFailed) ==> states[k + 1]
                    == states[k]),
        decreases entries@.len() - i,
    {
        let entry = &entries[i];
        let ghost got: Option<Seq<u8>> = None;
        let outcome = match Scope::new(entry.scope.as_str()) {
            Err(e) => {
                let mut m = String::from_str(entry.scope.as_str());
                m.append(":");
                m.append(entry.key.as_str());
                m.append(" — invalid scope: ");
                let text = e.message();
                m.append(text.as_str());
                SyncOutcome::InvalidScope(m)
            },
            Ok(scope) => {
                let content = entry.content.as_str().as_bytes();
                let existing = match reader.read(&read_key, &scope, entry.key.as_str()) {
                    Ok(b) => {
                        proof {
                            assert(read_back(session, reader0.data_at(entry.scope@, entry.key@), b@));
                        }
                        Some(b)
                    },
                    Err(_) => None,
                };
                proof {
                    got = match &existing {
                        Some(b) => Some(b@),
                        None => None,
                    };
                }
                let step = sync_step(
                    session.role,
                    true,
                    match &existing {
                        Some(b) => Some(b.as_slice()),
                        None => None,
                    },
                    content,
                );
                match step {
                    SyncStep::Skip => SyncOutcome::Unchanged,
                    SyncStep::Stage => SyncOutcome::Proposed,
                    _ => match &mut store {
                        Some(st) => match st.write(&scope, entry.key.as_str(), content) {
                            Ok(_) => {
                                proof {
                                    let seed = session.credentials.spend_seed->Some_0;
                                    let b = choose|b: Seq<u8>|
                                        st.stored_backend().data_at(scope@, entry.key@) == Some(b)
                                            && #[trigger] crate::sdk::memory::memory_sealed(
                                            b,
                                            (crate::keys::spend::SpendKeyView {
                                                seed: seed@,
                                                public: crate::crypto::ed25519_verifying_key(seed@),
                                            }),
                                            scope@,
                                            content@,
                                        );
                                    assert(holds_sealed(st.stored_backend(), session, *entry));
                                }
                                SyncOutcome::Written
                            },
                            Err(e) => {
                                let mut m = String::from_str(entry.scope.as_str());
                                m.append(":");
                                m.append(entry.key.as_str());
                                m.append(" — write failed: ");
                                let text = e.message();
                                m.append(text.as_str());
                                SyncOutcome::WriteFailed(m)
                            },
                        },
                        None => SyncOutcome::Proposed,
                    },
                }
            },
        };
        proof {
            read_backs = read_backs.push(got);
            states = states.push(
                if store is Some {
                    store->Some_0.stored_backend()
                } else {
                    states[i as int]
                },
            );
        }
        outcomes.push(outcome);
        i = i + 1;
    }
    let r: Result<Vec<SyncOutcome>, ToolError> = Ok(outcomes);
    assert(r matches Ok(os) && synced(os@, read_backs, states, session, reader0, entries@));
    r
}

/// Parts joined with `, `.
pub open spec fn joined(parts: Seq<Seq<char>>) -> Seq<char>
    decreases parts.len(),
{
    if parts.len() == 0 {
        Seq::empty()
    } else if parts.len() == 1 {
        parts[0]
    } else {
        joined(parts.drop_last()) + ", "@ + parts.last()
    }
}

/// The part for a count when it is not zero: the number and its label.
pub open spec fn count_part(n: nat, label: Seq<char>) -> Seq<Seq<char>> {
    if n > 0 {
        seq![crate::error::decimal_digits(n) + label]
    } else {
        Seq::empty()
    }
}

/// The counts of a sync that are not zero, in the order written, proposed, unchanged,
/// errors.
pub open spec fn sync_parts(os: Seq<SyncOutcome>) -> Seq<Seq<char>> {
    count_part(count_outcomes(os, 0), " written"@) + count_part(count_outcomes(os, 1), " proposed"@)
        + count_part(count_outcomes(os, 2), " unchanged"@) + count_part(count_outcomes(os, 3), " errors"@)
}

/// One line per failed memory, in order.
pub open spec fn error_lines(os: Seq<SyncOutcome>) -> Seq<char>
    decreases os.len(),
{
    if os.len() == 0 {
        Seq::empty()
    } else {
        error_lines(os.drop_last()) + match os.last() {
            SyncOutcome::InvalidScope(m) => "\n  error: "@ + m@,
            SyncOutcome::WriteFailed(m) => "\n  error: "@ + m@,
            _ => Seq::empty(),
        }
    }
}

/// The reply of a sync.
pub open spec fn sync_reply(os: Seq<SyncOutcome>) -> Seq<char> {
    "sync: "@ + joined(sync_parts(os)) + error_lines(os)
}

/// The reply of a sync: the counts that are not zero, in the order written, proposed,
/// unchanged, errors, then one line per error.
pub fn sync_text(outcomes: &Vec<SyncOutcome>) -> (s: String)
    ensures
        s@ == sync_reply(outcomes@),
{
    let mut written: usize = 0;
    let mut proposed: usize = 0;
    let mut skipped: usize = 0;
    let mut errors: usize = 0;
    let mut i: usize = 0;
    assert(outcomes@.subrange(0, 0) =~= Seq::<SyncOutcome>::empty());
    while i < outcomes.len()
        invariant
            i <= outcomes@.len(),
            written == count_outcomes(outcomes@.subrange(0, i as int), 0),
            proposed == count_outcomes(outcomes@.subrange(0, i as int), 1),
            skipped == count_outcomes(outcomes@.subrange(0, i as int), 2),
            errors == count_outcomes(outcomes@.subrange(0, i as int), 3),
            written + proposed + skipped + errors == i,
        decreases outcomes@.len() - i,
    {
        assert(outcomes@.subrange(0, i + 1).drop_last() =~= outcomes@.subrange(0, i as int));
        assert(outcomes@.subrange(0, i + 1).last() == outcomes@[i as int]);
        match &outcomes[i] {
            SyncOutcome::Written => written = written + 1,
            SyncOutcome::Proposed => proposed = proposed + 1,
            SyncOutcome::Unchanged => skipped = skipped + 1,
            _ => errors = errors + 1,
        }
        i = i + 1;
    }
    assert(outcomes@.subrange(0, i as int) =~= outcomes@);
    let mut s = String::from_str("sync: ");
    proof {
        reveal_strlit("sync: ");
    }
    let ghost start = s@;
    let mut first = true;
    let ghost mut parts: Seq<Seq<char>> = Seq::empty();
    if written > 0 {
        append_count(&mut s, &mut first, written, " written", Ghost(start), Ghost(parts));
        proof {
            parts = parts + count_part(written as nat, " written"@);
        }
    }
    assert(parts =~= count_part(written as nat, " written"@));
    let ghost p1 = parts;
    if proposed > 0 {
        append_count(&mut s, &mut first, proposed, " proposed", Ghost(start), Ghost(parts));
        proof {
            parts = parts + count_part(proposed as nat, " proposed"@);
        }
    }
    assert(parts =~= p1 + count_part(proposed as nat, " proposed"@));
    let ghost p2 = parts;
    if skipped > 0 {
        append_count(&mut s, &mut first, skipped, " unchanged", Ghost(start), Ghost(parts));
        proof {
            parts = parts + count_part(skipped as nat, " unchanged"@);
        }
    }
    assert(parts =~= p2 + count_part(skipped as nat, " unchanged"@));
    let ghost p3 = parts;
    if errors > 0 {
        append_count(&mut s, &mut first, errors, " errors", Ghost(start), Ghost(parts));
        proof {
            parts = parts + count_part(errors as nat, " errors"@);
        }
    }
    assert(parts =~= p3 + count_part(errors as nat, " errors"@));
    assert(parts =~= sync_parts(outcomes@));
    let ghost head = s@;
    let mut j: usize = 0;
    assert(outcomes@.subrange(0, 0) =~= Seq::<SyncOutcome>::empty());
    while j < outcomes.len()
        invariant
            j <= outcomes@.len(),
            s@ == head + error_lines(outcomes@.subrange(0, j as int)),
        decreases outcomes@.len() - j,
    {
        assert(outcomes@.subrange(0, j + 1).drop_last() =~= outcomes@.subrange(0, j as int));
        assert(outcomes@.subrange(0, j + 1).last() == outcomes@[j as int]);
        proof {
            reveal_strlit("\n  error: ");
        }
        match &outcomes[j] {
            SyncOutcome::InvalidScope(m) | SyncOutcome::WriteFailed(m) => {
                s.append("\n  error: ");
                s.append(m.as_str());
            },
            _ => {},
        }
        j = j + 1;
    }
    assert(outcomes@.subrange(0, j as int) =~= outcomes@);
    s
}

fn append_count(
    s: &mut String,
    first: &mut bool,
    n: usize,
    label: &str,
    Ghost(start): Ghost<Seq<char>>,
    Ghost(parts): Ghost<Seq<Seq<char>>>,
)
    requires
        *old(first) <==> parts.len() == 0,
        old(s)@ == start + joined(parts),
        n > 0,
    ensures
        *final(first) == false,
        final(s)@ == start + joined(parts + count_part(n as nat, label@)),
{
    let ghost p = crate::error::decimal_digits(n as nat) + label@;
    assert(count_part(n as nat, label@) =~= seq![p]);
    let ghost np = parts + count_part(n as nat, label@);
    assert(np.drop_last() =~= parts);
    assert(np.last() == p);
    if !*first {
        s.append(", ");
    }
    let t = usize_to_decimal(n);
    s.append(t.as_str());
    s.append(label);
    *first = false;
    proof {
        reveal_strlit(", ");
        if parts.len() == 0 {
            assert(np.len() == 1);
            assert(joined(np) == p);
        }
    }
}

/// The sync tool: with a session, nothing to do for no entries; else each memory is
/// synced as `sync_memories` does and the reply counts the outcomes.
pub fn sync_tool<B: StorageBackend>(
    session: Option<&Session>,
    reader_backend: B,
    store_backend: B,
    params: &SyncParams,
) -> (r: Result<String, ToolError>)
    ensures
        session is None ==> (r matches Err(e) && e is InvalidParams),
        session is Some && params.entries@.len() == 0 ==> (r matches Ok(t) && t@ == "nothing to sync"@),
        session is Some ==> (r matches Err(e) ==> e is Internal),
        session matches Some(s) ==> (params.entries@.len() > 0 ==> (r is Ok <==> sync_can_start(s))),
        session matches Some(s) ==> (r matches Ok(t) ==> (params.entries@.len() > 0 ==> exists|
            os: Seq<SyncOutcome>,
            reads: Seq<Option<Seq<u8>>>,
            states: Seq<B>,
        | t@ == sync_reply(os) && states[0] == store_backend && synced(os, reads, states, s, reader_backend, params.entries@))),
{
    let session = require_session(session)?;
    if params.entries.len() == 0 {
        return Ok(String::from_str("nothing to sync"));
    }
    let outcomes = sync_memories(session, reader_backend, store_backend, &params.entries)?;
    Ok(sync_text(&outcomes))
}

// ---------------------------------------------------------------------------
// Permissions
// ---------------------------------------------------------------------------

/// The tool permissions the setup tool adds to the project's settings.
pub open spec fn tool_permissions() -> Seq<Seq<char>> {
    seq![
        "mcp__rok-memory__rok_memory:setup"@,
        "mcp__rok-memory__rok_memory:login"@,
        "mcp__rok-memory__rok_memory:logout"@,
        "mcp__rok-memory__rok_memory:status"@,
        "mcp__rok-memory__rok_memory:list"@,
        "mcp__rok-memory__rok_memory:read"@,
        "mcp__rok-memory__rok_memory:write"@,
        "mcp__rok-memory__rok_memory:grant"@,
        "mcp__rok-memory__rok_memory:propose"@,
        "mcp__rok-memory__rok_memory:sync"@,
    ]
}

/// The tool permissions, in order.
pub fn permission_list() -> (v: Vec<String>)
    ensures
        v@.len() == tool_permissions().len(),
        forall|i: int| 0 <= i < v@.len() ==> (#[trigger] v@[i])@ == tool_permissions()[i],
{
    let mut v: Vec<String> = Vec::new();
    v.push(String::from_str("mcp__rok-memory__rok_memory:setup"));
    v.push(String::from_str("mcp__rok-memory__rok_memory:login"));
    v.push(String::from_str("mcp__rok-memory__rok_memory:logout"));
    v.push(String::from_str("mcp__rok-memory__rok_memory:status"));
    v.push(String::from_str("mcp__rok-memory__rok_memory:list"));
    v.push(String::from_str("mcp__rok-memory__rok_memory:read"));
    v.push(String::from_str("mcp__rok-memory__rok_memory:write"));
    v.push(String::from_str("mcp__rok-memory__rok_memory:grant"));
    v.push(String::from_str("mcp__rok-memory__rok_memory:propose"));
    v.push(String::from_str("mcp__rok-memory__rok_memory:sync"));
    v
}

/// The tool permissions that the allowed list lacks, in order.
pub open spec fn missing_from(allowed: Seq<Seq<char>>, perms: Seq<Seq<char>>) -> Seq<Seq<char>>
    decreases perms.len(),
{
    if perms.len() == 0 {
        seq![]
    } else {
        let prev = missing_from(allowed, perms.drop_last());
        if allowed.contains(perms.last()) {
            prev
        } else {
            prev.push(perms.last())
        }
    }
}

fn contains_text(v: &Vec<String>, t: &String) -> (r: bool)
    ensures
        r == crate::sdk::policy::string_views(v@).contains(t@),
{
    let mut i: usize = 0;
    while i < v.len()
        invariant
            i <= v@.len(),
            forall|k: int| 0 <= k < i ==> v@[k]@ != t@,
        decreases v@.len() - i,
    {
        if v[i] == *t {
            assert(crate::sdk::policy::string_views(v@)[i as int] == t@);
            return true;
        }
        i = i + 1;
    }
    proof {
        if crate::sdk::policy::string_views(v@).contains(t@) {
            let k = choose|k: int| 0 <= k < v@.len() && crate::sdk::policy::string_views(v@)[k] == t@;
            assert(v@[k]@ == t@);
        }
    }
    false
}

/// The tool permissions that are not yet allowed, in order; the setup tool appends them.
pub fn missing_permissions(allowed: &Vec<String>) -> (r: Vec<String>)
    ensures
        crate::sdk::policy::string_views(r@) == missing_from(
            crate::sdk::policy::string_views(allowed@),
            tool_permissions(),
        ),
{
    let perms = permission_list();
    let ghost a = crate::sdk::policy::string_views(allowed@);
    let ghost ps = crate::sdk::policy::string_views(perms@);
    assert(ps =~= tool_permissions());
    let mut r: Vec<String> = Vec::new();
    let mut i: usize = 0;
    assert(ps.subrange(0, 0) =~= Seq::<Seq<char>>::empty());
    assert(crate::sdk::policy::string_views(r@) =~= Seq::<Seq<char>>::empty());
    while i < perms.len()
        invariant
            i <= perms@.len(),
            ps == crate::sdk::policy::string_views(perms@),
            a == crate::sdk::policy::string_views(allowed@),
            crate::sdk::policy::string_views(r@) == missing_from(a, ps.subrange(0, i as int)),
        decreases perms@.len() - i,
    {
        let p = &perms[i];
        let ghost before = r@;
        proof {
            let pre = ps.subrange(0, i + 1);
            assert(pre.drop_last() =~= ps.subrange(0, i as int));
            assert(pre.last() == p@);
        }
        if !contains_text(allowed, p) {
            r.push(p.clone());
            assert(crate::sdk::policy::string_views(r@) =~= crate::sdk::policy::string_views(
                before,
            ).push(p@));
        }
        i = i + 1;
    }
    assert(ps.subrange(0, i as int) =~= ps);
    r
}

} // verus!
