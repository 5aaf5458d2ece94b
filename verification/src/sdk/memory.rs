//! Encrypted memory store: the owner writes memories, agents with scoped read keys
//! read them.
use vstd::prelude::*;
use crate::crypto::x25519_public_key;
use crate::derive::{root_read_secret, scope_read_secret};
use crate::encrypt::{
    decrypt, decrypt_outcome, opens_for, Algorithm, BuilderView, DecryptOutcome, EncryptBuilder,
};
use crate::envelope::{envelope_bytes, lemma_envelope_roundtrip, parse_envelope, reports_fault, EncryptedEnvelope, EnvelopeFault, EnvelopeView};
use crate::error::{Result, RokError};
use crate::keys::key_id::key_id_of;
use crate::keys::read::{ExportedReadKey, ReadKeyPair, ReadKeyView};
use crate::keys::scope::{root_path, valid_scope, Scope};
use crate::keys::spend::{SpendKeyPair, SpendKeyView};
use crate::sdk::storage::{held_under, EntryView, StorageBackend, StorageEntry, StorageId};
use vstd::utf8::encode_utf8;
use vstd::string::StringSliceAdditionalSpecFns;

verus! {

/// A decrypted memory entry.
#[derive(Debug)]
pub struct MemoryEntry {
    pub scope: Scope,
    pub key: String,
    pub data: Vec<u8>,
}

/// The mathematical content of a memory entry.
pub struct MemoryView {
    pub scope: Seq<char>,
    pub key: Seq<char>,
    pub data: Seq<u8>,
}

impl View for MemoryEntry {
    type V = MemoryView;

    open spec fn view(&self) -> MemoryView {
        MemoryView { scope: self.scope@, key: self.key@, data: self.data@ }
    }
}

/// A memory proposed by an agent (plaintext, awaiting the owner's approval).
#[derive(Debug)]
pub struct Proposal {
    pub scope: Scope,
    pub key: String,
    pub plaintext: Vec<u8>,
    pub proposed_by: String,
}

/// The error that reports a failed decryption.
pub open spec fn reports_decrypt(o: DecryptOutcome, e: RokError) -> bool {
    match o {
        DecryptOutcome::BadSignature => e is SignatureVerificationFailed,
        DecryptOutcome::ScopeMismatch => e is ScopeMismatch,
        DecryptOutcome::NoEntry => e is NoMatchingAccessEntry,
        _ => e is DecryptionError,
    }
}

/// What opening stored bytes gives: the envelope they hold, decrypted with the key.
pub enum OpenOutcome {
    Malformed(EnvelopeFault),
    Opened(DecryptOutcome),
}

/// What reading stored bytes with a read key and a spend verifying key gives.
#[verifier::opaque]
pub open spec fn open_outcome(bytes: Seq<u8>, k: ReadKeyView, vk: Seq<u8>) -> OpenOutcome {
    match parse_envelope(bytes) {
        Err(f) => OpenOutcome::Malformed(f),
        Ok(env) => OpenOutcome::Opened(decrypt_outcome(env, k, vk)),
    }
}

/// The builder that seals a memory: scope-based, classical, signed by the spend key.
pub open spec fn memory_builder(spend: SpendKeyView, scope: Seq<char>) -> BuilderView {
    BuilderView {
        algorithm: Algorithm::EciesX25519ChaCha20,
        scope,
        recipients: Seq::empty(),
        spend_key: Some(spend),
        scope_based: true,
    }
}

/// Read stored envelope bytes and decrypt them with a read key.
pub fn open_memory(data: &[u8], read_key: &ReadKeyPair, spend_verifying_key: &[u8; 32]) -> (r: Result<Vec<u8>>)
    ensures
        match open_outcome(data@, read_key@, spend_verifying_key@) {
            OpenOutcome::Malformed(f) => r matches Err(e) && reports_fault(f, e),
            OpenOutcome::Opened(DecryptOutcome::Plaintext(pt)) => r matches Ok(p) && p@ == pt,
            OpenOutcome::Opened(o) => r matches Err(e) && reports_decrypt(o, e),
        },
{
    proof {
        reveal(open_outcome);
    }
    let envelope = EncryptedEnvelope::from_bytes(data)?;
    decrypt(&envelope, read_key, spend_verifying_key)
}

/// Whether `b` seals `content` at `scope` for the spend key: it is the bytes of an
/// envelope, and (where the scope fits its length field) every key of the spend key's
/// hierarchy at the scope or above it opens them to `content`.
#[verifier::opaque]
pub open spec fn memory_sealed(b: Seq<u8>, spend: SpendKeyView, scope: Seq<char>, content: Seq<u8>) -> bool {
    &&& exists|env: EnvelopeView| b == #[trigger] envelope_bytes(env)
    &&& encode_utf8(scope).len() < 0x10000 ==> forall|k: ReadKeyView|
        opens_for(memory_builder(spend, scope), k) ==> #[trigger] open_outcome(b, k, spend.public)
            == OpenOutcome::Opened(DecryptOutcome::Plaintext(content))
}

/// Encrypt a memory at a scope in scope-based mode and give its stored bytes; any key
/// of the spend key's hierarchy at the scope or above it opens them.
pub fn seal_memory(spend_key: &SpendKeyPair, scope: &Scope, content: &[u8]) -> (r: Result<Vec<u8>>)
    ensures
        r is Ok <==> content@.len() / 64 < 4294967295,
        r matches Err(e) ==> e is EncryptionError,
        r matches Ok(b) ==> memory_sealed(b@, spend_key@, scope@, content@),
{
    let mut builder = EncryptBuilder::new(Algorithm::EciesX25519ChaCha20, scope.clone());
    builder.set_spend_key(spend_key);
    builder.set_scope_based();
    assert(builder@ == memory_builder(spend_key@, scope@));
    let envelope = builder.encrypt(content)?;
    let bytes = envelope.to_bytes();
    proof {
        reveal(memory_sealed);
        reveal(open_outcome);
        if encode_utf8(scope@).len() < 0x10000 {
            lemma_envelope_roundtrip(envelope@, seq![]);
            assert(envelope_bytes(envelope@) + seq![] =~= envelope_bytes(envelope@));
        }
    }
    Ok(bytes)
}

/// The memories that a list of stored entries yields to a read key, in order: an entry
/// whose bytes hold no envelope fails the whole listing, an entry that does not decrypt
/// is skipped, and a decrypted entry needs a valid scope.
pub open spec fn collected(es: Seq<EntryView>, k: ReadKeyView, vk: Seq<u8>) -> Option<Seq<MemoryView>>
    decreases es.len(),
{
    if es.len() == 0 {
        Some(seq![])
    } else {
        match collected(es.drop_last(), k, vk) {
            None => None,
            Some(ms) => {
                let e = es.last();
                match open_outcome(e.data, k, vk) {
                    OpenOutcome::Malformed(_) => None,
                    OpenOutcome::Opened(DecryptOutcome::Plaintext(pt)) => if valid_scope(e.scope) {
                        Some(ms.push(MemoryView { scope: e.scope, key: e.key, data: pt }))
                    } else {
                        None
                    },
                    OpenOutcome::Opened(_) => Some(ms),
                }
            },
        }
    }
}

/// Whether `m` is the memory an entry of `es` yields to the key: its scope and key are the
/// entry's, and its data is the plaintext the entry's bytes open to.
pub open spec fn yielded_by(es: Seq<EntryView>, k: ReadKeyView, vk: Seq<u8>, m: MemoryView) -> bool {
    exists|j: int|
        #![trigger es[j]]
        0 <= j < es.len() && m.scope == es[j].scope && m.key == es[j].key && open_outcome(es[j].data, k, vk)
            == OpenOutcome::Opened(DecryptOutcome::Plaintext(m.data))
}

/// Law: listed memories are reported where they are stored. Where a listing succeeds,
/// every memory it gives carries the scope and key of the entry it was decrypted from
/// and that entry's plaintext.
#[verifier::rlimit(60)]
pub proof fn lemma_collected_where_stored(es: Seq<EntryView>, k: ReadKeyView, vk: Seq<u8>)
    ensures
        collected(es, k, vk) matches Some(ms) ==> (forall|i: int|
            0 <= i < ms.len() ==> yielded_by(es, k, vk, #[trigger] ms[i])),
    decreases es.len(),
{
    if es.len() > 0 {
        let e0 = es.drop_last();
        lemma_collected_where_stored(e0, k, vk);
        if collected(es, k, vk) is Some {
            let rest = collected(e0, k, vk)->Some_0;
            let ms = collected(es, k, vk)->Some_0;
            let n = es.len() - 1;
            let last = es[n];
            let o = open_outcome(last.data, k, vk);
            let opened = o matches OpenOutcome::Opened(DecryptOutcome::Plaintext(_));
            assert(opened ==> ms == rest.push(MemoryView { scope: last.scope, key: last.key, data: o->Opened_0->Plaintext_0 }));
            assert(!opened ==> ms == rest);
            assert forall|i: int| 0 <= i < ms.len() implies yielded_by(es, k, vk, #[trigger] ms[i]) by {
                if i < rest.len() {
                    assert(ms[i] == rest[i]);
                    assert(yielded_by(e0, k, vk, rest[i]));
                    let j = choose|j: int|
                        #![trigger e0[j]]
                        0 <= j < e0.len() && rest[i].scope == e0[j].scope && rest[i].key == e0[j].key && open_outcome(
                            e0[j].data,
                            k,
                            vk,
                        ) == OpenOutcome::Opened(DecryptOutcome::Plaintext(rest[i].data));
                    assert(es[j] == e0[j]);
                } else {
                    assert(ms.len() != rest.len());
                    assert(es[n] == last);
                }
            }
        }
    }
}

/// Law: a listing leaves out no memory the key reads. Where a listing succeeds, every
/// entry whose bytes open to a plaintext under the key is listed with its own scope, key
/// and plaintext.
#[verifier::rlimit(100)]
pub proof fn lemma_collected_complete(es: Seq<EntryView>, k: ReadKeyView, vk: Seq<u8>)
    ensures
        collected(es, k, vk) matches Some(ms) ==> (forall|j: int|
            0 <= j < es.len() ==> (open_outcome((#[trigger] es[j]).data, k, vk) matches OpenOutcome::Opened(
                DecryptOutcome::Plaintext(pt),
            ) ==> ms.contains(MemoryView { scope: es[j].scope, key: es[j].key, data: pt }))),
    decreases es.len(),
{
    if es.len() > 0 {
        let e0 = es.drop_last();
        lemma_collected_complete(e0, k, vk);
        if collected(es, k, vk) is Some {
            let rest = collected(e0, k, vk)->Some_0;
            let ms = collected(es, k, vk)->Some_0;
            let n = es.len() - 1;
            let last = es[n];
            let o = open_outcome(last.data, k, vk);
            let opened = o matches OpenOutcome::Opened(DecryptOutcome::Plaintext(_));
            assert(opened ==> ms == rest.push(MemoryView { scope: last.scope, key: last.key, data: o->Opened_0->Plaintext_0 }));
            assert(!opened ==> ms == rest);
            assert forall|j: int| 0 <= j < es.len() implies (open_outcome((#[trigger] es[j]).data, k, vk) matches OpenOutcome::Opened(
                DecryptOutcome::Plaintext(pt),
            ) ==> ms.contains(MemoryView { scope: es[j].scope, key: es[j].key, data: pt })) by {
                let oj = open_outcome(es[j].data, k, vk);
                if oj matches OpenOutcome::Opened(DecryptOutcome::Plaintext(_)) {
                    let pt = oj->Opened_0->Plaintext_0;
                    let m = MemoryView { scope: es[j].scope, key: es[j].key, data: pt };
                    if j < n {
                        assert(es[j] == e0[j]);
                        assert(rest.contains(m));
                        let x = choose|x: int| 0 <= x < rest.len() && rest[x] == m;
                        assert(ms[x] == rest[x]);
                    } else {
                        assert(ms[rest.len() as int] == m);
                    }
                }
            }
        }
    }
}

/// The views of a sequence of memories.
pub open spec fn memory_views(v: Seq<MemoryEntry>) -> Seq<MemoryView> {
    v.map_values(|m: MemoryEntry| m@)
}

/// Whether a text can be cut after `limit` bytes: it is no longer, or the cut falls on a
/// character boundary.
pub open spec fn cut_ok(text: Seq<char>, limit: nat) -> bool {
    encode_utf8(text).len() > limit ==> vstd::utf8::is_char_boundary(encode_utf8(text), limit as int)
}

/// A text shortened to its first `limit` bytes and the marker, where it is longer.
pub open spec fn preview_of(text: Seq<char>, limit: nat, marker: Seq<char>) -> Seq<char> {
    if encode_utf8(text).len() > limit {
        vstd::utf8::decode_utf8(encode_utf8(text).subrange(0, limit as int)) + marker
    } else {
        text
    }
}

/// The preview of a text: at most `limit` bytes of it, then the marker where it was cut.
pub fn preview(text: &str, limit: usize, marker: &str) -> (r: String)
    requires
        cut_ok(text@, limit as nat),
    ensures
        r@ == preview_of(text@, limit as nat, marker@),
{
    broadcast use vstd::utf8::encode_utf8_valid_utf8;
    let n = text.as_bytes().len();
    assert(text.spec_bytes() == encode_utf8(text@));
    if n > limit {
        let (head, _tail) = text.split_at(limit);
        assert(encode_utf8(head@) == encode_utf8(text@).subrange(0, limit as int));
        proof {
            vstd::utf8::encode_utf8_decode_utf8(head@);
        }
        assert(head@ == vstd::utf8::decode_utf8(encode_utf8(text@).subrange(0, limit as int)));
        let mut s = String::from_str(head);
        s.append(marker);
        s
    } else {
        assert(encode_utf8(text@).len() <= limit);
        String::from_str(text)
    }
}

/// The line that lists a memory: its scope, key and a preview of its text.
pub open spec fn entry_line(m: MemoryView, limit: nat, marker: Seq<char>) -> Seq<char> {
    "  ["@ + m.scope + "] "@ + m.key + " = "@ + preview_of(crate::crypto::utf8_lossy_text(m.data), limit, marker)
}

/// The lines that list memories, one per memory, where every preview can be cut; `None`
/// where a cut would split a character (there the listing fails).
pub fn preview_lines(entries: &Vec<MemoryEntry>, limit: usize, marker: &str) -> (r: Option<Vec<String>>)
    ensures
        r is Some <==> forall|i: int|
            0 <= i < entries@.len() ==> cut_ok(crate::crypto::utf8_lossy_text((#[trigger] entries@[i]).data@), limit as nat),
        r matches Some(v) ==> v@.len() == entries@.len() && forall|i: int|
            0 <= i < v@.len() ==> (#[trigger] v@[i])@ == entry_line(entries@[i]@, limit as nat, marker@),
{
    broadcast use vstd::utf8::encode_utf8_valid_utf8;
    let mut out: Vec<String> = Vec::new();
    let mut i: usize = 0;
    while i < entries.len()
        invariant
            i <= entries@.len(),
            out@.len() == i,
            forall|j: int|
                0 <= j < i ==> cut_ok(crate::crypto::utf8_lossy_text((#[trigger] entries@[j]).data@), limit as nat),
            forall|j: int|
                0 <= j < i ==> (#[trigger] out@[j])@ == entry_line(entries@[j]@, limit as nat, marker@),
        decreases entries@.len() - i,
    {
        let e = &entries[i];
        let text = crate::crypto::utf8_lossy(e.data.as_slice());
        let t = text.as_str();
        assert(t@ == crate::crypto::utf8_lossy_text(entries@[i as int].data@));
        if t.as_bytes().len() > limit && !t.is_char_boundary(limit) {
            return None;
        }
        let p = preview(t, limit, marker);
        let mut line = String::from_str("  [");
        line.append(e.scope.as_str());
        line.append("] ");
        line.append(e.key.as_str());
        line.append(" = ");
        line.append(p.as_str());
        out.push(line);
        i = i + 1;
    }
    Some(out)
}

proof fn lemma_collected_none_persists(es: Seq<EntryView>, k: ReadKeyView, vk: Seq<u8>, i: int)
    requires
        0 <= i <= es.len(),
        collected(es.subrange(0, i), k, vk) is None,
    ensures
        collected(es, k, vk) is None,
    decreases es.len() - i,
{
    if i < es.len() {
        let pre = es.subrange(0, i + 1);
        assert(pre.drop_last() =~= es.subrange(0, i));
        lemma_collected_none_persists(es, k, vk, i + 1);
    } else {
        assert(es.subrange(0, i) =~= es);
    }
}

/// Decrypt the listed entries that a read key opens.
pub fn collect_memories(entries: &Vec<StorageEntry>, read_key: &ReadKeyPair, spend_verifying_key: &[u8; 32]) -> (r: Result<Vec<MemoryEntry>>)
    ensures
        match collected(crate::sdk::storage::entry_views(entries@), read_key@, spend_verifying_key@) {
            Some(ms) => r matches Ok(v) && memory_views(v@) == ms,
            None => r is Err,
        },
{
    let ghost es = crate::sdk::storage::entry_views(entries@);
    let mut memories: Vec<MemoryEntry> = Vec::new();
    let mut i: usize = 0;
    assert(es.subrange(0, 0) =~= Seq::<EntryView>::empty());
    assert(memory_views(memories@) =~= Seq::<MemoryView>::empty());
    while i < entries.len()
        invariant
            i <= entries@.len(),
            es == crate::sdk::storage::entry_views(entries@),
            collected(es.subrange(0, i as int), read_key@, spend_verifying_key@) == Some(
                memory_views(memories@),
            ),
        decreases entries@.len() - i,
    {
        let entry = &entries[i];
        let ghost before = memories@;
        let ghost pre = es.subrange(0, i + 1);
        proof {
            reveal(open_outcome);
            assert(pre.drop_last() =~= es.subrange(0, i as int));
            assert(pre.last() == entry@);
        }
        let envelope = match EncryptedEnvelope::from_bytes(entry.data.as_slice()) {
            Ok(e) => e,
            Err(e) => {
                proof {
                    lemma_collected_none_persists(es, read_key@, spend_verifying_key@, i + 1);
                }
                return Err(e);
            },
        };
        match decrypt(&envelope, read_key, spend_verifying_key) {
            Ok(data) => {
                let entry_scope = match Scope::new(entry.scope.as_str()) {
                    Ok(s) => s,
                    Err(_) => {
                        proof {
                            lemma_collected_none_persists(es, read_key@, spend_verifying_key@, i + 1);
                        }
                        return Err(RokError::StorageError(String::from_str("bad scope in storage")));
                    },
                };
                let m = MemoryEntry { scope: entry_scope, key: entry.key.clone(), data };
                memories.push(m);
                assert(memory_views(memories@) =~= memory_views(before).push(m@));
            },
            Err(_) => {},
        }
        i = i + 1;
    }
    assert(es.subrange(0, es.len() as int) =~= es);
    Ok(memories)
}

/// A read gives back what a write stored: when a store's backend holds, at a scope and
/// key, bytes that seal `content` for the store's spend key, and a read at that place with
/// a key of the spend key's hierarchy at the scope or above it gives `p`, then `p` is
/// `content`.
pub proof fn lemma_read_after_write<B: StorageBackend>(
    store: MemoryStore<B>,
    scope: Seq<char>,
    key: Seq<char>,
    content: Seq<u8>,
    k: ReadKeyView,
    p: Seq<u8>,
)
    requires
        exists|b: Seq<u8>|
            store.stored_backend().data_at(scope, key) == Some(b) && #[trigger] memory_sealed(
                b,
                store.spend_key()@,
                scope,
                content,
            ),
        store.stored_backend().data_at(scope, key) matches Some(b) && open_outcome(b, k, store.spend_key()@.public)
            == OpenOutcome::Opened(DecryptOutcome::Plaintext(p)),
        encode_utf8(scope).len() < 0x10000,
        opens_for(memory_builder(store.spend_key()@, scope), k),
    ensures
        p == content,
{
    reveal(memory_sealed);
}

/// High-level encrypted memory store over a storage backend.
///
/// The owner (with the spend key) encrypts and stores memories. Agents (with scoped
/// read keys) can read memories at their scope and propose new ones.
pub struct MemoryStore<B: StorageBackend> {
    spend_key: SpendKeyPair,
    backend: B,
}

impl<B: StorageBackend> MemoryStore<B> {
    /// A store owned by `spend_key` over `backend`.
    pub fn new(spend_key: SpendKeyPair, backend: B) -> (s: Self)
        ensures
            s.spend_key()@ == spend_key@,
            s.stored_backend() == backend,
    {
        MemoryStore { spend_key, backend }
    }

    /// The storage backend the store writes to.
    pub closed spec fn stored_backend(&self) -> B {
        self.backend
    }

    /// The spend key that owns this store.
    pub closed spec fn spend_key(&self) -> SpendKeyPair {
        self.spend_key
    }

    /// Encrypt and store a memory at a scope using scope-based encryption, so that any
    /// read key at the scope (or an ancestor) can decrypt it. The backend receives the
    /// sealed bytes; a memory too long to seal is refused with the backend untouched.
    pub fn write(&mut self, scope: &Scope, key: &str, content: &[u8]) -> (r: Result<StorageId>)
        ensures
            content@.len() / 64 >= 4294967295 ==> (r matches Err(e) && e is EncryptionError)
                && final(self).stored_backend() == old(self).stored_backend(),
            r is Ok ==> exists|b: Seq<u8>|
                final(self).stored_backend().data_at(scope@, key@) == Some(b) && #[trigger] memory_sealed(
                    b,
                    old(self).spend_key()@,
                    scope@,
                    content@,
                ),
            final(self).spend_key() == old(self).spend_key(),
    {
        let bytes = seal_memory(&self.spend_key, scope, content)?;
        let s = scope.as_str();
        let d = bytes.as_slice();
        let r = self.backend.put(s, key, d);
        proof {
            if r is Ok {
                assert(d@ == bytes@);
                assert(self.stored_backend().data_at(scope@, key@) == Some(bytes@));
                assert(old(self).spend_key() == self.spend_key);
                assert(memory_sealed(bytes@, old(self).spend_key()@, scope@, content@));
            }
        }
        r
    }

    /// Read and decrypt a memory using a scoped read key: the plaintext of the bytes the
    /// backend holds at `scope`/`key`.
    pub fn read(&self, read_key: &ReadKeyPair, scope: &Scope, key: &str) -> (r: Result<Vec<u8>>)
        ensures
            r matches Ok(p) ==> self.stored_backend().data_at(scope@, key@) matches Some(b)
                && open_outcome(b, read_key@, self.spend_key()@.public)
                == OpenOutcome::Opened(DecryptOutcome::Plaintext(p@)),
    {
        let entry = self.backend.get_by_key(scope.as_str(), key)?;
        let vk = self.spend_key.verifying_key();
        let r = open_memory(entry.data.as_slice(), read_key, &vk);
        proof {
            if r is Ok {
                assert(open_outcome(entry.data@, read_key@, self.spend_key()@.public)
                    == OpenOutcome::Opened(DecryptOutcome::Plaintext(r->Ok_0@)));
            }
        }
        r
    }

    /// List and decrypt all memories visible to a read key (its scope and below): the
    /// memories that the entries the backend lists under the key's scope yield.
    pub fn list(&self, read_key: &ReadKeyPair) -> (r: Result<Vec<MemoryEntry>>)
        ensures
            r matches Ok(v) ==> exists|es: Seq<EntryView>|
                held_under(self.stored_backend(), es, read_key@.scope) && #[trigger] collected(
                    es,
                    read_key@,
                    self.spend_key()@.public,
                ) == Some(memory_views(v@)),
    {
        let entries = self.backend.list(read_key.scope().as_str())?;
        let vk = self.spend_key.verifying_key();
        let r = collect_memories(&entries, read_key, &vk);
        proof {
            if r is Ok {
                let es = crate::sdk::storage::entry_views(entries@);
                assert forall|i: int| 0 <= i < es.len() implies es[i] == (#[trigger] entries@[i])@ by {}
                assert(held_under(self.backend, es, read_key@.scope));
                assert(collected(es, read_key@, self.spend_key()@.public) == Some(memory_views(r->Ok_0@)));
            }
        }
        r
    }

    /// Accept a proposed memory from an agent: encrypt and store it at its scope.
    pub fn accept_proposal(&mut self, proposal: &Proposal) -> (r: Result<StorageId>)
        ensures
            proposal.plaintext@.len() / 64 >= 4294967295 ==> (r matches Err(e) && e is EncryptionError)
                && final(self).stored_backend() == old(self).stored_backend(),
            r is Ok ==> exists|b: Seq<u8>|
                final(self).stored_backend().data_at(proposal.scope@, proposal.key@) == Some(b)
                    && #[trigger] memory_sealed(
                    b,
                    old(self).spend_key()@,
                    proposal.scope@,
                    proposal.plaintext@,
                ),
            final(self).spend_key() == old(self).spend_key(),
    {
        self.write(&proposal.scope, proposal.key.as_str(), proposal.plaintext.as_slice())
    }

    /// Export the read key of a scope for delegation to an agent, who can then decrypt
    /// memories at the scope and below.
    pub fn grant_access(&self, scope: &Scope) -> (r: Result<ExportedReadKey>)
        ensures
            r matches Ok(e) && e@.secret == scope_read_secret(self.spend_key()@.seed, scope@)
                && e@.public == x25519_public_key(e@.secret) && e@.scope == scope@
                && e@.parent_key_id == if scope@ == root_path() {
                    None
                } else {
                    Some(key_id_of(x25519_public_key(root_read_secret(self.spend_key()@.seed))))
                },
    {
        let root = self.spend_key.derive_root_read_key();
        if scope.is_root() {
            return Ok(root.export());
        }
        proof {
            crate::keys::scope::lemma_root_ancestor_of_all(scope@);
        }
        let scoped_key = root.derive_child(scope)?;
        Ok(scoped_key.export())
    }

    /// The underlying storage backend.
    pub fn backend(&self) -> (b: &B)
        ensures
            *b == self.stored_backend(),
    {
        &self.backend
    }
}

/// Read-only view of a memory store for agents, who hold a scoped read key and the
/// spend verifying key; they can list and decrypt memories but not write.
pub struct MemoryReader<B: StorageBackend> {
    spend_vk: [u8; 32],
    backend: B,
}

impl<B: StorageBackend> MemoryReader<B> {
    /// A reader that checks signatures against `spend_vk`.
    pub fn new(spend_vk: [u8; 32], backend: B) -> (s: Self)
        ensures
            s.spend_vk() == spend_vk@,
            s.stored_backend() == backend,
    {
        MemoryReader { spend_vk, backend }
    }

    /// The storage backend the reader reads from.
    pub closed spec fn stored_backend(&self) -> B {
        self.backend
    }

    /// The verifying key that signatures are checked against.
    pub closed spec fn spend_vk(&self) -> Seq<u8> {
        self.spend_vk@
    }

    /// Read and decrypt a memory using a scoped read key: the plaintext of the bytes the
    /// backend holds at `scope`/`key`.
    pub fn read(&self, read_key: &ReadKeyPair, scope: &Scope, key: &str) -> (r: Result<Vec<u8>>)
        ensures
            r matches Ok(p) ==> self.stored_backend().data_at(scope@, key@) matches Some(b)
                && open_outcome(b, read_key@, self.spend_vk())
                == OpenOutcome::Opened(DecryptOutcome::Plaintext(p@)),
    {
        let entry = self.backend.get_by_key(scope.as_str(), key)?;
        let r = open_memory(entry.data.as_slice(), read_key, &self.spend_vk);
        proof {
            if r is Ok {
                assert(open_outcome(entry.data@, read_key@, self.spend_vk())
                    == OpenOutcome::Opened(DecryptOutcome::Plaintext(r->Ok_0@)));
            }
        }
        r
    }

    /// List and decrypt all memories visible to a read key (its scope and below): the
    /// memories that the entries the backend lists under the key's scope yield.
    pub fn list(&self, read_key: &ReadKeyPair) -> (r: Result<Vec<MemoryEntry>>)
        ensures
            r matches Ok(v) ==> exists|es: Seq<EntryView>|
                held_under(self.stored_backend(), es, read_key@.scope) && #[trigger] collected(
                    es,
                    read_key@,
                    self.spend_vk(),
                ) == Some(memory_views(v@)),
    {
        let entries = self.backend.list(read_key.scope().as_str())?;
        let r = collect_memories(&entries, read_key, &self.spend_vk);
        proof {
            if r is Ok {
                let es = crate::sdk::storage::entry_views(entries@);
                assert forall|i: int| 0 <= i < es.len() implies es[i] == (#[trigger] entries@[i])@ by {}
                assert(held_under(self.backend, es, read_key@.scope));
                assert(collected(es, read_key@, self.spend_vk()) == Some(memory_views(r->Ok_0@)));
            }
        }
        r
    }

    /// The underlying storage backend.
    pub fn backend(&self) -> (b: &B)
        ensures
            *b == self.stored_backend(),
    {
        &self.backend
    }
}

} // verus!
