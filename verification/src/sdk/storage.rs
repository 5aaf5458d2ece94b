//! Storage of opaque encrypted blobs by scope and key.
use vstd::prelude::*;
use crate::crypto::now_unix_secs;
use crate::error::{Result, RokError};
use crate::keys::scope::root_path;

verus! {

/// Unique identifier for a stored item (backend-specific).
#[derive(Debug, Clone, PartialEq, Eq, Hash)]
pub struct StorageId(pub String);

/// A single entry in the storage backend.
#[derive(Debug)]
pub struct StorageEntry {
    pub id: StorageId,
    /// Scope path, e.g. "/finance/q1".
    pub scope: String,
    /// Logical name, e.g. "2024-q1-report".
    pub key: String,
    /// Raw encrypted envelope bytes.
    pub data: Vec<u8>,
    pub created_at: u64,
    pub updated_at: u64,
}

/// The mathematical content of a storage entry.
pub struct EntryView {
    pub id: Seq<char>,
    pub scope: Seq<char>,
    pub key: Seq<char>,
    pub data: Seq<u8>,
    pub created_at: u64,
    pub updated_at: u64,
}

impl View for StorageEntry {
    type V = EntryView;

    open spec fn view(&self) -> EntryView {
        EntryView {
            id: self.id.0@,
            scope: self.scope@,
            key: self.key@,
            data: self.data@,
            created_at: self.created_at,
            updated_at: self.updated_at,
        }
    }
}

/// The views of a sequence of entries.
pub open spec fn entry_views(v: Seq<StorageEntry>) -> Seq<EntryView> {
    v.map_values(|e: StorageEntry| e@)
}

impl StorageEntry {
    /// An exact copy of this entry.
    pub fn duplicate(&self) -> (r: StorageEntry)
        ensures
            r@ == self@,
    {
        let r = StorageEntry {
            id: StorageId(self.id.0.clone()),
            scope: self.scope.clone(),
            key: self.key.clone(),
            data: crate::bytes::copy_range(self.data.as_slice(), 0, self.data.len()),
            created_at: self.created_at,
            updated_at: self.updated_at,
        };
        assert(self.data@.subrange(0, self.data@.len() as int) =~= self.data@);
        r
    }
}

/// The identifier of the entry at `scope` and `key`: the scope, `/`, then the key.
pub open spec fn composite_key(scope: Seq<char>, key: Seq<char>) -> Seq<char> {
    scope + seq!['/'] + key
}

/// Whether an entry at scope `s` is listed under the prefix `p`: it is `p`, it lies
/// below `p`, or `p` is the root.
pub open spec fn listed_under(s: Seq<char>, p: Seq<char>) -> bool {
    ||| s == p
    ||| (s.len() > p.len() && s.subrange(0, p.len() as int) == p && s[p.len() as int] == '/')
    ||| p == root_path()
}

/// The predicate "listed under `p`" on entries.
pub open spec fn under(p: Seq<char>) -> spec_fn(EntryView) -> bool {
    |e: EntryView| listed_under(e.scope, p)
}

/// The entry with identifier `id`, if any (the first, though identifiers are unique).
pub open spec fn lookup(v: Seq<EntryView>, id: Seq<char>) -> Option<EntryView> {
    if exists|i: int| 0 <= i < v.len() && v[i].id == id {
        Some(v[choose|i: int| 0 <= i < v.len() && v[i].id == id])
    } else {
        None
    }
}

/// Every entry is identified by its place: its scope, `/`, then its key.
pub open spec fn keyed_by_place(v: Seq<EntryView>) -> bool {
    forall|i: int| 0 <= i < v.len() ==> (#[trigger] v[i]).id == composite_key(v[i].scope, v[i].key)
}

/// No two entries share an identifier.
pub open spec fn unique_ids(v: Seq<EntryView>) -> bool {
    forall|i: int, j: int|
        0 <= i < v.len() && 0 <= j < v.len() && i != j ==> (#[trigger] v[i]).id != (#[trigger] v[j]).id
}

/// The entries after storing `data` at `scope`/`key` at time `now`: an entry with the
/// same identifier is replaced in place (keeping its creation time), otherwise the new
/// entry is appended.
pub open spec fn stored(v: Seq<EntryView>, scope: Seq<char>, key: Seq<char>, data: Seq<u8>, now: u64) -> Seq<EntryView> {
    let id = composite_key(scope, key);
    if exists|i: int| 0 <= i < v.len() && v[i].id == id {
        let i = choose|i: int| 0 <= i < v.len() && v[i].id == id;
        v.update(
            i,
            EntryView { id, scope, key, data, created_at: v[i].created_at, updated_at: now },
        )
    } else {
        v.push(EntryView { id, scope, key, data, created_at: now, updated_at: now })
    }
}

/// The entries after deleting the one with identifier `id`.
pub open spec fn deleted(v: Seq<EntryView>, id: Seq<char>) -> Seq<EntryView> {
    if exists|i: int| 0 <= i < v.len() && v[i].id == id {
        v.remove(choose|i: int| 0 <= i < v.len() && v[i].id == id)
    } else {
        v
    }
}

/// Backend for persistent encrypted memory storage.
///
/// Implementations store opaque ciphertext bytes (encrypted envelopes). The backend
/// never sees plaintext or scope structure; it just stores blobs. Identifiers are the
/// backend's own; what an implementation owes is stated over `data_at`, the bytes it
/// holds at a scope and key. The contracts below are what code over any backend relies
/// on; an implementation written outside Verus is trusted to keep them.
pub trait StorageBackend {
    /// The bytes the backend holds at `scope`/`key`, if any. An implementation verified
    /// here defines it; for one written outside Verus it is left unknown.
    closed spec fn data_at(&self, scope: Seq<char>, key: Seq<char>) -> Option<Seq<u8>> {
        vstd::pervasive::arbitrary()
    }

    /// Store data at a scope/key, returning the backend-assigned identifier; once it
    /// succeeds, the backend holds `data` there.
    fn put(&mut self, scope: &str, key: &str, data: &[u8]) -> (r: Result<StorageId>)
        ensures
            r is Ok ==> final(self).data_at(scope@, key@) == Some(data@),
    ;

    /// Retrieve an entry by its storage identifier.
    fn get(&self, id: &StorageId) -> Result<StorageEntry>;

    /// Retrieve an entry by scope and key: it holds the bytes the backend holds there.
    fn get_by_key(&self, scope: &str, key: &str) -> (r: Result<StorageEntry>)
        ensures
            r matches Ok(e) ==> self.data_at(scope@, key@) == Some(e.data@),
    ;

    /// List entries whose scope is `scope_prefix` or lies below it; each holds the
    /// bytes the backend holds at its scope and key.
    fn list(&self, scope_prefix: &str) -> (r: Result<Vec<StorageEntry>>)
        ensures
            r matches Ok(v) ==> forall|i: int|
                0 <= i < v@.len() ==> listed_under((#[trigger] v@[i]).scope@, scope_prefix@)
                    && self.data_at(v@[i].scope@, v@[i].key@) == Some(v@[i].data@),
    ;

    /// Delete an entry by its storage identifier.
    fn delete(&mut self, id: &StorageId) -> Result<()>;
}

/// Whether every entry of `es` lies under `prefix` and holds what the backend holds at
/// its scope and key.
pub open spec fn held_under<B: StorageBackend>(backend: B, es: Seq<EntryView>, prefix: Seq<char>) -> bool {
    forall|i: int|
        0 <= i < es.len() ==> listed_under((#[trigger] es[i]).scope, prefix) && backend.data_at(es[i].scope, es[i].key)
            == Some(es[i].data)
}

/// In-memory storage backend for testing and development.
pub struct MemoryStorage {
    entries: Vec<StorageEntry>,
}

impl View for MemoryStorage {
    type V = Seq<EntryView>;

    closed spec fn view(&self) -> Seq<EntryView> {
        entry_views(self.entries@)
    }
}

fn composite(scope: &str, key: &str) -> (r: String)
    ensures
        r@ == composite_key(scope@, key@),
{
    let mut r = String::from_str(scope);
    r.append("/");
    r.append(key);
    proof {
        reveal_strlit("/");
    }
    r
}

pub(crate) fn is_listed_under(s: &str, p: &str) -> (r: bool)
    ensures
        r == listed_under(s@, p@),
{
    let sn = s.unicode_len();
    let pn = p.unicode_len();
    if pn == 1 && p.get_char(0) == '/' {
        assert(p@ =~= root_path());
        return true;
    }
    assert(p@ != root_path()) by {
        if p@ == root_path() {
            assert(p@[0] == '/');
        }
    }
    if pn > sn {
        proof {
            if s@ == p@ {
                assert(false);
            }
        }
        return false;
    }
    let mut i: usize = 0;
    while i < pn
        invariant
            pn == p@.len(),
            sn == s@.len(),
            pn <= sn,
            p@ != root_path(),
            i <= pn,
            forall|k: int| 0 <= k < i ==> s@[k] == p@[k],
        decreases pn - i,
    {
        if s.get_char(i) != p.get_char(i) {
            proof {
                assert(s@ != p@ && s@.subrange(0, pn as int) != p@) by {
                    assert(s@.subrange(0, pn as int)[i as int] == s@[i as int]);
                }
            }
            return false;
        }
        i = i + 1;
    }
    assert(s@.subrange(0, pn as int) =~= p@);
    if pn == sn {
        assert(s@ =~= p@);
        return true;
    }
    s.get_char(pn) == '/' 
}

impl MemoryStorage {
    /// Storage identifiers are unique, and each is its entry's scope and key.
    #[verifier::type_invariant]
    pub open spec fn inv(self) -> bool {
        unique_ids(self@) && keyed_by_place(self@)
    }

    /// An empty store.
    pub fn new() -> (s: MemoryStorage)
        ensures
            s@ == Seq::<EntryView>::empty(),
    {
        let s = MemoryStorage { entries: Vec::new() };
        assert(s@ =~= Seq::<EntryView>::empty());
        s
    }

    fn find(&self, id: &String) -> (r: Option<usize>)
        ensures
            match r {
                Some(i) => i < self@.len() && self@[i as int].id == id@,
                None => !(exists|i: int| 0 <= i < self@.len() && self@[i].id == id@),
            },
    {
        let mut i: usize = 0;
        while i < self.entries.len()
            invariant
                i <= self.entries@.len(),
                self@.len() == self.entries@.len(),
                forall|k: int| 0 <= k < i ==> (#[trigger] self@[k]).id != id@,
            decreases self.entries@.len() - i,
        {
            if self.entries[i].id.0 == *id {
                return Some(i);
            }
            i = i + 1;
        }
        None
    }

    /// Store data at a scope/key at time `now`, returning its identifier.
    pub fn put_at(&mut self, scope: &str, key: &str, data: &[u8], now: u64) -> (r: StorageId)
        ensures
            r.0@ == composite_key(scope@, key@),
            final(self)@ == stored(old(self)@, scope@, key@, data@, now),
    {
        proof {
            use_type_invariant(&*self);
        }
        let id = composite(scope, key);
        let ghost old_v = self@;
        let entry_id = StorageId(id.clone());
        let found = self.find(&id);
        let mut entries: Vec<StorageEntry> = Vec::new();
        std::mem::swap(&mut entries, &mut self.entries);
        match found {
            Some(i) => {
                proof {
                    lemma_unique_choose(old_v, id@, i as int);
                }
                let created_at = entries[i].created_at;
                let e = StorageEntry {
                    id: StorageId(id.clone()),
                    scope: String::from_str(scope),
                    key: String::from_str(key),
                    data: crate::bytes::copy_range(data, 0, data.len()),
                    created_at,
                    updated_at: now,
                };
                entries.set(i, e);
                proof {
                    assert(data@.subrange(0, data@.len() as int) =~= data@);
                    assert(entry_views(entries@) =~= stored(old_v, scope@, key@, data@, now));
                    assert forall|a: int, b: int|
                        0 <= a < entries@.len() && 0 <= b < entries@.len() && a != b
                        implies (#[trigger] entry_views(entries@)[a]).id != (#[trigger] entry_views(entries@)[b]).id by {
                        if a != i && b != i {
                            assert(old_v[a].id != old_v[b].id);
                        } else if a == i {
                            assert(old_v[i as int].id != old_v[b].id);
                        } else {
                            assert(old_v[i as int].id != old_v[a].id);
                        }
                    }
                }
            },
            None => {
                let e = StorageEntry {
                    id: StorageId(id.clone()),
                    scope: String::from_str(scope),
                    key: String::from_str(key),
                    data: crate::bytes::copy_range(data, 0, data.len()),
                    created_at: now,
                    updated_at: now,
                };
                entries.push(e);
                proof {
                    assert(data@.subrange(0, data@.len() as int) =~= data@);
                    assert(entry_views(entries@) =~= stored(old_v, scope@, key@, data@, now));
                }
            },
        }
        self.entries = entries;
        entry_id
    }

    fn get_id(&self, id: &String) -> (r: Result<StorageEntry>)
        ensures
            match lookup(self@, id@) {
                Some(e) => r matches Ok(x) && x@ == e,
                None => r matches Err(err) && err is StorageError,
            },
    {
        proof {
            use_type_invariant(self);
        }
        match self.find(id) {
            Some(i) => {
                proof {
                    lemma_unique_choose(self@, id@, i as int);
                }
                Ok(self.entries[i].duplicate())
            },
            None => {
                let mut m = String::from_str("entry not found: ");
                m.append(id.as_str());
                Err(RokError::StorageError(m))
            },
        }
    }
}

proof fn lemma_unique_choose(v: Seq<EntryView>, id: Seq<char>, i: int)
    requires
        unique_ids(v),
        0 <= i < v.len(),
        v[i].id == id,
    ensures
        (choose|j: int| 0 <= j < v.len() && v[j].id == id) == i,
        lookup(v, id) == Some(v[i]),
{
    let j = choose|j: int| 0 <= j < v.len() && v[j].id == id;
    assert(0 <= j < v.len() && v[j].id == id);
    if j != i {
        assert(v[i].id != v[j].id);
    }
}

/// Reading back a write: after storing `data` at `scope`/`key`, looking up that entry's
/// identifier gives an entry at that scope and key holding `data`.
pub proof fn lemma_read_your_write(v: Seq<EntryView>, scope: Seq<char>, key: Seq<char>, data: Seq<u8>, now: u64)
    requires
        unique_ids(v),
    ensures
        lookup(stored(v, scope, key, data, now), composite_key(scope, key)) matches Some(e) && e.scope
            == scope && e.key == key && e.data == data && e.updated_at == now,
{
    let id = composite_key(scope, key);
    let w = stored(v, scope, key, data, now);
    if exists|i: int| 0 <= i < v.len() && v[i].id == id {
        let i = choose|i: int| 0 <= i < v.len() && v[i].id == id;
        lemma_unique_choose(v, id, i);
        assert(unique_ids(w)) by {
            assert forall|a: int, b: int| 0 <= a < w.len() && 0 <= b < w.len() && a != b implies (
            #[trigger] w[a]).id != (#[trigger] w[b]).id by {
                if a != i && b != i {
                    assert(v[a].id != v[b].id);
                }
            }
        }
        lemma_unique_choose(w, id, i);
    } else {
        let i = v.len() as int;
        assert(unique_ids(w)) by {
            assert forall|a: int, b: int| 0 <= a < w.len() && 0 <= b < w.len() && a != b implies (
            #[trigger] w[a]).id != (#[trigger] w[b]).id by {
                if a != i && b != i {
                    assert(v[a].id != v[b].id);
                } else if a == i {
                    assert(w[b] == v[b]);
                } else {
                    assert(w[a] == v[a]);
                }
            }
        }
        lemma_unique_choose(w, id, i);
    }
}

/// A deleted entry is gone: after deleting an identifier, looking it up finds nothing.
pub proof fn lemma_delete_removes(v: Seq<EntryView>, id: Seq<char>)
    requires
        unique_ids(v),
    ensures
        lookup(deleted(v, id), id) is None,
{
    let w = deleted(v, id);
    if exists|i: int| 0 <= i < v.len() && v[i].id == id {
        let i = choose|i: int| 0 <= i < v.len() && v[i].id == id;
        assert forall|j: int| 0 <= j < w.len() implies w[j].id != id by {
            if j < i {
                assert(w[j] == v[j]);
                assert(v[j].id != v[i].id);
            } else {
                assert(w[j] == v[j + 1]);
                assert(v[j + 1].id != v[i].id);
            }
        }
    }
}

impl Default for MemoryStorage {
    fn default() -> (s: MemoryStorage)
        ensures
            s@ == Seq::<EntryView>::empty(),
    {
        MemoryStorage::new()
    }
}

impl StorageBackend for MemoryStorage {
    /// The data of the entry identified by `scope`/`key`.
    open spec fn data_at(&self, scope: Seq<char>, key: Seq<char>) -> Option<Seq<u8>> {
        match lookup(self@, composite_key(scope, key)) {
            Some(e) => Some(e.data),
            None => None,
        }
    }

    /// Store data at a scope/key, stamped with the current time.
    fn put(&mut self, scope: &str, key: &str, data: &[u8]) -> (r: Result<StorageId>)
        ensures
            r matches Ok(id) && id.0@ == composite_key(scope@, key@),
            exists|now: u64| final(self)@ == stored(old(self)@, scope@, key@, data@, now),
    {
        proof {
            use_type_invariant(&*self);
        }
        let ghost old_v = self@;
        let now = now_unix_secs();
        let id = self.put_at(scope, key, data, now);
        proof {
            lemma_read_your_write(old_v, scope@, key@, data@, now);
        }
        Ok(id)
    }

    fn get(&self, id: &StorageId) -> (r: Result<StorageEntry>)
        ensures
            match lookup(self@, id.0@) {
                Some(e) => r matches Ok(x) && x@ == e,
                None => r matches Err(err) && err is StorageError,
            },
    {
        self.get_id(&id.0)
    }

    fn get_by_key(&self, scope: &str, key: &str) -> (r: Result<StorageEntry>)
        ensures
            match lookup(self@, composite_key(scope@, key@)) {
                Some(e) => r matches Ok(x) && x@ == e,
                None => r matches Err(err) && err is StorageError,
            },
    {
        let id = composite(scope, key);
        self.get_id(&id)
    }

    fn list(&self, scope_prefix: &str) -> (r: Result<Vec<StorageEntry>>)
        ensures
            r matches Ok(v) && entry_views(v@) == self@.filter(under(scope_prefix@)),
    {
        let mut out: Vec<StorageEntry> = Vec::new();
        let mut i: usize = 0;
        while i < self.entries.len()
            invariant
                i <= self.entries@.len(),
                self@.len() == self.entries@.len(),
                entry_views(out@) == self@.subrange(0, i as int).filter(under(scope_prefix@)),
            decreases self.entries@.len() - i,
        {
            let ghost before = out@;
            let e = &self.entries[i];
            let keep = is_listed_under(e.scope.as_str(), scope_prefix);
            if keep {
                let c = e.duplicate();
                out.push(c);
                assert(entry_views(out@) =~= entry_views(before).push(c@));
            }
            i = i + 1;
            proof {
                let pre = self@.subrange(0, i as int);
                assert(pre.drop_last() =~= self@.subrange(0, i - 1));
                assert(pre.last() == e@);
                reveal(Seq::filter);
                assert(under(scope_prefix@)(pre.last()) == keep);
                assert(entry_views(out@) =~= pre.filter(under(scope_prefix@)));
            }
        }
        assert(self@.subrange(0, self@.len() as int) =~= self@);
        proof {
            use_type_invariant(self);
            let f = self@.filter(under(scope_prefix@));
            assert forall|i: int| 0 <= i < out@.len() implies listed_under((#[trigger] out@[i]).scope@, scope_prefix@)
                && self.data_at(out@[i].scope@, out@[i].key@) == Some(out@[i].data@) by {
                assert(entry_views(out@)[i] == out@[i]@);
                self@.lemma_filter_pred(under(scope_prefix@), i);
                assert(f.contains(f[i]));
                self@.lemma_filter_contains_rev(under(scope_prefix@), f[i]);
                let j = choose|j: int| 0 <= j < self@.len() && self@[j] == f[i];
                lemma_unique_choose(self@, self@[j].id, j);
            }
        }
        Ok(out)
    }

    fn delete(&mut self, id: &StorageId) -> (r: Result<()>)
        ensures
            r is Ok <==> lookup(old(self)@, id.0@) is Some,
            r matches Err(e) ==> e is StorageError,
            final(self)@ == deleted(old(self)@, id.0@),
    {
        proof {
            use_type_invariant(&*self);
        }
        let ghost old_v = self@;
        match self.find(&id.0) {
            Some(i) => {
                proof {
                    lemma_unique_choose(old_v, id.0@, i as int);
                }
                let mut entries: Vec<StorageEntry> = Vec::new();
                std::mem::swap(&mut entries, &mut self.entries);
                entries.remove(i);
                proof {
                    assert(entry_views(entries@) =~= old_v.remove(i as int));
                    assert forall|a: int, b: int|
                        0 <= a < entries@.len() && 0 <= b < entries@.len() && a != b
                        implies (#[trigger] entry_views(entries@)[a]).id != (#[trigger] entry_views(entries@)[b]).id by {
                        let a2 = if a < i { a } else { a + 1 };
                        let b2 = if b < i { b } else { b + 1 };
                        assert(old_v[a2].id != old_v[b2].id);
                    }
                }
                self.entries = entries;
                Ok(())
            },
            None => {
                let mut m = String::from_str("entry not found: ");
                m.append(id.0.as_str());
                Err(RokError::StorageError(m))
            },
        }
    }
}

} // verus!
