//! An in-memory keyring.
use vstd::prelude::*;
use crate::crypto::{now_unix_secs, x25519_public_key};
use crate::error::{Result, RokError};
use crate::keyring::{KeyStore, ReadKeyInfo, ReadKeyInfoView};
use crate::keys::key_id::{key_id_of, KeyId};
use crate::keys::read::{ExportedReadKey, ExportedReadKeyView, ReadKeyPair};
use crate::keys::spend::SpendKeyPair;
use crate::crypto::ed25519_verifying_key;

verus! {

/// A stored read key: its exported form and its metadata.
struct ReadKeyEntry {
    exported: ExportedReadKey,
    info: ReadKeyInfo,
}

/// The mathematical content of a stored read key.
pub struct ReadEntryView {
    pub key: ExportedReadKeyView,
    pub info: ReadKeyInfoView,
}

/// The mathematical content of a keyring: labelled spend seeds, and read keys.
pub struct KeyringView {
    pub spend: Seq<(Seq<char>, Seq<u8>)>,
    pub read: Seq<ReadEntryView>,
}

/// In-memory keyring for key management.
///
/// Stores spend keys and read keys in memory; persistent storage should encrypt them
/// at rest.
pub struct MemoryKeyring {
    spend_keys: Vec<(String, [u8; 32])>,
    read_keys: Vec<ReadKeyEntry>,
}

spec fn spend_views(v: Seq<(String, [u8; 32])>) -> Seq<(Seq<char>, Seq<u8>)> {
    v.map_values(|p: (String, [u8; 32])| (p.0@, p.1@))
}

spec fn read_views(v: Seq<ReadKeyEntry>) -> Seq<ReadEntryView> {
    v.map_values(|e: ReadKeyEntry| ReadEntryView { key: e.exported@, info: e.info@ })
}

impl View for MemoryKeyring {
    type V = KeyringView;

    closed spec fn view(&self) -> KeyringView {
        KeyringView { spend: spend_views(self.spend_keys@), read: read_views(self.read_keys@) }
    }
}

/// The seed stored under a label, if any.
pub open spec fn spend_seed_of(v: Seq<(Seq<char>, Seq<u8>)>, label: Seq<char>) -> Option<Seq<u8>> {
    if exists|i: int| 0 <= i < v.len() && v[i].0 == label {
        Some(v[choose|i: int| 0 <= i < v.len() && v[i].0 == label].1)
    } else {
        None
    }
}

/// The stored read key with a key identifier, if any.
pub open spec fn read_entry_of(v: Seq<ReadEntryView>, kid: Seq<u8>) -> Option<ReadEntryView> {
    if exists|i: int| 0 <= i < v.len() && v[i].info.key_id == kid {
        Some(v[choose|i: int| 0 <= i < v.len() && v[i].info.key_id == kid])
    } else {
        None
    }
}

/// The index of a label among the spend keys.
pub open spec fn spend_index(v: Seq<(Seq<char>, Seq<u8>)>, label: Seq<char>) -> int {
    choose|i: int| 0 <= i < v.len() && v[i].0 == label
}

/// The index of a key identifier among the read keys.
pub open spec fn read_index(v: Seq<ReadEntryView>, kid: Seq<u8>) -> int {
    choose|i: int| 0 <= i < v.len() && v[i].info.key_id == kid
}

/// The spend keys after storing `seed` under `label` (replacing an earlier one).
pub open spec fn spend_stored(v: Seq<(Seq<char>, Seq<u8>)>, label: Seq<char>, seed: Seq<u8>) -> Seq<(Seq<char>, Seq<u8>)> {
    if spend_seed_of(v, label) is Some {
        v.update(spend_index(v, label), (label, seed))
    } else {
        v.push((label, seed))
    }
}

/// The read keys after storing `e` (replacing one with the same key identifier).
pub open spec fn read_stored(v: Seq<ReadEntryView>, e: ReadEntryView) -> Seq<ReadEntryView> {
    if read_entry_of(v, e.info.key_id) is Some {
        v.update(read_index(v, e.info.key_id), e)
    } else {
        v.push(e)
    }
}

/// The entry stored for a read key at time `now`: not revoked, without label.
pub open spec fn fresh_entry(key: ExportedReadKeyView, now: u64) -> ReadEntryView {
    ReadEntryView {
        key,
        info: ReadKeyInfoView {
            key_id: key_id_of(key.public),
            scope: key.scope,
            parent_key_id: key.parent_key_id,
            created_at: now,
            revoked: false,
            label: None,
        },
    }
}

/// The read keys after marking the one with a key identifier revoked.
pub open spec fn read_revoked(v: Seq<ReadEntryView>, kid: Seq<u8>) -> Seq<ReadEntryView> {
    let i = read_index(v, kid);
    let e = v[i];
    v.update(i, ReadEntryView { info: ReadKeyInfoView { revoked: true, ..e.info }, ..e })
}

/// The read keys after removing the one with a key identifier.
pub open spec fn read_deleted(v: Seq<ReadEntryView>, kid: Seq<u8>) -> Seq<ReadEntryView> {
    v.remove(read_index(v, kid))
}

/// No two read keys share a key identifier.
pub open spec fn unique_key_ids(v: Seq<ReadEntryView>) -> bool {
    forall|a: int, b: int|
        0 <= a < v.len() && 0 <= b < v.len() && a != b ==> (#[trigger] v[a]).info.key_id
            != (#[trigger] v[b]).info.key_id
}

/// No two spend keys share a label.
pub open spec fn unique_labels(v: Seq<(Seq<char>, Seq<u8>)>) -> bool {
    forall|a: int, b: int| 0 <= a < v.len() && 0 <= b < v.len() && a != b ==> (#[trigger] v[a]).0 != (#[trigger] v[b]).0
}

/// Loading a stored read key by its identifier gives back what was stored, whether it
/// replaced an earlier key or was added.
pub proof fn lemma_read_store_load(v: Seq<ReadEntryView>, e: ReadEntryView)
    requires
        unique_key_ids(v),
    ensures
        read_entry_of(read_stored(v, e), e.info.key_id) == Some(e),
        unique_key_ids(read_stored(v, e)),
{
    let kid = e.info.key_id;
    let w = read_stored(v, e);
    let i = if read_entry_of(v, kid) is Some {
        let i = read_index(v, kid);
        assert(0 <= i < v.len() && v[i].info.key_id == kid);
        i
    } else {
        v.len() as int
    };
    assert(w[i] == e);
    assert(unique_key_ids(w)) by {
        assert forall|a: int, b: int| 0 <= a < w.len() && 0 <= b < w.len() && a != b implies (
        #[trigger] w[a]).info.key_id != (#[trigger] w[b]).info.key_id by {
            if a != i && b != i {
                assert(w[a] == v[a] && w[b] == v[b]);
            } else if a == i {
                assert(w[b] == v[b]);
                if read_entry_of(v, kid) is None {
                    assert(!(0 <= b < v.len() && v[b].info.key_id == kid));
                }
            } else {
                assert(w[a] == v[a]);
                if read_entry_of(v, kid) is None {
                    assert(!(0 <= a < v.len() && v[a].info.key_id == kid));
                }
            }
        }
    }
    lemma_read_index(w, kid, i);
}

/// Loading a stored spend key by its label gives back its seed.
pub proof fn lemma_spend_store_load(v: Seq<(Seq<char>, Seq<u8>)>, label: Seq<char>, seed: Seq<u8>)
    requires
        unique_labels(v),
    ensures
        spend_seed_of(spend_stored(v, label, seed), label) == Some(seed),
{
    let w = spend_stored(v, label, seed);
    let i = if spend_seed_of(v, label) is Some {
        let i = spend_index(v, label);
        assert(0 <= i < v.len() && v[i].0 == label);
        i
    } else {
        v.len() as int
    };
    assert(w[i] == (label, seed));
    assert forall|a: int, b: int| 0 <= a < w.len() && 0 <= b < w.len() && a != b implies (
    #[trigger] w[a]).0 != (#[trigger] w[b]).0 by {
        if a != i && b != i {
            assert(w[a] == v[a] && w[b] == v[b]);
        } else if a == i {
            assert(w[b] == v[b]);
            if spend_seed_of(v, label) is None {
                assert(!(0 <= b < v.len() && v[b].0 == label));
            }
        } else {
            assert(w[a] == v[a]);
            if spend_seed_of(v, label) is None {
                assert(!(0 <= a < v.len() && v[a].0 == label));
            }
        }
    }
    lemma_spend_index(w, label, i);
}

/// Storing a read key keeps every key that was there and adds the stored one: afterwards
/// a key identifier is found exactly when it was found before or is the stored key's.
pub proof fn lemma_store_keeps_others(v: Seq<ReadEntryView>, e: ReadEntryView, kid: Seq<u8>)
    ensures
        read_entry_of(read_stored(v, e), kid) is Some <==> (read_entry_of(v, kid) is Some || kid
            == e.info.key_id),
{
    let w = read_stored(v, e);
    let i = if read_entry_of(v, e.info.key_id) is Some {
        let i = read_index(v, e.info.key_id);
        assert(0 <= i < v.len() && v[i].info.key_id == e.info.key_id);
        i
    } else {
        v.len() as int
    };
    assert(0 <= i < w.len() && w[i] == e);
    assert(forall|j: int| 0 <= j < v.len() && j != i ==> w[j] == v[j]);
    if kid == e.info.key_id {
        assert(w[i].info.key_id == kid);
    } else {
        if read_entry_of(v, kid) is Some {
            let j = choose|j: int| 0 <= j < v.len() && v[j].info.key_id == kid;
            assert(j != i);
            assert(w[j].info.key_id == kid);
        }
        if read_entry_of(w, kid) is Some {
            let j = choose|j: int| 0 <= j < w.len() && w[j].info.key_id == kid;
            assert(j != i);
            assert(v[j].info.key_id == kid);
        }
    }
}

/// A revoked read key stays in the keyring, marked revoked, with the same key material.
pub proof fn lemma_revoke_marks(v: Seq<ReadEntryView>, kid: Seq<u8>)
    requires
        unique_key_ids(v),
        read_entry_of(v, kid) is Some,
    ensures
        read_entry_of(read_revoked(v, kid), kid) matches Some(e) && e.info.revoked && e.key
            == read_entry_of(v, kid)->Some_0.key,
{
    let i = read_index(v, kid);
    assert(0 <= i < v.len() && v[i].info.key_id == kid);
    lemma_read_index(v, kid, i);
    let w = read_revoked(v, kid);
    assert forall|a: int, b: int| 0 <= a < w.len() && 0 <= b < w.len() && a != b implies (
    #[trigger] w[a]).info.key_id != (#[trigger] w[b]).info.key_id by {
        assert(w[a].info.key_id == v[a].info.key_id);
        assert(w[b].info.key_id == v[b].info.key_id);
    }
    lemma_read_index(w, kid, i);
}

/// A deleted read key is gone from the keyring.
pub proof fn lemma_delete_forgets(v: Seq<ReadEntryView>, kid: Seq<u8>)
    requires
        unique_key_ids(v),
        read_entry_of(v, kid) is Some,
    ensures
        read_entry_of(read_deleted(v, kid), kid) is None,
{
    let i = read_index(v, kid);
    assert(0 <= i < v.len() && v[i].info.key_id == kid);
    let w = read_deleted(v, kid);
    assert forall|j: int| 0 <= j < w.len() implies w[j].info.key_id != kid by {
        if j < i {
            assert(w[j] == v[j]);
        } else {
            assert(w[j] == v[j + 1]);
        }
    }
}

proof fn lemma_spend_index(v: Seq<(Seq<char>, Seq<u8>)>, label: Seq<char>, i: int)
    requires
        forall|a: int, b: int| 0 <= a < v.len() && 0 <= b < v.len() && a != b ==> (#[trigger] v[a]).0 != (#[trigger] v[b]).0,
        0 <= i < v.len(),
        v[i].0 == label,
    ensures
        spend_index(v, label) == i,
        spend_seed_of(v, label) == Some(v[i].1),
{
    let j = spend_index(v, label);
    assert(0 <= j < v.len() && v[j].0 == label);
    if j != i {
        assert(v[i].0 != v[j].0);
    }
}

proof fn lemma_read_index(v: Seq<ReadEntryView>, kid: Seq<u8>, i: int)
    requires
        forall|a: int, b: int| 0 <= a < v.len() && 0 <= b < v.len() && a != b ==> (#[trigger] v[a]).info.key_id != (#[trigger] v[b]).info.key_id,
        0 <= i < v.len(),
        v[i].info.key_id == kid,
    ensures
        read_index(v, kid) == i,
        read_entry_of(v, kid) == Some(v[i]),
{
    let j = read_index(v, kid);
    assert(0 <= j < v.len() && v[j].info.key_id == kid);
    if j != i {
        assert(v[i].info.key_id != v[j].info.key_id);
    }
}

fn not_found(key_id: &KeyId) -> (e: RokError)
    ensures
        e is KeyNotFound,
{
    RokError::KeyNotFound(key_id.to_base58())
}

impl MemoryKeyring {
    /// Labels and key identifiers are unique, and every stored read key is a valid one
    /// whose metadata matches it.
    #[verifier::type_invariant]
    pub open spec fn inv(self) -> bool {
        let v = self@;
        &&& forall|a: int, b: int|
            0 <= a < v.spend.len() && 0 <= b < v.spend.len() && a != b ==> (#[trigger] v.spend[a]).0
                != (#[trigger] v.spend[b]).0
        &&& forall|a: int, b: int|
            0 <= a < v.read.len() && 0 <= b < v.read.len() && a != b ==> (#[trigger] v.read[a]).info.key_id
                != (#[trigger] v.read[b]).info.key_id
        &&& forall|a: int|
            0 <= a < v.read.len() ==> {
                let e = #[trigger] v.read[a];
                &&& e.key.public == x25519_public_key(e.key.secret)
                &&& e.info.key_id == key_id_of(e.key.public)
            }
    }

    /// Create a new empty keyring.
    pub fn new() -> (k: MemoryKeyring)
        ensures
            k@.spend == Seq::<(Seq<char>, Seq<u8>)>::empty(),
            k@.read == Seq::<ReadEntryView>::empty(),
    {
        let k = MemoryKeyring { spend_keys: Vec::new(), read_keys: Vec::new() };
        assert(k@.spend =~= Seq::<(Seq<char>, Seq<u8>)>::empty());
        assert(k@.read =~= Seq::<ReadEntryView>::empty());
        k
    }

    fn find_spend(&self, label: &String) -> (r: Option<usize>)
        ensures
            match r {
                Some(i) => i < self@.spend.len() && self@.spend[i as int].0 == label@,
                None => spend_seed_of(self@.spend, label@) is None,
            },
    {
        let mut i: usize = 0;
        while i < self.spend_keys.len()
            invariant
                i <= self.spend_keys@.len(),
                self@.spend.len() == self.spend_keys@.len(),
                forall|k: int| 0 <= k < i ==> (#[trigger] self@.spend[k]).0 != label@,
            decreases self.spend_keys@.len() - i,
        {
            if self.spend_keys[i].0 == *label {
                return Some(i);
            }
            i = i + 1;
        }
        None
    }

    fn find_read(&self, key_id: &KeyId) -> (r: Option<usize>)
        ensures
            match r {
                Some(i) => i < self@.read.len() && self@.read[i as int].info.key_id == key_id@,
                None => read_entry_of(self@.read, key_id@) is None,
            },
    {
        let mut i: usize = 0;
        while i < self.read_keys.len()
            invariant
                i <= self.read_keys@.len(),
                self@.read.len() == self.read_keys@.len(),
                forall|k: int| 0 <= k < i ==> (#[trigger] self@.read[k]).info.key_id != key_id@,
            decreases self.read_keys@.len() - i,
        {
            if self.read_keys[i].info.key_id == *key_id {
                return Some(i);
            }
            i = i + 1;
        }
        None
    }

    /// Store a read key, stamped with the time `now`; one stored earlier under the same
    /// key identifier is replaced.
    pub fn store_read_key_at(&mut self, key: &ReadKeyPair, now: u64)
        ensures
            final(self)@.spend == old(self)@.spend,
            final(self)@.read == read_stored(
                old(self)@.read,
                fresh_entry(
                    ExportedReadKeyView {
                        secret: key@.secret,
                        public: key@.public,
                        scope: key@.scope,
                        parent_key_id: key@.parent_key_id,
                    },
                    now,
                ),
            ),
    {
        proof {
            use_type_invariant(&*self);
            use_type_invariant(key);
        }
        let key_id = key.key_id();
        let exported = key.export();
        let info = ReadKeyInfo {
            key_id,
            scope: key.scope().clone(),
            parent_key_id: match key.parent_key_id() {
                Some(p) => Some(*p),
                None => None,
            },
            created_at: now,
            revoked: false,
            label: None,
        };
        let entry = ReadKeyEntry { exported, info };
        let ghost e = ReadEntryView { key: entry.exported@, info: entry.info@ };
        let ghost old_v = self@.read;
        let found = self.find_read(&key_id);
        let mut read_keys: Vec<ReadKeyEntry> = Vec::new();
        assert(read_views(read_keys@) =~= Seq::<ReadEntryView>::empty());
        assert(forall|a: int, b: int|
            0 <= a < self@.spend.len() && 0 <= b < self@.spend.len() && a != b ==> (#[trigger] self@.spend[a]).0
                != (#[trigger] self@.spend[b]).0);
        std::mem::swap(&mut read_keys, &mut self.read_keys);
        match found {
            Some(i) => {
                proof {
                    lemma_read_index(old_v, key_id@, i as int);
                }
                read_keys.set(i, entry);
                proof {
                    assert(read_views(read_keys@) =~= old_v.update(i as int, e));
                }
            },
            None => {
                read_keys.push(entry);
                proof {
                    assert(read_views(read_keys@) =~= old_v.push(e));
                }
            },
        }
        self.read_keys = read_keys;
        proof {
            let nv = self@.read;
            assert forall|a: int, b: int|
                0 <= a < nv.len() && 0 <= b < nv.len() && a != b implies (#[trigger] nv[a]).info.key_id
                    != (#[trigger] nv[b]).info.key_id by {
                if a < old_v.len() && b < old_v.len() && nv[a] == old_v[a] && nv[b] == old_v[b] {
                } else if found is Some {
                    let i = found->Some_0 as int;
                    if a == i {
                        assert(old_v[i].info.key_id != old_v[b].info.key_id);
                    } else {
                        assert(old_v[i].info.key_id != old_v[a].info.key_id);
                    }
                } else {
                    if a == old_v.len() {
                        assert(old_v[b].info.key_id != key_id@);
                    } else {
                        assert(old_v[a].info.key_id != key_id@);
                    }
                }
            }
        }
    }
}

impl Default for MemoryKeyring {
    fn default() -> (k: MemoryKeyring)
        ensures
            k@.spend == Seq::<(Seq<char>, Seq<u8>)>::empty(),
            k@.read == Seq::<ReadEntryView>::empty(),
    {
        MemoryKeyring::new()
    }
}

impl KeyStore for MemoryKeyring {
    fn store_spend_key(&mut self, label: &str, key: &SpendKeyPair) -> (r: Result<()>)
        ensures
            r is Ok,
            final(self)@.spend == spend_stored(old(self)@.spend, label@, key@.seed),
            final(self)@.read == old(self)@.read,
    {
        proof {
            use_type_invariant(&*self);
        }
        let label_str = String::from_str(label);
        let seed = key.seed();
        let ghost old_v = self@.spend;
        let found = self.find_spend(&label_str);
        let mut spend_keys: Vec<(String, [u8; 32])> = Vec::new();
        assert(spend_views(spend_keys@) =~= Seq::<(Seq<char>, Seq<u8>)>::empty());
        assert(forall|a: int|
            0 <= a < self@.read.len() ==> {
                let e = #[trigger] self@.read[a];
                &&& e.key.public == x25519_public_key(e.key.secret)
                &&& e.info.key_id == key_id_of(e.key.public)
            });
        assert(forall|a: int, b: int|
            0 <= a < self@.read.len() && 0 <= b < self@.read.len() && a != b ==> (#[trigger] self@.read[a]).info.key_id
                != (#[trigger] self@.read[b]).info.key_id);
        std::mem::swap(&mut spend_keys, &mut self.spend_keys);
        match found {
            Some(i) => {
                proof {
                    lemma_spend_index(old_v, label@, i as int);
                }
                spend_keys.set(i, (label_str, seed));
                proof {
                    assert(spend_views(spend_keys@) =~= old_v.update(i as int, (label@, seed@)));
                }
            },
            None => {
                spend_keys.push((label_str, seed));
                proof {
                    assert(spend_views(spend_keys@) =~= old_v.push((label@, seed@)));
                }
            },
        }
        self.spend_keys = spend_keys;
        proof {
            let nv = self@.spend;
            assert forall|a: int, b: int|
                0 <= a < nv.len() && 0 <= b < nv.len() && a != b implies (#[trigger] nv[a]).0
                    != (#[trigger] nv[b]).0 by {
                if a < old_v.len() && b < old_v.len() && nv[a] == old_v[a] && nv[b] == old_v[b] {
                } else if found is Some {
                    let i = found->Some_0 as int;
                    if a == i {
                        assert(old_v[i].0 != old_v[b].0);
                    } else {
                        assert(old_v[i].0 != old_v[a].0);
                    }
                } else {
                    if a == old_v.len() {
                        assert(old_v[b].0 != label@);
                    } else {
                        assert(old_v[a].0 != label@);
                    }
                }
            }
        }
        Ok(())
    }

    fn load_spend_key(&self, label: &str) -> (r: Result<SpendKeyPair>)
        ensures
            match spend_seed_of(self@.spend, label@) {
                Some(seed) => r matches Ok(k) && k@.seed == seed && k@.public == ed25519_verifying_key(seed),
                None => r matches Err(e) && e is KeyNotFound,
            },
    {
        proof {
            use_type_invariant(self);
        }
        let label_str = String::from_str(label);
        match self.find_spend(&label_str) {
            Some(i) => {
                proof {
                    lemma_spend_index(self@.spend, label@, i as int);
                }
                Ok(SpendKeyPair::from_seed(&self.spend_keys[i].1))
            },
            None => Err(RokError::KeyNotFound(label_str)),
        }
    }

    fn store_read_key(&mut self, key: &ReadKeyPair) -> (r: Result<()>)
        ensures
            r is Ok,
            final(self)@.spend == old(self)@.spend,
            exists|now: u64|
                final(self)@.read == read_stored(
                    old(self)@.read,
                    fresh_entry(
                        ExportedReadKeyView {
                            secret: key@.secret,
                            public: key@.public,
                            scope: key@.scope,
                            parent_key_id: key@.parent_key_id,
                        },
                        now,
                    ),
                ),
    {
        let now = now_unix_secs();
        self.store_read_key_at(key, now);
        Ok(())
    }

    fn load_read_key(&self, key_id: &KeyId) -> (r: Result<ReadKeyPair>)
        ensures
            match read_entry_of(self@.read, key_id@) {
                Some(e) => if e.info.revoked {
                    r matches Err(err) && err is KeyRevoked
                } else {
                    r matches Ok(k) && k@.secret == e.key.secret && k@.public == e.key.public
                        && k@.scope == e.key.scope && k@.parent_key_id == e.key.parent_key_id
                },
                None => r matches Err(err) && err is KeyNotFound,
            },
    {
        proof {
            use_type_invariant(self);
        }
        match self.find_read(key_id) {
            Some(i) => {
                proof {
                    lemma_read_index(self@.read, key_id@, i as int);
                }
                let entry = &self.read_keys[i];
                if entry.info.revoked {
                    return Err(RokError::KeyRevoked(key_id.to_base58()));
                }
                assert(self@.read[i as int].key.public == x25519_public_key(self@.read[i as int].key.secret));
                ReadKeyPair::import(&entry.exported)
            },
            None => Err(not_found(key_id)),
        }
    }

    fn list_read_keys(&self) -> (r: Result<Vec<ReadKeyInfo>>)
        ensures
            r matches Ok(v) && v@.len() == self@.read.len() && forall|i: int|
                0 <= i < v@.len() ==> (#[trigger] v@[i])@ == self@.read[i].info,
    {
        let mut out: Vec<ReadKeyInfo> = Vec::new();
        let mut i: usize = 0;
        while i < self.read_keys.len()
            invariant
                i <= self.read_keys@.len(),
                self@.read.len() == self.read_keys@.len(),
                out@.len() == i,
                forall|k: int| 0 <= k < i ==> (#[trigger] out@[k])@ == self@.read[k].info,
            decreases self.read_keys@.len() - i,
        {
            out.push(self.read_keys[i].info.duplicate());
            i = i + 1;
        }
        Ok(out)
    }

    fn revoke_key(&mut self, key_id: &KeyId) -> (r: Result<()>)
        ensures
            r is Ok <==> read_entry_of(old(self)@.read, key_id@) is Some,
            r matches Err(e) ==> e is KeyNotFound,
            final(self)@.spend == old(self)@.spend,
            final(self)@.read == if r is Ok {
                read_revoked(old(self)@.read, key_id@)
            } else {
                old(self)@.read
            },
    {
        proof {
            use_type_invariant(&*self);
        }
        let ghost old_v = self@.read;
        match self.find_read(key_id) {
            Some(i) => {
                proof {
                    lemma_read_index(old_v, key_id@, i as int);
                }
                let mut read_keys: Vec<ReadKeyEntry> = Vec::new();
                assert(read_views(read_keys@) =~= Seq::<ReadEntryView>::empty());
                assert(forall|a: int, b: int|
                    0 <= a < self@.spend.len() && 0 <= b < self@.spend.len() && a != b ==> (#[trigger] self@.spend[a]).0
                        != (#[trigger] self@.spend[b]).0);
                std::mem::swap(&mut read_keys, &mut self.read_keys);
                let old_entry = read_keys.remove(i);
                let ReadKeyEntry { exported, info } = old_entry;
                let new_info = ReadKeyInfo { revoked: true, ..info };
                read_keys.insert(i, ReadKeyEntry { exported, info: new_info });
                proof {
                    let e = old_v[i as int];
                    assert(read_views(read_keys@) =~= old_v.update(
                        i as int,
                        ReadEntryView { info: ReadKeyInfoView { revoked: true, ..e.info }, ..e },
                    ));
                }
                self.read_keys = read_keys;
                Ok(())
            },
            None => Err(not_found(key_id)),
        }
    }

    fn is_revoked(&self, key_id: &KeyId) -> (r: Result<bool>)
        ensures
            match read_entry_of(self@.read, key_id@) {
                Some(e) => r == Result::<bool>::Ok(e.info.revoked),
                None => r matches Err(err) && err is KeyNotFound,
            },
    {
        proof {
            use_type_invariant(self);
        }
        match self.find_read(key_id) {
            Some(i) => {
                proof {
                    lemma_read_index(self@.read, key_id@, i as int);
                }
                Ok(self.read_keys[i].info.revoked)
            },
            None => Err(not_found(key_id)),
        }
    }

    fn delete_key(&mut self, key_id: &KeyId) -> (r: Result<()>)
        ensures
            r is Ok <==> read_entry_of(old(self)@.read, key_id@) is Some,
            r matches Err(e) ==> e is KeyNotFound,
            final(self)@.spend == old(self)@.spend,
            final(self)@.read == if r is Ok {
                read_deleted(old(self)@.read, key_id@)
            } else {
                old(self)@.read
            },
    {
        proof {
            use_type_invariant(&*self);
        }
        let ghost old_v = self@.read;
        match self.find_read(key_id) {
            Some(i) => {
                proof {
                    lemma_read_index(old_v, key_id@, i as int);
                }
                let mut read_keys: Vec<ReadKeyEntry> = Vec::new();
                assert(read_views(read_keys@) =~= Seq::<ReadEntryView>::empty());
                assert(forall|a: int, b: int|
                    0 <= a < self@.spend.len() && 0 <= b < self@.spend.len() && a != b ==> (#[trigger] self@.spend[a]).0
                        != (#[trigger] self@.spend[b]).0);
                std::mem::swap(&mut read_keys, &mut self.read_keys);
                read_keys.remove(i);
                proof {
                    assert(read_views(read_keys@) =~= old_v.remove(i as int));
                    let nv = old_v.remove(i as int);
                    assert forall|a: int, b: int|
                        0 <= a < nv.len() && 0 <= b < nv.len() && a != b implies (#[trigger] nv[a]).info.key_id
                            != (#[trigger] nv[b]).info.key_id by {
                        let a2 = if a < i { a } else { a + 1 };
                        let b2 = if b < i { b } else { b + 1 };
                        assert(old_v[a2].info.key_id != old_v[b2].info.key_id);
                    }
                    assert forall|a: int| 0 <= a < nv.len() implies {
                        let e = #[trigger] nv[a];
                        &&& e.key.public == x25519_public_key(e.key.secret)
                        &&& e.info.key_id == key_id_of(e.key.public)
                    } by {
                        let a2 = if a < i { a } else { a + 1 };
                        assert(nv[a] == old_v[a2]);
                    }
                }
                self.read_keys = read_keys;
                Ok(())
            },
            None => Err(not_found(key_id)),
        }
    }
}

} // verus!
