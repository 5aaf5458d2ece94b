//! An in-memory encrypted document vault with scope-based access control.
use vstd::prelude::*;
use crate::encrypt::{
    decrypt, decrypt_outcome, sealed_for, Algorithm, BuilderView, DecryptOutcome, EncryptBuilder,
    Recipient,
};
use crate::envelope::{EncryptedEnvelope, EnvelopeView};
use crate::error::{Result, RokError};
use crate::keys::read::{ReadKeyPair, ReadKeyView};
use crate::keys::scope::{ancestor_path, Scope};
use crate::keys::spend::{SpendKeyPair, SpendKeyView};

verus! {

/// The builder that encrypts for listed recipients at a scope, signed by the spend key.
pub open spec fn recipients_builder(spend: SpendKeyView, scope: Seq<char>, rs: Seq<Recipient>) -> BuilderView {
    BuilderView {
        algorithm: Algorithm::EciesX25519ChaCha20,
        scope,
        recipients: rs,
        spend_key: Some(spend),
        scope_based: false,
    }
}

/// Encrypt data at a scope for the listed recipients, signed by the spend key.
pub fn encrypt_for(spend_key: &SpendKeyPair, scope: &Scope, data: &[u8], recipients: &[Recipient]) -> (r: Result<EncryptedEnvelope>)
    ensures
        r is Ok <==> (recipients@.len() > 0 && data@.len() / 64 < 4294967295),
        r matches Err(e) ==> e is EncryptionError,
        r matches Ok(e) ==> sealed_for(e@, recipients_builder(spend_key@, scope@, recipients@), data@),
{
    let mut builder = EncryptBuilder::new(Algorithm::EciesX25519ChaCha20, scope.clone());
    builder.add_recipients(recipients);
    builder.set_spend_key(spend_key);
    assert(builder@ == recipients_builder(spend_key@, scope@, recipients@)) by {
        assert(Seq::<Recipient>::empty() + recipients@ =~= recipients@);
    }
    builder.encrypt(data)
}

/// Metadata about a document stored in the vault.
#[derive(Debug)]
pub struct VaultEntry {
    pub name: String,
    pub scope: Scope,
    pub size: usize,
    pub recipient_count: usize,
}

/// An in-memory encrypted document vault.
///
/// The vault holds encrypted documents organized by name. Each document has a scope,
/// and only read keys with access to that scope (or an ancestor) can decrypt it.
pub struct Vault {
    spend_key: SpendKeyPair,
    documents: Vec<(String, EncryptedEnvelope)>,
}

/// The mathematical content of a vault: its owner and its named documents.
pub struct VaultView {
    pub spend: SpendKeyView,
    pub documents: Seq<(Seq<char>, EnvelopeView)>,
}

spec fn document_views(v: Seq<(String, EncryptedEnvelope)>) -> Seq<(Seq<char>, EnvelopeView)> {
    v.map_values(|d: (String, EncryptedEnvelope)| (d.0@, d.1@))
}

impl View for Vault {
    type V = VaultView;

    closed spec fn view(&self) -> VaultView {
        VaultView { spend: self.spend_key@, documents: document_views(self.documents@) }
    }
}

/// The document with a name, if any.
pub open spec fn document_of(docs: Seq<(Seq<char>, EnvelopeView)>, name: Seq<char>) -> Option<EnvelopeView> {
    if exists|i: int| 0 <= i < docs.len() && docs[i].0 == name {
        Some(docs[choose|i: int| 0 <= i < docs.len() && docs[i].0 == name].1)
    } else {
        None
    }
}

/// No two documents share a name.
pub open spec fn unique_names(docs: Seq<(Seq<char>, EnvelopeView)>) -> bool {
    forall|a: int, b: int|
        0 <= a < docs.len() && 0 <= b < docs.len() && a != b ==> (#[trigger] docs[a]).0 != (#[trigger] docs[b]).0
}

/// The documents after storing `e` under `name` (replacing a document of that name).
pub open spec fn document_stored(docs: Seq<(Seq<char>, EnvelopeView)>, name: Seq<char>, e: EnvelopeView) -> Seq<(Seq<char>, EnvelopeView)> {
    if exists|i: int| 0 <= i < docs.len() && docs[i].0 == name {
        docs.update(choose|i: int| 0 <= i < docs.len() && docs[i].0 == name, (name, e))
    } else {
        docs.push((name, e))
    }
}

/// Retrieving a name after storing under it finds what was stored, and names stay unique.
pub proof fn lemma_document_store_load(docs: Seq<(Seq<char>, EnvelopeView)>, name: Seq<char>, e: EnvelopeView)
    requires
        unique_names(docs),
    ensures
        document_of(document_stored(docs, name, e), name) == Some(e),
        unique_names(document_stored(docs, name, e)),
{
    let w = document_stored(docs, name, e);
    let i = if exists|i: int| 0 <= i < docs.len() && docs[i].0 == name {
        choose|i: int| 0 <= i < docs.len() && docs[i].0 == name
    } else {
        docs.len() as int
    };
    assert(w[i] == (name, e));
    assert forall|a: int, b: int| 0 <= a < w.len() && 0 <= b < w.len() && a != b implies (
    #[trigger] w[a]).0 != (#[trigger] w[b]).0 by {
        if a != i && b != i {
            assert(w[a] == docs[a] && w[b] == docs[b]);
        } else if a == i {
            assert(w[b] == docs[b]);
        } else {
            assert(w[a] == docs[a]);
        }
    }
    let j = choose|j: int| 0 <= j < w.len() && w[j].0 == name;
    assert(0 <= j < w.len() && w[j].0 == name);
    if j != i {
        assert(w[i].0 != w[j].0);
    }
}

/// Whether a document at scope `s` passes an optional scope filter.
pub open spec fn passes_filter(filter: Option<Seq<char>>, s: Seq<char>) -> bool {
    match filter {
        Some(f) => ancestor_path(f, s),
        None => true,
    }
}

/// The mathematical content of a vault listing entry.
pub struct VaultEntryView {
    pub name: Seq<char>,
    pub scope: Seq<char>,
    pub size: nat,
    pub recipient_count: nat,
}

impl View for VaultEntry {
    type V = VaultEntryView;

    open spec fn view(&self) -> VaultEntryView {
        VaultEntryView {
            name: self.name@,
            scope: self.scope@,
            size: self.size as nat,
            recipient_count: self.recipient_count as nat,
        }
    }
}

/// The views of a sequence of listing entries.
pub open spec fn entry_views(v: Seq<VaultEntry>) -> Seq<VaultEntryView> {
    v.map_values(|e: VaultEntry| e@)
}

/// The listing of the documents that pass a filter, in order.
pub open spec fn vault_listing(docs: Seq<(Seq<char>, EnvelopeView)>, filter: Option<Seq<char>>) -> Seq<VaultEntryView>
    decreases docs.len(),
{
    if docs.len() == 0 {
        seq![]
    } else {
        let rest = vault_listing(docs.drop_last(), filter);
        let d = docs.last();
        if passes_filter(filter, d.1.scope) {
            rest.push(
                VaultEntryView {
                    name: d.0,
                    scope: d.1.scope,
                    size: d.1.ciphertext.len(),
                    recipient_count: d.1.access_entries.len(),
                },
            )
        } else {
            rest
        }
    }
}

/// Law: a listing with a scope filter holds exactly the documents at or below the filter
/// scope. Every listed entry names a stored document whose scope the filter is an ancestor
/// of (or equal to), and every stored document whose scope lies at or below the filter
/// is listed with its name and scope.
pub proof fn lemma_listing_by_scope(docs: Seq<(Seq<char>, EnvelopeView)>, f: Seq<char>)
    ensures
        forall|i: int|
            0 <= i < vault_listing(docs, Some(f)).len() ==> ancestor_path(f, (#[trigger] vault_listing(docs, Some(f))[i]).scope)
                && exists|j: int|
                0 <= j < docs.len() && docs[j].0 == vault_listing(docs, Some(f))[i].name && docs[j].1.scope
                    == vault_listing(docs, Some(f))[i].scope,
        forall|j: int|
            0 <= j < docs.len() && ancestor_path(f, (#[trigger] docs[j]).1.scope) ==> exists|i: int|
                0 <= i < vault_listing(docs, Some(f)).len() && vault_listing(docs, Some(f))[i].name == docs[j].0
                    && vault_listing(docs, Some(f))[i].scope == docs[j].1.scope,
    decreases docs.len(),
{
    if docs.len() > 0 {
        let d0 = docs.drop_last();
        lemma_listing_by_scope(d0, f);
        let rest = vault_listing(d0, Some(f));
        let l = vault_listing(docs, Some(f));
        let n = docs.len() - 1;
        assert forall|i: int| 0 <= i < l.len() implies ancestor_path(f, (#[trigger] l[i]).scope) && exists|j: int|
            0 <= j < docs.len() && docs[j].0 == l[i].name && docs[j].1.scope == l[i].scope by {
            if i < rest.len() {
                assert(l[i] == rest[i]);
                let j = choose|j: int| 0 <= j < d0.len() && d0[j].0 == rest[i].name && d0[j].1.scope == rest[i].scope;
                assert(docs[j] == d0[j]);
            } else {
                assert(l[i].name == docs[n].0);
            }
        }
        assert forall|j: int| 0 <= j < docs.len() && ancestor_path(f, (#[trigger] docs[j]).1.scope) implies exists|i: int|
            0 <= i < l.len() && l[i].name == docs[j].0 && l[i].scope == docs[j].1.scope by {
            if j < n {
                assert(docs[j] == d0[j]);
                let i = choose|i: int| 0 <= i < rest.len() && rest[i].name == d0[j].0 && rest[i].scope == d0[j].1.scope;
                assert(l[i] == rest[i]);
            } else {
                assert(l[rest.len() as int].name == docs[j].0);
            }
        }
    }
}

/// Law: a listing without a filter lists every document, in order, with its name, scope,
/// ciphertext size and number of recipients.
pub proof fn lemma_listing_unfiltered(docs: Seq<(Seq<char>, EnvelopeView)>)
    ensures
        vault_listing(docs, None).len() == docs.len(),
        forall|i: int|
            0 <= i < docs.len() ==> (#[trigger] vault_listing(docs, None)[i]) == (VaultEntryView {
                name: docs[i].0,
                scope: docs[i].1.scope,
                size: docs[i].1.ciphertext.len(),
                recipient_count: docs[i].1.access_entries.len(),
            }),
    decreases docs.len(),
{
    if docs.len() > 0 {
        lemma_listing_unfiltered(docs.drop_last());
        assert forall|i: int| 0 <= i < docs.len() - 1 implies #[trigger] docs.drop_last()[i] == docs[i] by {}
    }
}

/// The number of documents at or below a scope.
pub open spec fn count_under(docs: Seq<(Seq<char>, EnvelopeView)>, scope: Seq<char>) -> nat
    decreases docs.len(),
{
    if docs.len() == 0 {
        0
    } else {
        count_under(docs.drop_last(), scope) + if ancestor_path(scope, docs.last().1.scope) {
            1nat
        } else {
            0nat
        }
    }
}

/// Whether `new` is what re-keying does to the document `old`: a document at or below
/// the scope keeps its name and is an encryption, for the new recipients at its own
/// scope, of what the root read key decrypts it to; any other document is unchanged.
pub open spec fn rekeyed(
    old: (Seq<char>, EnvelopeView),
    new: (Seq<char>, EnvelopeView),
    scope: Seq<char>,
    root_key: ReadKeyView,
    spend: SpendKeyView,
    rs: Seq<Recipient>,
) -> bool {
    if ancestor_path(scope, old.1.scope) {
        &&& new.0 == old.0
        &&& match decrypt_outcome(old.1, root_key, spend.public) {
            DecryptOutcome::Plaintext(pt) => sealed_for(new.1, recipients_builder(spend, old.1.scope, rs), pt),
            _ => false,
        }
    } else {
        new == old
    }
}

/// Whether re-keying a document succeeds: a document at or below the scope must decrypt
/// with the root read key, and its plaintext must encrypt for the recipients (there is
/// at least one, and the plaintext is within the cipher's limit); any other document is
/// left alone.
pub open spec fn rekey_ok(
    doc: (Seq<char>, EnvelopeView),
    scope: Seq<char>,
    root_key: ReadKeyView,
    spend: SpendKeyView,
    rs: Seq<Recipient>,
) -> bool {
    ancestor_path(scope, doc.1.scope) ==> match decrypt_outcome(doc.1, root_key, spend.public) {
        DecryptOutcome::Plaintext(pt) => rs.len() > 0 && pt.len() / 64 < 4294967295,
        _ => false,
    }
}

proof fn lemma_name_index(docs: Seq<(Seq<char>, EnvelopeView)>, name: Seq<char>, i: int)
    requires
        unique_names(docs),
        0 <= i < docs.len(),
        docs[i].0 == name,
    ensures
        (choose|j: int| 0 <= j < docs.len() && docs[j].0 == name) == i,
        document_of(docs, name) == Some(docs[i].1),
{
    let j = choose|j: int| 0 <= j < docs.len() && docs[j].0 == name;
    assert(0 <= j < docs.len() && docs[j].0 == name);
    if j != i {
        assert(docs[i].0 != docs[j].0);
    }
}

impl Vault {
    /// Document names are unique.
    #[verifier::type_invariant]
    pub open spec fn inv(self) -> bool {
        unique_names(self@.documents)
    }

    /// Create an empty vault owned by the given spend key.
    pub fn new(spend_key: SpendKeyPair) -> (v: Vault)
        ensures
            v@.spend == spend_key@,
            v@.documents == Seq::<(Seq<char>, EnvelopeView)>::empty(),
    {
        let v = Vault { spend_key, documents: Vec::new() };
        assert(v@.documents =~= Seq::<(Seq<char>, EnvelopeView)>::empty());
        v
    }

    fn find(&self, name: &String) -> (r: Option<usize>)
        ensures
            match r {
                Some(i) => i < self@.documents.len() && self@.documents[i as int].0 == name@,
                None => !(exists|i: int| 0 <= i < self@.documents.len() && self@.documents[i].0 == name@),
            },
    {
        let mut i: usize = 0;
        while i < self.documents.len()
            invariant
                i <= self.documents@.len(),
                self@.documents.len() == self.documents@.len(),
                forall|k: int| 0 <= k < i ==> (#[trigger] self@.documents[k]).0 != name@,
            decreases self.documents@.len() - i,
        {
            if self.documents[i].0 == *name {
                return Some(i);
            }
            i = i + 1;
        }
        None
    }

    fn put_document(&mut self, name: String, envelope: EncryptedEnvelope)
        ensures
            final(self)@.spend == old(self)@.spend,
            final(self)@.documents == document_stored(old(self)@.documents, name@, envelope@),
    {
        proof {
            use_type_invariant(&*self);
        }
        let ghost old_v = self@.documents;
        let ghost e = envelope@;
        let ghost n = name@;
        let found = self.find(&name);
        let mut documents: Vec<(String, EncryptedEnvelope)> = Vec::new();
        assert(document_views(documents@) =~= Seq::<(Seq<char>, EnvelopeView)>::empty());
        std::mem::swap(&mut documents, &mut self.documents);
        match found {
            Some(i) => {
                proof {
                    lemma_name_index(old_v, n, i as int);
                }
                documents.set(i, (name, envelope));
                assert(document_views(documents@) =~= old_v.update(i as int, (n, e)));
            },
            None => {
                documents.push((name, envelope));
                assert(document_views(documents@) =~= old_v.push((n, e)));
            },
        }
        proof {
            let nv = document_views(documents@);
            assert forall|a: int, b: int|
                0 <= a < nv.len() && 0 <= b < nv.len() && a != b implies (#[trigger] nv[a]).0 != (#[trigger] nv[b]).0 by {
                if a < old_v.len() && b < old_v.len() && nv[a] == old_v[a] && nv[b] == old_v[b] {
                } else if found is Some {
                    let i = found->Some_0 as int;
                    if a == i {
                        assert(old_v[i].0 != old_v[b].0);
                    } else {
                        assert(old_v[i].0 != old_v[a].0);
                    }
                } else {
                    if a == old_v.len() {
                        assert(old_v[b].0 != n);
                    } else {
                        assert(old_v[a].0 != n);
                    }
                }
            }
        }
        self.documents = documents;
    }

    /// Encrypt a document for the given recipients and store it under a name (replacing
    /// a document of the same name).
    pub fn store(&mut self, name: &str, scope: &Scope, data: &[u8], recipients: &[Recipient]) -> (r: Result<()>)
        ensures
            r is Ok <==> (recipients@.len() > 0 && data@.len() / 64 < 4294967295),
            r matches Err(e) ==> e is EncryptionError && final(self)@ == old(self)@,
            final(self)@.spend == old(self)@.spend,
            r is Ok ==> exists|e: EnvelopeView|
                #![trigger document_stored(old(self)@.documents, name@, e)]
                final(self)@.documents == document_stored(old(self)@.documents, name@, e)
                    && sealed_for(e, recipients_builder(old(self)@.spend, scope@, recipients@), data@),
    {
        let envelope = encrypt_for(&self.spend_key, scope, data, recipients)?;
        let ghost e = envelope@;
        self.put_document(String::from_str(name), envelope);
        assert(self@.documents == document_stored(old(self)@.documents, name@, e));
        Ok(())
    }

    /// Decrypt and retrieve a document using a read key.
    pub fn retrieve(&self, name: &str, read_key: &ReadKeyPair) -> (r: Result<Vec<u8>>)
        ensures
            match document_of(self@.documents, name@) {
                None => r matches Err(e) && e is KeyNotFound,
                Some(env) => match decrypt_outcome(env, read_key@, self@.spend.public) {
                    DecryptOutcome::Plaintext(pt) => r matches Ok(p) && p@ == pt,
                    _ => r is Err,
                },
            },
    {
        proof {
            use_type_invariant(self);
            use_type_invariant(&self.spend_key);
        }
        let name_str = String::from_str(name);
        match self.find(&name_str) {
            Some(i) => {
                proof {
                    lemma_name_index(self@.documents, name@, i as int);
                }
                let vk = self.spend_key.verifying_key();
                decrypt(&self.documents[i].1, read_key, &vk)
            },
            None => {
                let mut m = String::from_str("document '");
                m.append(name);
                m.append("' not found");
                Err(RokError::KeyNotFound(m))
            },
        }
    }

    /// List the documents, optionally only those at or below a scope.
    pub fn list(&self, scope_filter: Option<&Scope>) -> (r: Vec<VaultEntry>)
        ensures
            entry_views(r@) == vault_listing(
                self@.documents,
                match scope_filter {
                    Some(f) => Some(f@),
                    None => None,
                },
            ),
    {
        let ghost filter = match scope_filter {
            Some(f) => Some(f@),
            None => None,
        };
        let ghost docs = self@.documents;
        let mut out: Vec<VaultEntry> = Vec::new();
        let mut i: usize = 0;
        assert(docs.subrange(0, 0) =~= Seq::<(Seq<char>, EnvelopeView)>::empty());
        assert(entry_views(out@) =~= Seq::<VaultEntryView>::empty());
        while i < self.documents.len()
            invariant
                i <= self.documents@.len(),
                docs == self@.documents,
                docs.len() == self.documents@.len(),
                filter == match scope_filter {
                    Some(f) => Some(f@),
                    None => None,
                },
                entry_views(out@) == vault_listing(docs.subrange(0, i as int), filter),
            decreases self.documents@.len() - i,
        {
            let ghost before = out@;
            let doc = &self.documents[i];
            let keep = match scope_filter {
                Some(f) => f.is_ancestor_of(&doc.1.scope),
                None => true,
            };
            if keep {
                let e = VaultEntry {
                    name: doc.0.clone(),
                    scope: doc.1.scope.clone(),
                    size: doc.1.ciphertext.len(),
                    recipient_count: doc.1.access_entries.len(),
                };
                out.push(e);
                assert(entry_views(out@) =~= entry_views(before).push(e@));
            }
            i = i + 1;
            proof {
                let pre = docs.subrange(0, i as int);
                assert(pre.drop_last() =~= docs.subrange(0, i - 1));
                assert(pre.last() == docs[i - 1]);
            }
        }
        assert(docs.subrange(0, docs.len() as int) =~= docs);
        out
    }

    /// Re-encrypt every document at or below a scope for new recipients (for key rotation
    /// and revocation): each is decrypted with the given root read key and encrypted
    /// again at its own scope. Gives the number of documents re-encrypted.
    pub fn rekey(&mut self, scope: &Scope, root_read_key: &ReadKeyPair, new_recipients: &[Recipient]) -> (r: Result<usize>)
        ensures
            final(self)@.spend == old(self)@.spend,
            final(self)@.documents.len() == old(self)@.documents.len(),
            r is Ok <==> forall|i: int|
                0 <= i < old(self)@.documents.len() ==> #[trigger] rekey_ok(
                    old(self)@.documents[i],
                    scope@,
                    root_read_key@,
                    old(self)@.spend,
                    new_recipients@,
                ),
            forall|i: int|
                0 <= i < old(self)@.documents.len() ==> final(self)@.documents[i] == old(self)@.documents[i]
                    || #[trigger] rekeyed(
                    old(self)@.documents[i],
                    final(self)@.documents[i],
                    scope@,
                    root_read_key@,
                    old(self)@.spend,
                    new_recipients@,
                ),
            r matches Ok(n) ==> n == count_under(old(self)@.documents, scope@),
            r matches Ok(n) ==> forall|i: int|
                0 <= i < old(self)@.documents.len() ==> #[trigger] rekeyed(
                    old(self)@.documents[i],
                    final(self)@.documents[i],
                    scope@,
                    root_read_key@,
                    old(self)@.spend,
                    new_recipients@,
                ),
    {
        proof {
            use_type_invariant(&*self);
            use_type_invariant(&self.spend_key);
        }
        let ghost old_docs = self@.documents;
        let vk = self.spend_key.verifying_key();
        let mut count: usize = 0;
        let mut i: usize = 0;
        while i < self.documents.len()
            invariant
                i <= self.documents@.len(),
                self@.spend == old(self)@.spend,
                self@.documents.len() == old_docs.len(),
                old_docs == old(self)@.documents,
                vk@ == self@.spend.public,
                unique_names(self@.documents),
                forall|k: int| 0 <= k < old_docs.len() ==> (#[trigger] self@.documents[k]).0 == old_docs[k].0,
                forall|k: int| i <= k < old_docs.len() ==> #[trigger] self@.documents[k] == old_docs[k],
                forall|k: int| 0 <= k < i ==> #[trigger] rekeyed(
                    old_docs[k],
                    self@.documents[k],
                    scope@,
                    root_read_key@,
                    old(self)@.spend,
                    new_recipients@,
                ),
                count == count_under(old_docs.subrange(0, i as int), scope@),
                count <= i,
                forall|k: int| 0 <= k < i ==> #[trigger] rekey_ok(
                    old_docs[k],
                    scope@,
                    root_read_key@,
                    old(self)@.spend,
                    new_recipients@,
                ),
            decreases old_docs.len() - i,
        {
            proof {
                let pre = old_docs.subrange(0, i + 1);
                assert(pre.drop_last() =~= old_docs.subrange(0, i as int));
                assert(pre.last() == old_docs[i as int]);
                assert(self@.documents[i as int] == old_docs[i as int]);
            }
            if scope.is_ancestor_of(&self.documents[i].1.scope) {
                let plaintext = match decrypt(&self.documents[i].1, root_read_key, &vk) {
                    Ok(p) => p,
                    Err(e) => {
                        assert(!rekey_ok(old_docs[i as int], scope@, root_read_key@, old(self)@.spend, new_recipients@));
                        return Err(e);
                    },
                };
                let new_envelope = match encrypt_for(
                    &self.spend_key,
                    &self.documents[i].1.scope,
                    plaintext.as_slice(),
                    new_recipients,
                ) {
                    Ok(e) => e,
                    Err(e) => {
                        assert(!rekey_ok(old_docs[i as int], scope@, root_read_key@, old(self)@.spend, new_recipients@));
                        return Err(e);
                    },
                };
                assert(rekey_ok(old_docs[i as int], scope@, root_read_key@, old(self)@.spend, new_recipients@));
                let ghost before = self@.documents;
                let mut documents: Vec<(String, EncryptedEnvelope)> = Vec::new();
                assert(document_views(documents@) =~= Seq::<(Seq<char>, EnvelopeView)>::empty());
                std::mem::swap(&mut documents, &mut self.documents);
                let name = documents[i].0.clone();
                documents.set(i, (name, new_envelope));
                proof {
                    let nv = document_views(documents@);
                    assert(nv =~= before.update(i as int, (before[i as int].0, new_envelope@)));
                    assert forall|a: int, b: int|
                        0 <= a < nv.len() && 0 <= b < nv.len() && a != b implies (#[trigger] nv[a]).0
                            != (#[trigger] nv[b]).0 by {
                        assert(before[a].0 != before[b].0);
                    }
                }
                self.documents = documents;
                count = count + 1;
            }
            i = i + 1;
        }
        assert(old_docs.subrange(0, old_docs.len() as int) =~= old_docs);
        Ok(count)
    }

    /// Number of documents in the vault.
    pub fn len(&self) -> (n: usize)
        ensures
            n == self@.documents.len(),
    {
        self.documents.len()
    }

    /// Whether the vault is empty.
    pub fn is_empty(&self) -> (b: bool)
        ensures
            b == (self@.documents.len() == 0),
    {
        self.documents.len() == 0
    }

    /// The spend key's verifying (public) key.
    pub fn verifying_key(&self) -> (v: [u8; 32])
        ensures
            v@ == self@.spend.public,
    {
        self.spend_key.verifying_key()
    }
}

} // verus!
