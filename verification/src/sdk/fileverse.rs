//! Conventions of the Fileverse document store: how an entry becomes a document and a
//! document an entry.
//!
//! An entry is stored as a document titled `rok:{scope}:{key}` whose content is the
//! standard Base64 of the entry's bytes. The HTTP exchange itself is not part of the
//! library.
use vstd::prelude::*;
use crate::crypto::{base64_bytes, base64_decode, base64_encode, base64_text};
use crate::error::{Result, RokError};
use crate::sdk::storage::{
    entry_views, is_listed_under, listed_under, EntryView, StorageEntry, StorageId,
};
use crate::text::{find_last, last_index_of, lemma_last_index_of, parse_u64, u64_text_value};

verus! {

/// A document as the store returns it.
#[derive(Debug, Clone)]
pub struct Document {
    pub id: String,
    pub title: String,
    pub content: String,
    pub created_at: String,
    pub updated_at: String,
}

/// The mathematical content of a document.
pub struct DocumentView {
    pub id: Seq<char>,
    pub title: Seq<char>,
    pub content: Seq<char>,
    pub created_at: Seq<char>,
    pub updated_at: Seq<char>,
}

impl View for Document {
    type V = DocumentView;

    open spec fn view(&self) -> DocumentView {
        DocumentView {
            id: self.id@,
            title: self.title@,
            content: self.content@,
            created_at: self.created_at@,
            updated_at: self.updated_at@,
        }
    }
}

/// The views of a sequence of documents.
pub open spec fn document_views(v: Seq<Document>) -> Seq<DocumentView> {
    v.map_values(|d: Document| d@)
}

/// The title of the document that stores `scope`/`key`.
pub open spec fn document_title(scope: Seq<char>, key: Seq<char>) -> Seq<char> {
    seq!['r', 'o', 'k', ':'] + scope + seq![':'] + key
}

/// The scope and key that a title names: after `rok:`, the key follows the last `:`, and
/// neither may be empty.
pub open spec fn title_parts(t: Seq<char>) -> Option<(Seq<char>, Seq<char>)> {
    if t.len() >= 4 && t.subrange(0, 4) == seq!['r', 'o', 'k', ':'] {
        let rest = t.skip(4);
        let c = last_index_of(rest, ':');
        if c < 0 {
            None
        } else {
            let scope = rest.take(c);
            let key = rest.skip(c + 1);
            if scope.len() == 0 || key.len() == 0 {
                None
            } else {
                Some((scope, key))
            }
        }
    } else {
        None
    }
}

/// A timestamp field as seconds: its decimal value, or zero where it is none.
pub open spec fn timestamp_value(s: Seq<char>) -> u64 {
    match u64_text_value(s) {
        Some(v) => v,
        None => 0,
    }
}

/// The entry a document stands for: its content decoded from Base64, its scope and key
/// from its title (scope `unknown` and the document ID as key where the title names
/// none); `None` where the content is no Base64.
pub open spec fn document_entry(d: DocumentView) -> Option<EntryView> {
    match base64_bytes(d.content) {
        None => None,
        Some(data) => {
            let (scope, key) = match title_parts(d.title) {
                Some(p) => p,
                None => (seq!['u', 'n', 'k', 'n', 'o', 'w', 'n'], d.id),
            };
            Some(
                EntryView {
                    id: d.id,
                    scope,
                    key,
                    data,
                    created_at: timestamp_value(d.created_at),
                    updated_at: timestamp_value(d.updated_at),
                },
            )
        },
    }
}

/// The entries that listing documents under `prefix` yields, in order: documents whose
/// title names a scope listed under the prefix and whose content decodes.
pub open spec fn listed_documents(ds: Seq<DocumentView>, prefix: Seq<char>) -> Seq<EntryView>
    decreases ds.len(),
{
    if ds.len() == 0 {
        seq![]
    } else {
        let prev = listed_documents(ds.drop_last(), prefix);
        let d = ds.last();
        match title_parts(d.title) {
            Some((scope, _)) => if listed_under(scope, prefix) {
                match document_entry(d) {
                    Some(e) => prev.push(e),
                    None => prev,
                }
            } else {
                prev
            },
            None => prev,
        }
    }
}

/// The title of the document that stores `scope`/`key`.
pub fn title_for(scope: &str, key: &str) -> (t: String)
    ensures
        t@ == document_title(scope@, key@),
{
    let mut t = String::from_str("rok:");
    t.append(scope);
    t.append(":");
    t.append(key);
    proof {
        reveal_strlit("rok:");
        reveal_strlit(":");
    }
    assert(t@ =~= document_title(scope@, key@));
    t
}

/// Parse a title `rok:{scope}:{key}` into scope and key.
pub fn parse_title(title: &str) -> (r: Option<(String, String)>)
    ensures
        match title_parts(title@) {
            Some((s, k)) => r matches Some((s2, k2)) && s2@ == s && k2@ == k,
            None => r is None,
        },
{
    let n = title.unicode_len();
    if n < 4 || title.get_char(0) != 'r' || title.get_char(1) != 'o' || title.get_char(2) != 'k'
        || title.get_char(3) != ':' {
        proof {
            if n >= 4 {
                assert(title@.subrange(0, 4) != seq!['r', 'o', 'k', ':']) by {
                    if title@.subrange(0, 4) == seq!['r', 'o', 'k', ':'] {
                        assert(title@.subrange(0, 4)[0] == 'r');
                        assert(title@.subrange(0, 4)[1] == 'o');
                        assert(title@.subrange(0, 4)[2] == 'k');
                        assert(title@.subrange(0, 4)[3] == ':');
                    }
                }
            }
        }
        return None;
    }
    assert(title@.subrange(0, 4) =~= seq!['r', 'o', 'k', ':']);
    let rest = title.substring_char(4, n);
    assert(rest@ =~= title@.skip(4));
    let c = match find_last(rest, ':') {
        None => return None,
        Some(c) => c,
    };
    proof {
        lemma_last_index_of(rest@, ':');
    }
    let m = rest.unicode_len();
    if c == 0 || c + 1 == m {
        return None;
    }
    let scope = String::from_str(rest.substring_char(0, c));
    let key = String::from_str(rest.substring_char(c + 1, m));
    assert(scope@ =~= rest@.take(c as int));
    assert(key@ =~= rest@.skip(c + 1));
    Some((scope, key))
}

/// A timestamp field as seconds: its decimal value, or zero.
pub fn parse_timestamp(s: &str) -> (r: u64)
    ensures
        r == timestamp_value(s@),
{
    match parse_u64(s) {
        Some(v) => v,
        None => 0,
    }
}

/// The content of the document that stores `data`: its standard Base64.
pub fn document_content(data: &[u8]) -> (r: String)
    ensures
        r@ == base64_text(data@),
        base64_bytes(r@) == Some(data@),
{
    base64_encode(data)
}

/// The entry a document stands for; a storage error where its content is no Base64.
pub fn document_to_entry(doc: &Document) -> (r: Result<StorageEntry>)
    ensures
        match document_entry(doc@) {
            Some(e) => r matches Ok(x) && x@ == e,
            None => r matches Err(e) && e is StorageError,
        },
{
    let data = match base64_decode(doc.content.as_str()) {
        Some(d) => d,
        None => {
            return Err(RokError::StorageError(String::from_str("base64 decode: invalid content")));
        },
    };
    let (scope, key) = match parse_title(doc.title.as_str()) {
        Some(p) => p,
        None => {
            proof {
                reveal_strlit("unknown");
            }
            (String::from_str("unknown"), doc.id.clone())
        },
    };
    let e = StorageEntry {
        id: StorageId(doc.id.clone()),
        scope,
        key,
        data,
        created_at: parse_timestamp(doc.created_at.as_str()),
        updated_at: parse_timestamp(doc.updated_at.as_str()),
    };
    proof {
        if title_parts(doc@.title) is None {
            assert("unknown"@ =~= seq!['u', 'n', 'k', 'n', 'o', 'w', 'n']);
        }
    }
    Ok(e)
}

/// The entries that listing documents under `prefix` yields.
pub fn list_documents(docs: &Vec<Document>, prefix: &str) -> (r: Vec<StorageEntry>)
    ensures
        entry_views(r@) == listed_documents(document_views(docs@), prefix@),
{
    let ghost ds = document_views(docs@);
    let mut entries: Vec<StorageEntry> = Vec::new();
    let mut i: usize = 0;
    assert(ds.subrange(0, 0) =~= Seq::<DocumentView>::empty());
    assert(entry_views(entries@) =~= Seq::<EntryView>::empty());
    while i < docs.len()
        invariant
            i <= docs@.len(),
            ds == document_views(docs@),
            entry_views(entries@) == listed_documents(ds.subrange(0, i as int), prefix@),
        decreases docs@.len() - i,
    {
        let doc = &docs[i];
        let ghost before = entries@;
        proof {
            let pre = ds.subrange(0, i + 1);
            assert(pre.drop_last() =~= ds.subrange(0, i as int));
            assert(pre.last() == doc@);
        }
        match parse_title(doc.title.as_str()) {
            Some((scope, _)) => {
                if is_listed_under(scope.as_str(), prefix) {
                    match document_to_entry(doc) {
                        Ok(e) => {
                            entries.push(e);
                            assert(entry_views(entries@) =~= entry_views(before).push(e@));
                        },
                        Err(_) => {},
                    }
                }
            },
            None => {},
        }
        i = i + 1;
    }
    assert(ds.subrange(0, i as int) =~= ds);
    entries
}

/// The first document with the given title, if any.
pub fn find_titled(docs: &Vec<Document>, title: &str) -> (r: Option<usize>)
    ensures
        match r {
            Some(i) => i < docs@.len() && docs@[i as int].title@ == title@ && forall|j: int|
                0 <= j < i ==> (#[trigger] docs@[j]).title@ != title@,
            None => forall|j: int| 0 <= j < docs@.len() ==> (#[trigger] docs@[j]).title@ != title@,
        },
{
    let wanted = String::from_str(title);
    let mut i: usize = 0;
    while i < docs.len()
        invariant
            i <= docs@.len(),
            wanted@ == title@,
            forall|j: int| 0 <= j < i ==> (#[trigger] docs@[j]).title@ != title@,
        decreases docs@.len() - i,
    {
        if docs[i].title == wanted {
            return Some(i);
        }
        i = i + 1;
    }
    None
}

} // verus!
