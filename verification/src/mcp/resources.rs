//! Resource identifiers of memories.
use vstd::prelude::*;
use crate::sdk::memory::MemoryEntry;

verus! {

/// The resource URI of a memory: `rok://memory`, its scope, `/`, its key.
pub open spec fn memory_uri_of(scope: Seq<char>, key: Seq<char>) -> Seq<char> {
    "rok://memory"@ + scope + "/"@ + key
}

/// Build the resource URI of a memory entry.
pub fn memory_uri(entry: &MemoryEntry) -> (r: String)
    ensures
        r@ == memory_uri_of(entry.scope@, entry.key@),
{
    let mut r = String::from_str("rok://memory");
    r.append(entry.scope.as_str());
    r.append("/");
    r.append(entry.key.as_str());
    r
}

} // verus!
