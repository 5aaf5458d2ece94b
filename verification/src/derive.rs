//! HKDF-SHA256 key derivation with domain separation.
use vstd::prelude::*;
use vstd::utf8::encode_utf8;
use crate::crypto::{hkdf_sha256, hkdf_sha256_expand32};
use crate::error::{Result, RokError};
use crate::keys::key_id::KeyId;
use crate::keys::scope::{
    ancestor_path, ascii_bytes, is_boundary, lemma_ancestor_of_parent, lemma_parent_is_ancestor,
    lemma_prefix_parent, lemma_valid_scope_ascii, parent_path, root_path, valid_scope, Scope,
};

verus! {

broadcast use vstd::string::group_string_axioms;

/// Domain separation tag for spend -> root read derivation.
pub const DOMAIN_SPEND_TO_ROOT: &'static str = "rok-v1-spend-to-root-read";

/// Domain separation tag for read -> child read derivation.
pub const DOMAIN_READ_CHILD: &'static str = "rok-v1-read-child-derive";

/// Domain separation tag for ECDH shared secret -> wrapping key.
pub const DOMAIN_KEY_WRAP: &'static str = "rok-v1-key-wrap";

/// Domain separation tag for hybrid X25519 + ML-KEM secret combination.
pub const DOMAIN_HYBRID_COMBINE: &'static str = "rok-v1-hybrid-combine";

/// Domain separation tag for read secret -> ML-KEM key seed.
pub const DOMAIN_PQ_SEED: &'static str = "rok-v1-pq-key-seed";

/// The root read secret of a spend seed: HKDF with the spend secret as input key
/// material, the spend-to-root tag as salt, and the root path `/` as info.
pub open spec fn root_read_secret(spend_seed: Seq<u8>) -> Seq<u8> {
    hkdf_sha256_expand32(encode_utf8(DOMAIN_SPEND_TO_ROOT@), spend_seed, encode_utf8(root_path()))
}

/// One derivation step: the secret of the scope `path` from its parent's secret.
pub open spec fn child_read_secret(parent_secret: Seq<u8>, path: Seq<char>) -> Seq<u8> {
    hkdf_sha256_expand32(encode_utf8(DOMAIN_READ_CHILD@), parent_secret, encode_utf8(path))
}

/// The secret of scope `target`, derived level by level from the secret of its ancestor `base`.
pub open spec fn read_secret_below(secret: Seq<u8>, base: Seq<char>, target: Seq<char>) -> Seq<u8>
    decreases target.len(),
{
    if target.len() <= base.len() {
        secret
    } else {
        match parent_path(target) {
            Some(p) => if p.len() < target.len() {
                child_read_secret(read_secret_below(secret, base, p), target)
            } else {
                secret
            },
            None => secret,
        }
    }
}

/// The read secret of a scope in the hierarchy of a spend seed.
pub open spec fn scope_read_secret(spend_seed: Seq<u8>, scope: Seq<char>) -> Seq<u8> {
    read_secret_below(root_read_secret(spend_seed), root_path(), scope)
}

/// The key that wraps a data key for a recipient, from an ECDH shared secret and the
/// recipient's key identifier.
pub open spec fn wrapping_key_of(shared: Seq<u8>, key_id: Seq<u8>) -> Seq<u8> {
    hkdf_sha256_expand32(encode_utf8(DOMAIN_KEY_WRAP@), shared, key_id)
}

/// The combination of an X25519 and an ML-KEM shared secret.
pub open spec fn hybrid_secret_of(x25519_shared: Seq<u8>, mlkem_shared: Seq<u8>) -> Seq<u8> {
    hkdf_sha256_expand32(
        encode_utf8(DOMAIN_HYBRID_COMBINE@),
        x25519_shared + mlkem_shared,
        Seq::empty(),
    )
}

/// The ML-KEM key seed of a read secret at a scope.
pub open spec fn pq_key_seed_of(read_secret: Seq<u8>, scope: Seq<char>) -> Seq<u8> {
    hkdf_sha256_expand32(encode_utf8(DOMAIN_PQ_SEED@), read_secret, encode_utf8(scope))
}

/// A proper ancestor is shorter.
pub proof fn lemma_proper_ancestor_shorter(a: Seq<char>, b: Seq<char>)
    requires
        valid_scope(a),
        valid_scope(b),
        ancestor_path(a, b),
        a != b,
    ensures
        a.len() < b.len(),
{
    if a == root_path() {
        assert(b.len() > 1) by {
            if b.len() == 1 {
                assert(b =~= root_path());
            }
        }
    }
}

/// Law: deriving step by step through an intermediate scope gives the same secret as
/// deriving directly (`/a` then `/a/b/c` equals `/a/b/c` at once).
pub proof fn lemma_read_secret_stepwise(s: Seq<u8>, a: Seq<char>, b: Seq<char>, c: Seq<char>)
    requires
        valid_scope(a),
        valid_scope(b),
        valid_scope(c),
        ancestor_path(a, b),
        ancestor_path(b, c),
    ensures
        read_secret_below(read_secret_below(s, a, b), b, c) == read_secret_below(s, a, c),
    decreases c.len(),
{
    if b != c {
        lemma_ancestor_of_parent(b, c);
        let p = parent_path(c)->Some_0;
        lemma_parent_is_ancestor(c);
        lemma_proper_ancestor_shorter(b, c);
        if a != b {
            lemma_proper_ancestor_shorter(a, b);
        }
        lemma_read_secret_stepwise(s, a, b, p);
    }
}

/// Derive the root read key secret from a spend key secret.
pub fn derive_root_read_secret(spend_secret: &[u8; 32]) -> (r: [u8; 32])
    ensures
        r@ == root_read_secret(spend_secret@),
{
    let info = "/";
    proof {
        reveal_strlit("/");
        assert(info@ =~= root_path());
    }
    hkdf_sha256(DOMAIN_SPEND_TO_ROOT.as_bytes(), spend_secret, info.as_bytes())
}

/// Derive a child read key secret from a parent read key secret.
///
/// The derivation is step-wise: to derive `/finance/q1` from root, first derive
/// `/finance`, then `/finance/q1` from that. `child_scope` must be a proper descendant
/// of `parent_scope`.
pub fn derive_child_read_secret(
    parent_secret: &[u8; 32],
    parent_scope: &Scope,
    child_scope: &Scope,
) -> (r: Result<[u8; 32]>)
    ensures
        r is Ok <==> (ancestor_path(parent_scope@, child_scope@) && parent_scope@ != child_scope@),
        r matches Ok(s) ==> s@ == read_secret_below(
            parent_secret@,
            parent_scope@,
            child_scope@,
        ),
        r matches Err(e) ==> e is DerivationError,
{
    if !parent_scope.is_ancestor_of(child_scope) {
        return Err(RokError::DerivationError(String::from_str("scope is not a descendant")));
    }
    if parent_scope == child_scope {
        return Err(
            RokError::DerivationError(String::from_str("child scope must differ from parent scope")),
        );
    }
    proof {
        use_type_invariant(parent_scope);
        use_type_invariant(child_scope);
        lemma_valid_scope_ascii(child_scope@);
        lemma_proper_ancestor_shorter(parent_scope@, child_scope@);
    }
    let ghost base = parent_scope@;
    let ghost c = child_scope@;
    let cs = child_scope.as_str();
    let b = ascii_bytes(cs);
    let n = b.len();
    let mut pos: usize = if parent_scope.is_root() {
        1
    } else {
        parent_scope.as_str().unicode_len()
    };
    proof {
        assert(c.subrange(0, 1) =~= root_path());
        if base != root_path() {
            assert(c.subrange(0, pos as int) =~= base);
            assert(base.len() > 1) by {
                if base.len() == 1 {
                    assert(base =~= root_path());
                }
            }
        }
        assert(c[1] != '/') by {
            assert(c[0] == '/');
            assert(crate::keys::scope::no_double_slash(c));
        }
    }
    let mut secret: [u8; 32] = *parent_secret;
    while pos < n
        invariant
            valid_scope(c),
            valid_scope(base),
            c.len() > 1,
            cs@ == c,
            vstd::utf8::is_ascii_chars(c),
            b@.len() == n,
            n == c.len(),
            forall|k: int| 0 <= k < c.len() ==> (#[trigger] b@[k] == 47) == (c[k] == '/'),
            c[1] != '/',
            1 <= pos <= n,
            pos == 1 ==> base == root_path(),
            pos > 1 ==> is_boundary(c, pos as int),
            base.len() <= pos,
            base == root_path() || c.subrange(0, base.len() as int) == base,
            secret@ == read_secret_below(parent_secret@, base, c.subrange(0, pos as int)),
        decreases n - pos,
    {
        let mut k: usize = pos + 1;
        while k < n && b[k] != 47
            invariant
                b@.len() == n,
                n == c.len(),
                forall|i: int| 0 <= i < c.len() ==> (#[trigger] b@[i] == 47) == (c[i] == '/'),
                pos < k <= n,
                forall|i: int| pos < i < k ==> c[i] != '/',
            decreases n - k,
        {
            k = k + 1;
        }
        let ghost j: int = if pos == 1 {
            0
        } else {
            pos as int
        };
        proof {
            assert forall|i: int| j < i < k implies c[i] != '/' by {
                if i == 1 {
                } else {
                    assert(pos < i);
                }
            }
            lemma_prefix_parent(c, j, k as int);
            let q = c.subrange(0, pos as int);
            let q2 = c.subrange(0, k as int);
            if pos == 1 {
                assert(q == root_path());
            }
            assert(parent_path(q2) == Some(q));
            assert(q2.len() > base.len());
            assert(read_secret_below(parent_secret@, base, q2) == child_read_secret(
                read_secret_below(parent_secret@, base, q),
                q2,
            ));
        }
        let prefix = cs.substring_ascii(0, k);
        secret = hkdf_sha256(DOMAIN_READ_CHILD.as_bytes(), &secret, prefix.as_bytes());
        pos = k;
    }
    proof {
        assert(c.subrange(0, n as int) =~= c);
    }
    Ok(secret)
}

/// Derive a wrapping key from an ECDH shared secret and a recipient's key identifier.
pub fn derive_wrapping_key(shared_secret: &[u8; 32], key_id: &KeyId) -> (r: [u8; 32])
    ensures
        r@ == wrapping_key_of(shared_secret@, key_id@),
{
    hkdf_sha256(DOMAIN_KEY_WRAP.as_bytes(), shared_secret, key_id.as_bytes())
}

/// Combine an X25519 shared secret with an ML-KEM shared secret for hybrid mode.
///
/// The combined secret is secure as long as at least one of the two underlying
/// shared secrets remains uncompromised.
pub fn combine_hybrid_secrets(x25519_shared: &[u8; 32], mlkem_shared: &[u8]) -> (r: [u8; 32])
    ensures
        r@ == hybrid_secret_of(x25519_shared@, mlkem_shared@),
{
    let mut ikm: Vec<u8> = Vec::new();
    crate::bytes::push_bytes(&mut ikm, x25519_shared);
    crate::bytes::push_bytes(&mut ikm, mlkem_shared);
    let empty: Vec<u8> = Vec::new();
    hkdf_sha256(DOMAIN_HYBRID_COMBINE.as_bytes(), ikm.as_slice(), empty.as_slice())
}

/// Derive the seed of a scope's ML-KEM key pair from its read secret.
pub fn derive_pq_key_seed(read_secret: &[u8; 32], scope: &Scope) -> (r: [u8; 32])
    ensures
        r@ == pq_key_seed_of(read_secret@, scope@),
{
    hkdf_sha256(DOMAIN_PQ_SEED.as_bytes(), read_secret, scope.as_str().as_bytes())
}

} // verus!
