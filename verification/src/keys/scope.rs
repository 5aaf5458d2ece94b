//! Validated hierarchical scope paths such as `/finance/q1`.
use vstd::prelude::*;
use crate::error::{Result, RokError};

verus! {

broadcast use vstd::string::group_string_axioms;

/// Characters allowed inside one path segment.
pub open spec fn is_segment_char(c: char) -> bool {
    ||| ('a' <= c && c <= 'z')
    ||| ('A' <= c && c <= 'Z')
    ||| ('0' <= c && c <= '9')
    ||| c == '-'
    ||| c == '_'
}

/// Characters allowed anywhere after the leading `/`.
pub open spec fn is_path_char(c: char) -> bool {
    is_segment_char(c) || c == '/'
}

/// No two consecutive slashes.
pub open spec fn no_double_slash(s: Seq<char>) -> bool {
    forall|i: int, j: int|
        #![trigger s[i], s[j]]
        0 <= i && j == i + 1 && j < s.len() ==> !(s[i] == '/' && s[j] == '/')
}

/// A well-formed scope path: starts with `/`, no trailing `/` (except the root),
/// no `//`, and only ASCII alphanumerics, `-`, `_` and `/`.
pub open spec fn valid_scope(s: Seq<char>) -> bool {
    &&& s.len() >= 1
    &&& s[0] == '/'
    &&& (s.len() == 1 || s[s.len() - 1] != '/')
    &&& no_double_slash(s)
    &&& forall|i: int| 1 <= i < s.len() ==> is_path_char(#[trigger] s[i])
}

/// A well-formed single path segment.
pub open spec fn valid_segment(seg: Seq<char>) -> bool {
    &&& seg.len() >= 1
    &&& forall|i: int| 0 <= i < seg.len() ==> is_segment_char(#[trigger] seg[i])
}

/// The root scope `/`.
pub open spec fn root_path() -> Seq<char> {
    seq!['/']
}

/// `a` is an ancestor of (or equal to) `d`.
pub open spec fn ancestor_path(a: Seq<char>, d: Seq<char>) -> bool {
    ||| a == root_path()
    ||| a == d
    ||| (a.len() < d.len() && d.subrange(0, a.len() as int) == a && d[a.len() as int] == '/')
}

/// Splits a character sequence at every `/`.
pub open spec fn split_slash(s: Seq<char>) -> Seq<Seq<char>>
    decreases s.len(),
{
    if s.len() == 0 {
        seq![Seq::<char>::empty()]
    } else {
        let r = split_slash(s.drop_last());
        if s.last() == '/' {
            r.push(Seq::<char>::empty())
        } else {
            r.update(r.len() - 1, r.last().push(s.last()))
        }
    }
}

/// The path segments of a scope (empty for the root).
pub open spec fn components_path(s: Seq<char>) -> Seq<Seq<char>> {
    if s == root_path() {
        Seq::empty()
    } else {
        split_slash(s.drop_first())
    }
}

/// Number of path segments.
pub open spec fn depth_path(s: Seq<char>) -> nat {
    components_path(s).len()
}

/// Index of the last `/`, or -1.
pub open spec fn last_slash(s: Seq<char>) -> int
    decreases s.len(),
{
    if s.len() == 0 {
        -1
    } else if s.last() == '/' {
        s.len() - 1
    } else {
        last_slash(s.drop_last())
    }
}

/// The parent scope path, `None` for the root.
pub open spec fn parent_path(s: Seq<char>) -> Option<Seq<char>> {
    if s == root_path() {
        None
    } else if last_slash(s) <= 0 {
        Some(root_path())
    } else {
        Some(s.subrange(0, last_slash(s)))
    }
}

/// The path of the child scope with one more segment.
pub open spec fn child_path(s: Seq<char>, seg: Seq<char>) -> Seq<char> {
    if s == root_path() {
        seq!['/'] + seg
    } else {
        s + seq!['/'] + seg
    }
}

/// A validated hierarchical scope path.
///
/// A read key at scope `/finance` can access data at `/finance` and any
/// descendant (e.g. `/finance/q1`), but not at `/legal` or `/`.
#[derive(Debug, Hash)]
pub struct Scope(String);

impl View for Scope {
    type V = Seq<char>;

    closed spec fn view(&self) -> Seq<char> {
        self.0@
    }
}

impl Scope {
    /// Every scope value is a well-formed path.
    #[verifier::type_invariant]
    pub open spec fn inv(self) -> bool {
        valid_scope(self@)
    }
}

impl PartialEq for Scope {
    fn eq(&self, other: &Self) -> (r: bool) {
        self.0 == other.0
    }
}

impl vstd::std_specs::cmp::PartialEqSpecImpl for Scope {
    open spec fn obeys_eq_spec() -> bool {
        true
    }

    open spec fn eq_spec(&self, other: &Self) -> bool {
        self@ == other@
    }
}

impl Eq for Scope {}

impl Clone for Scope {
    fn clone(&self) -> (r: Self)
        ensures
            r@ == self@,
    {
        proof {
            use_type_invariant(self);
        }
        Scope(self.0.clone())
    }
}

/// ASCII byte classification matching `is_segment_char`.
fn byte_is_segment_char(b: u8) -> (r: bool)
    ensures
        r == ((48 <= b && b <= 57) || (65 <= b && b <= 90) || (97 <= b && b <= 122) || b == 45
            || b == 95),
{
    (48 <= b && b <= 57) || (65 <= b && b <= 90) || (97 <= b && b <= 122) || b == 45 || b == 95
}

/// For ASCII characters, the byte classification agrees with the character one.
proof fn lemma_ascii_byte(c: char, b: u8)
    requires
        '\0' <= c <= '\u{7f}',
        b == c as u8,
    ensures
        b as int == c as int,
        (b == 47) == (c == '/'),
        is_segment_char(c) == ((48 <= b && b <= 57) || (65 <= b && b <= 90) || (97 <= b && b
            <= 122) || b == 45 || b == 95),
{
    let x: u32 = c as u32;
    assert(x <= 127);
    assert(x as u8 == x) by (bit_vector)
        requires
            x <= 127,
    ;
    assert(b == x as u8);
}

/// Valid scope paths are ASCII.
pub proof fn lemma_valid_scope_ascii(s: Seq<char>)
    requires
        valid_scope(s),
    ensures
        vstd::utf8::is_ascii_chars(s),
{
    assert forall|i: int| 0 <= i < s.len() implies '\0' <= #[trigger] s[i] <= '\u{7f}' by {
        if i > 0 {
            assert(is_path_char(s[i]));
        }
    }
}

/// Valid segments are ASCII.
pub proof fn lemma_valid_segment_ascii(s: Seq<char>)
    requires
        valid_segment(s),
    ensures
        vstd::utf8::is_ascii_chars(s),
{
    assert forall|i: int| 0 <= i < s.len() implies '\0' <= #[trigger] s[i] <= '\u{7f}' by {
        assert(is_segment_char(s[i]));
    }
}

fn invalid(msg: &str) -> (e: RokError)
    ensures
        e is InvalidScope,
{
    RokError::InvalidScope(String::from_str(msg))
}

impl Scope {
    /// The root scope `/`, which is the ancestor of all other scopes.
    pub fn root() -> (s: Scope)
        ensures
            s@ == root_path(),
    {
        proof {
            reveal_strlit("/");
        }
        let p = String::from_str("/");
        Scope(p)
    }

    /// Create a new scope from a path string, validating it.
    pub fn new(path: &str) -> (r: Result<Scope>)
        ensures
            r is Ok <==> valid_scope(path@),
            r matches Ok(s) ==> s@ == path@,
            r matches Err(e) ==> e is InvalidScope,
    {
        if path.is_empty() {
            return Err(invalid("scope cannot be empty"));
        }
        if !path.is_ascii() {
            proof {
                if valid_scope(path@) {
                    lemma_valid_scope_ascii(path@);
                }
            }
            return Err(invalid("scope contains a non-ASCII character"));
        }
        let b = path.as_bytes();
        let n = b.len();
        proof {
            assert(b@.len() == path@.len());
            assert forall|i: int| 0 <= i < n implies b@[i] == #[trigger] path@[i] as u8 by {}
        }
        if b[0] != 47u8 {
            proof {
                lemma_ascii_byte(path@[0], b@[0]);
            }
            return Err(invalid("scope must start with '/'"));
        }
        proof {
            lemma_ascii_byte(path@[0], b@[0]);
        }
        if n > 1 && b[n - 1] == 47u8 {
            proof {
                lemma_ascii_byte(path@[n - 1], b@[n - 1]);
            }
            return Err(invalid("scope must not end with '/' (except root)"));
        }
        proof {
            lemma_ascii_byte(path@[n - 1], b@[n - 1]);
        }
        let mut i: usize = 0;
        while i + 1 < n
            invariant
                n == b@.len(),
                n == path@.len(),
                n >= 1,
                vstd::utf8::is_ascii_chars(path@),
                forall|k: int| 0 <= k < n ==> b@[k] == #[trigger] path@[k] as u8,
                i + 1 <= n,
                forall|k: int, l: int|
                    #![trigger path@[k], path@[l]]
                    0 <= k && l == k + 1 && l <= i ==> !(path@[k] == '/' && path@[l] == '/'),
            decreases n - i,
        {
            proof {
                lemma_ascii_byte(path@[i as int], b@[i as int]);
                lemma_ascii_byte(path@[i + 1], b@[i + 1]);
            }
            if b[i] == 47u8 && b[i + 1] == 47u8 {
                proof {
                    assert(path@[i as int] == '/' && path@[i + 1] == '/');
                }
                return Err(invalid("scope must not contain double slashes"));
            }
            i = i + 1;
        }
        let mut j: usize = 1;
        while j < n
            invariant
                n == b@.len(),
                n == path@.len(),
                1 <= j <= n,
                vstd::utf8::is_ascii_chars(path@),
                forall|k: int| 0 <= k < n ==> b@[k] == #[trigger] path@[k] as u8,
                forall|k: int| 1 <= k < j ==> is_path_char(#[trigger] path@[k]),
            decreases n - j,
        {
            proof {
                lemma_ascii_byte(path@[j as int], b@[j as int]);
            }
            if !byte_is_segment_char(b[j]) && b[j] != 47u8 {
                return Err(invalid("scope contains an invalid character"));
            }
            j = j + 1;
        }
        let s = String::from_str(path);
        Ok(Scope(s))
    }

    /// Return the scope path as a string slice.
    pub fn as_str(&self) -> (s: &str)
        ensures
            s@ == self@,
    {
        self.0.as_str()
    }

    /// Whether this is the root scope `/`.
    pub fn is_root(&self) -> (r: bool)
        ensures
            r == (self@ == root_path()),
    {
        proof {
            use_type_invariant(self);
        }
        let r = self.0.as_str().unicode_len() == 1;
        proof {
            if r {
                assert(self@ =~= root_path());
            }
        }
        r
    }
}


/// Byte view of an ASCII string, byte `i` equal to character `i`.
pub(crate) fn ascii_bytes(s: &str) -> (b: &[u8])
    requires
        vstd::utf8::is_ascii_chars(s@),
    ensures
        b@.len() == s@.len(),
        forall|i: int| 0 <= i < s@.len() ==> (#[trigger] b@[i]) as int == s@[i] as int,
        forall|i: int| 0 <= i < s@.len() ==> (#[trigger] b@[i] == 47) == (s@[i] == '/'),
{
    let b = s.as_bytes();
    proof {
        assert(vstd::string::is_ascii(s));
        assert(b@ =~= Seq::new(s@.len(), |i| s@.index(i) as u8));
        assert forall|i: int| 0 <= i < s@.len() implies (#[trigger] b@[i]) as int == s@[i] as int
            && (b@[i] == 47) == (s@[i] == '/') by {
            lemma_ascii_byte(s@[i], b@[i]);
        }
    }
    b
}

/// Two ASCII sequences whose code points agree are equal.
proof fn lemma_same_codes(a: Seq<char>, b: Seq<char>, n: int)
    requires
        0 <= n <= a.len(),
        n <= b.len(),
        forall|i: int| 0 <= i < n ==> a[i] as int == b[i] as int,
    ensures
        a.subrange(0, n) == b.subrange(0, n),
{
    assert forall|i: int| 0 <= i < n implies a[i] == b[i] by {
        let x: u32 = a[i] as u32;
        let y: u32 = b[i] as u32;
        assert(x == y);
    }
    assert(a.subrange(0, n) =~= b.subrange(0, n));
}

/// Views of a sequence of string slices.
pub open spec fn str_views(v: Seq<&str>) -> Seq<Seq<char>> {
    Seq::new(v.len(), |i: int| v[i]@)
}

/// Splitting one more character onto a sequence.
proof fn lemma_split_step(s: Seq<char>, i: int)
    requires
        0 <= i < s.len(),
    ensures
        split_slash(s.subrange(0, i + 1)) == (if s[i] == '/' {
            split_slash(s.subrange(0, i)).push(Seq::<char>::empty())
        } else {
            let r = split_slash(s.subrange(0, i));
            r.update(r.len() - 1, r.last().push(s[i]))
        }),
{
    assert(s.subrange(0, i + 1).drop_last() =~= s.subrange(0, i));
}

/// `split_slash` always yields at least one (possibly empty) segment.
proof fn lemma_split_nonempty(s: Seq<char>)
    ensures
        split_slash(s).len() >= 1,
    decreases s.len(),
{
    if s.len() > 0 {
        lemma_split_nonempty(s.drop_last());
    }
}

/// Appending slash-free text extends the last segment.
proof fn lemma_split_append_plain(t: Seq<char>, u: Seq<char>)
    requires
        forall|i: int| 0 <= i < u.len() ==> u[i] != '/',
    ensures
        split_slash(t + u) == split_slash(t).update(
            split_slash(t).len() - 1,
            split_slash(t).last() + u,
        ),
    decreases u.len(),
{
    lemma_split_nonempty(t);
    if u.len() == 0 {
        assert(t + u =~= t);
        assert(split_slash(t).last() + u =~= split_slash(t).last());
        assert(split_slash(t).update(split_slash(t).len() - 1, split_slash(t).last())
            =~= split_slash(t));
    } else {
        let u0 = u.drop_last();
        lemma_split_append_plain(t, u0);
        assert((t + u).drop_last() =~= t + u0);
        assert((t + u).last() == u.last());
        assert(split_slash(t).last() + u =~= (split_slash(t).last() + u0).push(u.last()));
        assert(split_slash(t + u) =~= split_slash(t).update(
            split_slash(t).len() - 1,
            split_slash(t).last() + u,
        ));
    }
}

/// Slash-free text moves no slash.
proof fn lemma_last_slash_append_plain(t: Seq<char>, u: Seq<char>)
    requires
        forall|i: int| 0 <= i < u.len() ==> u[i] != '/',
    ensures
        last_slash(t + u) == last_slash(t),
    decreases u.len(),
{
    if u.len() == 0 {
        assert(t + u =~= t);
    } else {
        let u0 = u.drop_last();
        lemma_last_slash_append_plain(t, u0);
        assert((t + u).drop_last() =~= t + u0);
    }
}

/// Facts about `last_slash`: it is -1 or the index of a slash, with none after it.
proof fn lemma_last_slash_props(s: Seq<char>)
    ensures
        -1 <= last_slash(s) < s.len(),
        last_slash(s) >= 0 ==> s[last_slash(s)] == '/',
        forall|k: int| last_slash(s) < k < s.len() ==> s[k] != '/',
    decreases s.len(),
{
    if s.len() > 0 && s.last() != '/' {
        lemma_last_slash_props(s.drop_last());
        assert forall|k: int| last_slash(s) < k < s.len() implies s[k] != '/' by {
            if k < s.len() - 1 {
                assert(s[k] == s.drop_last()[k]);
            }
        }
    }
}

/// Scanning back over non-slash characters keeps the last slash.
proof fn lemma_last_slash_prefix(s: Seq<char>, i: int)
    requires
        0 <= i < s.len(),
        s[i] != '/',
    ensures
        last_slash(s.subrange(0, i + 1)) == last_slash(s.subrange(0, i)),
{
    assert(s.subrange(0, i + 1).drop_last() =~= s.subrange(0, i));
}

/// Law: the child of a valid scope by a valid segment is a valid scope.
pub proof fn lemma_child_valid(s: Seq<char>, seg: Seq<char>)
    requires
        valid_scope(s),
        valid_segment(seg),
    ensures
        valid_scope(child_path(s, seg)),
{
    let c = child_path(s, seg);
    if s == root_path() {
        assert(c =~= seq!['/'] + seg);
        assert forall|i: int| 1 <= i < c.len() implies is_path_char(#[trigger] c[i]) by {
            assert(c[i] == seg[i - 1]);
        }
        assert forall|i: int, j: int|
            #![trigger c[i], c[j]]
            0 <= i && j == i + 1 && j < c.len() implies !(c[i] == '/' && c[j] == '/') by {
            assert(0 <= j - 1 < seg.len());
            assert(c[j] == seg[j - 1]);
            assert(is_segment_char(seg[j - 1]));
            assert(seg[j - 1] != '/');
        }
        assert(c[c.len() - 1] == seg[seg.len() - 1]);
        assert(is_segment_char(seg[seg.len() - 1]));
    } else {
        let n = s.len();
        assert(s.len() > 1) by {
            if s.len() == 1 {
                assert(s =~= root_path());
            }
        }
        assert forall|i: int| 1 <= i < c.len() implies is_path_char(#[trigger] c[i]) by {
            if i < n {
                assert(c[i] == s[i]);
            } else if i > n {
                assert(c[i] == seg[i - n - 1]);
            }
        }
        assert forall|i: int, j: int|
            #![trigger c[i], c[j]]
            0 <= i && j == i + 1 && j < c.len() implies !(c[i] == '/' && c[j] == '/') by {
            if j < n {
                assert(c[i] == s[i] && c[j] == s[j]);
            } else if j == n {
                assert(c[i] == s[n - 1]);
            } else {
                assert(c[j] == seg[j - n - 1]);
                assert(is_segment_char(seg[j - n - 1]));
            }
        }
        assert(c[c.len() - 1] == seg[seg.len() - 1]);
        assert(is_segment_char(seg[seg.len() - 1]));
    }
}

/// Law: a scope is its own ancestor.
pub proof fn lemma_ancestor_reflexive(s: Seq<char>)
    ensures
        ancestor_path(s, s),
{
}

/// The root scope is a valid scope.
pub proof fn lemma_valid_root()
    ensures
        valid_scope(root_path()),
{
}

/// Law: the root is an ancestor of every scope.
pub proof fn lemma_root_ancestor_of_all(s: Seq<char>)
    ensures
        ancestor_path(root_path(), s),
{
}

/// Law: the ancestor relation is transitive.
pub proof fn lemma_ancestor_transitive(a: Seq<char>, b: Seq<char>, c: Seq<char>)
    requires
        valid_scope(a),
        valid_scope(b),
        valid_scope(c),
        ancestor_path(a, b),
        ancestor_path(b, c),
    ensures
        ancestor_path(a, c),
{
    if a != root_path() && a != b && b != c && b != root_path() {
        assert(c.subrange(0, a.len() as int) =~= c.subrange(0, b.len() as int).subrange(
            0,
            a.len() as int,
        ));
        assert(c[a.len() as int] == c.subrange(0, b.len() as int)[a.len() as int]);
    } else if b == root_path() && a != root_path() {
        assert(a == b || a.len() < 1);
    }
}

/// Law: two scopes that are each other's ancestor are the same scope.
pub proof fn lemma_ancestor_antisymmetric(a: Seq<char>, b: Seq<char>)
    requires
        valid_scope(a),
        valid_scope(b),
        ancestor_path(a, b),
        ancestor_path(b, a),
    ensures
        a == b,
{
    if a == root_path() && b != root_path() && a != b {
        assert(b.len() < a.len());
    }
    if b == root_path() && a != root_path() && a != b {
        assert(a.len() < b.len());
    }
}

/// Law: a child scope is a proper descendant of its parent.
pub proof fn lemma_child_is_descendant(s: Seq<char>, seg: Seq<char>)
    requires
        valid_scope(s),
        valid_segment(seg),
    ensures
        ancestor_path(s, child_path(s, seg)),
        child_path(s, seg) != s,
        !ancestor_path(child_path(s, seg), s),
{
    let c = child_path(s, seg);
    lemma_child_valid(s, seg);
    assert(c.len() > s.len());
    if s != root_path() {
        assert(c.subrange(0, s.len() as int) =~= s);
        assert(c[s.len() as int] == '/');
    }
}

/// Law: the parent of a child scope is the scope it was made from.
pub proof fn lemma_parent_of_child(s: Seq<char>, seg: Seq<char>)
    requires
        valid_scope(s),
        valid_segment(seg),
    ensures
        parent_path(child_path(s, seg)) == Some(s),
{
    let c = child_path(s, seg);
    assert forall|i: int| 0 <= i < seg.len() implies seg[i] != '/' by {
        assert(is_segment_char(seg[i]));
    }
    if s == root_path() {
        lemma_last_slash_append_plain(seq!['/'], seg);
        assert(last_slash(seq!['/']) == 0) by {
            assert(seq!['/'].last() == '/');
        }
        assert(c != root_path()) by {
            assert(c.len() > 1);
        }
    } else {
        let t = s + seq!['/'];
        assert(c =~= t + seg);
        lemma_last_slash_append_plain(t, seg);
        assert(t.last() == '/');
        assert(last_slash(t) == s.len());
        assert(c != root_path()) by {
            assert(c.len() > 1);
        }
        assert(c.subrange(0, s.len() as int) =~= s);
    }
}

/// Law: the components of a child scope are those of the scope plus the new segment,
/// so its depth is one more.
pub proof fn lemma_components_of_child(s: Seq<char>, seg: Seq<char>)
    requires
        valid_scope(s),
        valid_segment(seg),
    ensures
        components_path(child_path(s, seg)) == components_path(s).push(seg),
        depth_path(child_path(s, seg)) == depth_path(s) + 1,
{
    let c = child_path(s, seg);
    assert forall|i: int| 0 <= i < seg.len() implies seg[i] != '/' by {
        assert(is_segment_char(seg[i]));
    }
    assert(c != root_path()) by {
        assert(c.len() > 1);
    }
    if s == root_path() {
        assert(c.drop_first() =~= Seq::<char>::empty() + seg);
        lemma_split_append_plain(Seq::<char>::empty(), seg);
        assert(split_slash(Seq::<char>::empty()) == seq![Seq::<char>::empty()]);
        assert(Seq::<char>::empty() + seg =~= seg);
        assert(split_slash(c.drop_first()) =~= seq![seg]);
        assert(components_path(s) =~= Seq::<Seq<char>>::empty());
        assert(Seq::<Seq<char>>::empty().push(seg) =~= seq![seg]);
    } else {
        let x = s.drop_first();
        let t = x.push('/');
        assert(c.drop_first() =~= t + seg);
        lemma_split_append_plain(t, seg);
        assert(t.drop_last() =~= x);
        assert(split_slash(t) == split_slash(x).push(Seq::<char>::empty()));
        assert(Seq::<char>::empty() + seg =~= seg);
        assert(split_slash(t + seg) =~= split_slash(x).push(seg));
    }
}

/// Segments joined with `/`.
pub open spec fn join_slash(p: Seq<Seq<char>>) -> Seq<char>
    decreases p.len(),
{
    if p.len() == 0 {
        Seq::empty()
    } else if p.len() == 1 {
        p[0]
    } else {
        join_slash(p.drop_last()) + seq!['/'] + p.last()
    }
}

proof fn lemma_split_concat(x: Seq<char>, y: Seq<char>)
    ensures
        split_slash(x + seq!['/'] + y) == split_slash(x) + split_slash(y),
    decreases y.len(),
{
    lemma_split_nonempty(x);
    let xs = x + seq!['/'];
    if y.len() == 0 {
        assert(x + seq!['/'] + y =~= xs);
        assert(xs.drop_last() =~= x);
        assert(split_slash(y) =~= seq![Seq::<char>::empty()]);
        assert(split_slash(xs) =~= split_slash(x) + split_slash(y));
    } else {
        let y0 = y.drop_last();
        lemma_split_concat(x, y0);
        lemma_split_nonempty(y0);
        let t = x + seq!['/'] + y;
        assert(t.drop_last() =~= x + seq!['/'] + y0);
        assert(t.last() == y.last());
        assert(split_slash(t) =~= split_slash(x) + split_slash(y));
    }
}

proof fn lemma_join_split(s: Seq<char>)
    ensures
        join_slash(split_slash(s)) == s,
    decreases s.len(),
{
    if s.len() == 0 {
        assert(split_slash(s) =~= seq![Seq::<char>::empty()]);
        assert(s =~= Seq::<char>::empty());
    } else {
        let s0 = s.drop_last();
        lemma_join_split(s0);
        lemma_split_nonempty(s0);
        let r = split_slash(s0);
        if s.last() == '/' {
            assert(r.push(Seq::<char>::empty()).drop_last() =~= r);
            assert(join_slash(split_slash(s)) =~= s0 + seq!['/'] + Seq::<char>::empty());
            assert(s =~= s0 + seq!['/']);
        } else {
            let u = r.update(r.len() - 1, r.last().push(s.last()));
            if r.len() > 1 {
                assert(u.drop_last() =~= r.drop_last());
                assert(join_slash(r) == join_slash(r.drop_last()) + seq!['/'] + r.last());
            }
            assert(join_slash(u) =~= s0.push(s.last()));
            assert(s =~= s0.push(s.last()));
        }
    }
}

proof fn lemma_join_concat(p: Seq<Seq<char>>, q: Seq<Seq<char>>)
    requires
        p.len() >= 1,
        q.len() >= 1,
    ensures
        join_slash(p + q) == join_slash(p) + seq!['/'] + join_slash(q),
    decreases q.len(),
{
    if q.len() == 1 {
        assert((p + q).drop_last() =~= p);
        assert((p + q).last() == q[0]);
    } else {
        let q0 = q.drop_last();
        lemma_join_concat(p, q0);
        assert((p + q).drop_last() =~= p + q0);
        assert((p + q).last() == q.last());
        assert(join_slash(p + q) =~= join_slash(p) + seq!['/'] + join_slash(q));
    }
}

/// Law: one scope is an ancestor of another exactly when its components are a prefix of
/// the other's.
pub proof fn lemma_ancestor_components(a: Seq<char>, d: Seq<char>)
    requires
        valid_scope(a),
        valid_scope(d),
    ensures
        ancestor_path(a, d) <==> (components_path(a).len() <= components_path(d).len() && components_path(d).take(
            components_path(a).len() as int,
        ) == components_path(a)),
{
    let ca = components_path(a);
    let cd = components_path(d);
    if a == root_path() {
        assert(cd.take(0) =~= ca);
    } else if a == d {
        assert(cd.take(ca.len() as int) =~= ca);
    } else {
        lemma_split_nonempty(a.drop_first());
        assert(a =~= seq!['/'] + a.drop_first());
        if ancestor_path(a, d) {
            let rest = d.subrange(a.len() as int + 1, d.len() as int);
            assert(d.drop_first() =~= a.drop_first() + seq!['/'] + rest);
            lemma_split_concat(a.drop_first(), rest);
            assert(d != root_path());
            assert(cd.take(ca.len() as int) =~= ca);
        } else if ca.len() <= cd.len() && cd.take(ca.len() as int) == ca {
            assert(d != root_path());
            lemma_join_split(a.drop_first());
            lemma_join_split(d.drop_first());
            assert(d =~= seq!['/'] + d.drop_first());
            if ca.len() == cd.len() {
                assert(cd =~= ca);
            } else {
                let rest = cd.skip(ca.len() as int);
                assert(cd =~= ca + rest);
                lemma_join_concat(ca, rest);
                assert(d =~= a + seq!['/'] + join_slash(rest));
                assert(d.subrange(0, a.len() as int) =~= a);
                assert(d[a.len() as int] == '/');
            }
        }
    }
}

/// Law: the parent of a scope is a proper ancestor of it.
pub proof fn lemma_parent_is_ancestor(s: Seq<char>)
    requires
        valid_scope(s),
        s != root_path(),
    ensures
        parent_path(s) matches Some(p) && ancestor_path(p, s) && p != s && valid_scope(p),
{
    lemma_last_slash_props(s);
    let k = last_slash(s);
    if k > 0 {
        let p = s.subrange(0, k);
        assert(p.len() < s.len());
        assert(s.subrange(0, p.len() as int) =~= p);
        assert(p[0] == '/');
        assert(p[p.len() - 1] != '/') by {
            assert(s[k - 1] != '/' || s[k] != '/');
            assert(p[p.len() - 1] == s[k - 1]);
        }
        assert forall|i: int| 1 <= i < p.len() implies is_path_char(#[trigger] p[i]) by {
            assert(p[i] == s[i]);
        }
        assert forall|i: int, j: int|
            #![trigger p[i], p[j]]
            0 <= i && j == i + 1 && j < p.len() implies !(p[i] == '/' && p[j] == '/') by {
            assert(p[i] == s[i] && p[j] == s[j]);
        }
    } else {
        assert(k == 0);
    }
}

/// Law: a proper ancestor of a scope is also an ancestor of that scope's parent.
pub proof fn lemma_ancestor_of_parent(b: Seq<char>, c: Seq<char>)
    requires
        valid_scope(b),
        valid_scope(c),
        ancestor_path(b, c),
        b != c,
    ensures
        parent_path(c) matches Some(p) && ancestor_path(b, p) && p.len() < c.len(),
{
    assert(c != root_path()) by {
        if c == root_path() {
            assert(b.len() >= 1);
        }
    }
    assert(c.len() > 1) by {
        if c.len() == 1 {
            assert(c =~= root_path());
        }
    }
    lemma_parent_is_ancestor(c);
    lemma_last_slash_props(c);
    if b != root_path() {
        let k = last_slash(c);
        assert(b.len() > 1) by {
            if b.len() == 1 {
                assert(b =~= root_path());
            }
        }
        assert(c[b.len() as int] == '/');
        assert(k >= b.len());
        if k > b.len() {
            let p = c.subrange(0, k);
            assert(parent_path(c) == Some(p));
            assert(p.subrange(0, b.len() as int) =~= c.subrange(0, b.len() as int));
            assert(p[b.len() as int] == c[b.len() as int]);
            assert(ancestor_path(b, p));
        } else {
            assert(c.subrange(0, k) =~= b);
            assert(parent_path(c) == Some(b));
        }
    }
}

/// A boundary of a scope path: its end or the index of one of its slashes.
pub open spec fn is_boundary(s: Seq<char>, k: int) -> bool {
    k == s.len() || (0 <= k < s.len() && s[k] == '/')
}

/// Law: cutting a scope at a slash or at its end gives a scope, whose parent is the cut at
/// the previous slash (the root for the first one).
pub proof fn lemma_prefix_parent(s: Seq<char>, j: int, k: int)
    requires
        valid_scope(s),
        s.len() > 1,
        0 <= j < k <= s.len(),
        j == 0 || s[j] == '/',
        k == s.len() || s[k] == '/',
        forall|i: int| j < i < k ==> s[i] != '/',
    ensures
        valid_scope(s.subrange(0, k)),
        k > 1,
        parent_path(s.subrange(0, k)) == Some(if j == 0 {
            root_path()
        } else {
            s.subrange(0, j)
        }),
        j == 0 ==> s.subrange(0, 1) == root_path(),
{
    let q = s.subrange(0, k);
    assert(s.subrange(0, 1) =~= root_path());
    if k == 1 {
        if k == s.len() {
            assert(false) by {
                assert(s.len() == 1);
            }
        } else {
            assert(s[1] == '/' && s[0] == '/');
            assert(false) by {
                assert(no_double_slash(s));
                assert(s[0] == '/' && s[1] == '/');
            }
        }
    }
    assert(q[q.len() - 1] != '/') by {
        if k < s.len() {
            assert(q[q.len() - 1] == s[k - 1]);
            if j < k - 1 {
            } else {
                assert(j == k - 1);
                if j > 0 {
                    assert(s[j] == '/' && s[k] == '/');
                } else {
                    assert(k == 1);
                }
            }
        } else {
            assert(q =~= s);
            assert(s.len() > 1);
        }
    }
    assert forall|i: int| 1 <= i < q.len() implies is_path_char(#[trigger] q[i]) by {
        assert(q[i] == s[i]);
    }
    assert forall|i: int, l: int|
        #![trigger q[i], q[l]]
        0 <= i && l == i + 1 && l < q.len() implies !(q[i] == '/' && q[l] == '/') by {
        assert(q[i] == s[i] && q[l] == s[l]);
    }
    assert(q != root_path()) by {
        assert(q.len() > 1);
    }
    let t = s.subrange(0, j + 1);
    let u = s.subrange(j + 1, k);
    assert(q =~= t + u);
    lemma_last_slash_append_plain(t, u);
    assert(t.last() == '/');
    assert(last_slash(t) == j);
    if j > 0 {
        assert(q.subrange(0, j) =~= s.subrange(0, j));
    }
}

impl Scope {
    /// Check if this scope is an ancestor of (or equal to) the given descendant scope.
    ///
    /// A scope is its own ancestor. Root `/` is ancestor of everything.
    /// `/finance` is ancestor of `/finance/q1` but not of `/legal` or `/fin`.
    pub fn is_ancestor_of(&self, descendant: &Scope) -> (r: bool)
        ensures
            r == ancestor_path(self@, descendant@),
            r <==> (components_path(self@).len() <= components_path(descendant@).len() && components_path(
                descendant@,
            ).take(components_path(self@).len() as int) == components_path(self@)),
    {
        proof {
            use_type_invariant(self);
            use_type_invariant(descendant);
            lemma_ancestor_components(self@, descendant@);
            lemma_valid_scope_ascii(self@);
            lemma_valid_scope_ascii(descendant@);
        }
        if self.is_root() {
            return true;
        }
        if self.0 == descendant.0 {
            return true;
        }
        let a = ascii_bytes(self.0.as_str());
        let d = ascii_bytes(descendant.0.as_str());
        if a.len() >= d.len() {
            return false;
        }
        let mut k: usize = 0;
        while k < a.len()
            invariant
                a@.len() == self@.len(),
                d@.len() == descendant@.len(),
                a@.len() < d@.len(),
                k <= a@.len(),
                self@ != root_path(),
                self@ != descendant@,
                forall|i: int| 0 <= i < a@.len() ==> (#[trigger] a@[i]) as int == self@[i] as int,
                forall|i: int| 0 <= i < d@.len() ==> (#[trigger] d@[i]) as int == descendant@[i] as int,
                forall|i: int| 0 <= i < k ==> self@[i] as int == descendant@[i] as int,
            decreases a@.len() - k,
        {
            if a[k] != d[k] {
                proof {
                    assert((a@[k as int]) as int == self@[k as int] as int);
                    assert((d@[k as int]) as int == descendant@[k as int] as int);
                    assert(self@[k as int] != descendant@[k as int]);
                    assert(descendant@.subrange(0, a@.len() as int)[k as int] == descendant@[k as int]);
                    assert(descendant@.subrange(0, a@.len() as int) != self@);
                    assert(self@ != root_path());
                    assert(self@ != descendant@);
                    use_type_invariant(self);
                    use_type_invariant(descendant);
                    lemma_ancestor_components(self@, descendant@);
                }
                return false;
            }
            k = k + 1;
        }
        proof {
            lemma_same_codes(self@, descendant@, self@.len() as int);
            assert(self@.subrange(0, self@.len() as int) =~= self@);
        }
        d[a.len()] == 47
    }

    /// Return the path components (excluding the leading `/`).
    /// Root returns an empty vector; `/finance/q1` returns `["finance", "q1"]`.
    pub fn components(&self) -> (r: Vec<&str>)
        ensures
            str_views(r@) == components_path(self@),
    {
        proof {
            use_type_invariant(self);
            lemma_valid_scope_ascii(self@);
        }
        let mut out: Vec<&str> = Vec::new();
        if self.is_root() {
            assert(str_views(out@) =~= components_path(self@));
            return out;
        }
        let s = self.0.as_str();
        let b = ascii_bytes(s);
        let n = b.len();
        let mut start: usize = 1;
        let mut i: usize = 1;
        proof {
            assert(s@.subrange(1, 1) =~= Seq::<char>::empty());
            assert(str_views(out@).push(s@.subrange(1, 1)) =~= split_slash(s@.subrange(1, 1)));
        }
        while i < n
            invariant
                s@ == self@,
                vstd::utf8::is_ascii_chars(s@),
                b@.len() == n,
                n == s@.len(),
                1 <= start <= i <= n,
                forall|k: int| 0 <= k < s@.len() ==> (#[trigger] b@[k] == 47) == (s@[k] == '/'),
                str_views(out@).push(s@.subrange(start as int, i as int)) == split_slash(
                    s@.subrange(1, i as int),
                ),
            decreases n - i,
        {
            let ghost old_out = out@;
            proof {
                lemma_split_step(s@.subrange(1, n as int), i - 1);
                assert(s@.subrange(1, n as int).subrange(0, i - 1) =~= s@.subrange(1, i as int));
                assert(s@.subrange(1, n as int).subrange(0, i as int) =~= s@.subrange(
                    1,
                    i + 1,
                ));
            }
            if b[i] == 47 {
                let seg = s.substring_ascii(start, i);
                out.push(seg);
                proof {
                    assert(str_views(out@) =~= str_views(old_out).push(s@.subrange(
                        start as int,
                        i as int,
                    )));
                    assert(s@.subrange(i + 1, i + 1) =~= Seq::<char>::empty());
                }
                start = i + 1;
            } else {
                proof {
                    assert(s@.subrange(start as int, i + 1) =~= s@.subrange(
                        start as int,
                        i as int,
                    ).push(s@[i as int]));
                    assert(str_views(out@).push(s@.subrange(start as int, i + 1)) =~= split_slash(
                        s@.subrange(1, i as int),
                    ).update(
                        split_slash(s@.subrange(1, i as int)).len() - 1,
                        split_slash(s@.subrange(1, i as int)).last().push(s@[i as int]),
                    ));
                }
            }
            i = i + 1;
        }
        let last = s.substring_ascii(start, n);
        let ghost before = out@;
        out.push(last);
        proof {
            assert(str_views(out@) =~= str_views(before).push(s@.subrange(start as int, n as int)));
            assert(s@.subrange(1, n as int) =~= s@.drop_first());
        }
        out
    }

    /// Return the depth of the scope (number of path segments).
    /// Root `/` has depth 0, `/finance` depth 1, `/finance/q1` depth 2.
    pub fn depth(&self) -> (r: usize)
        ensures
            r == depth_path(self@),
    {
        proof {
            use_type_invariant(self);
            lemma_valid_scope_ascii(self@);
        }
        if self.is_root() {
            return 0;
        }
        let s = self.0.as_str();
        let b = ascii_bytes(s);
        let n = b.len();
        let mut count: usize = 1;
        let mut i: usize = 1;
        proof {
            assert(s@.subrange(1, 1) =~= Seq::<char>::empty());
        }
        while i < n
            invariant
                b@.len() == n,
                n == s@.len(),
                1 <= i <= n,
                1 <= count <= i,
                forall|k: int| 0 <= k < s@.len() ==> (#[trigger] b@[k] == 47) == (s@[k] == '/'),
                count == split_slash(s@.subrange(1, i as int)).len(),
            decreases n - i,
        {
            proof {
                lemma_split_step(s@.subrange(1, n as int), i - 1);
                assert(s@.subrange(1, n as int).subrange(0, i - 1) =~= s@.subrange(1, i as int));
                assert(s@.subrange(1, n as int).subrange(0, i as int) =~= s@.subrange(
                    1,
                    i + 1,
                ));
            }
            if b[i] == 47 {
                count = count + 1;
            }
            i = i + 1;
        }
        proof {
            assert(s@.subrange(1, n as int) =~= s@.drop_first());
        }
        count
    }

    /// Return the parent scope, or `None` for the root.
    pub fn parent(&self) -> (r: Option<Scope>)
        ensures
            match r {
                Some(p) => parent_path(self@) == Some(p@),
                None => parent_path(self@) is None,
            },
    {
        proof {
            use_type_invariant(self);
            lemma_valid_scope_ascii(self@);
        }
        if self.is_root() {
            return None;
        }
        let s = self.0.as_str();
        let b = ascii_bytes(s);
        let n = b.len();
        let mut i: usize = n - 1;
        proof {
            assert(s@.subrange(0, n as int) =~= s@);
        }
        while i > 0 && b[i] != 47
            invariant
                b@.len() == n,
                n == s@.len(),
                n >= 1,
                i < n,
                forall|k: int| 0 <= k < s@.len() ==> (#[trigger] b@[k] == 47) == (s@[k] == '/'),
                last_slash(s@) == last_slash(s@.subrange(0, i + 1)),
            decreases i,
        {
            proof {
                lemma_last_slash_prefix(s@, i as int);
                assert(s@.subrange(0, i as int) =~= s@.subrange(0, (i - 1) + 1));
            }
            i = i - 1;
        }
        proof {
            assert(s@.subrange(0, i + 1).last() == s@[i as int]);
        }
        if i == 0 {
            proof {
                assert(last_slash(s@.subrange(0, 1)) == 0) by {
                    assert(s@.subrange(0, 1).last() == s@[0]);
                }
            }
            return Some(Scope::root());
        }
        proof {
            lemma_parent_is_ancestor(s@);
        }
        let p = String::from_str(s.substring_ascii(0, i));
        Some(Scope(p))
    }

    /// Create a child scope by appending a segment.
    pub fn child(&self, segment: &str) -> (r: Result<Scope>)
        ensures
            r is Ok <==> valid_segment(segment@),
            r matches Ok(c) ==> c@ == child_path(self@, segment@),
            r matches Ok(c) ==> parent_path(c@) == Some(self@) && components_path(c@) == components_path(
                self@,
            ).push(segment@) && depth_path(c@) == depth_path(self@) + 1 && ancestor_path(self@, c@) && c@ != self@,
            r matches Err(e) ==> e is InvalidScope,
    {
        proof {
            use_type_invariant(self);
        }
        if segment.is_empty() {
            return Err(invalid("segment cannot be empty"));
        }
        if !segment.is_ascii() {
            proof {
                if valid_segment(segment@) {
                    lemma_valid_segment_ascii(segment@);
                }
            }
            return Err(invalid("segment contains a non-ASCII character"));
        }
        let b = segment.as_bytes();
        let n = b.len();
        let mut j: usize = 0;
        while j < n
            invariant
                n == b@.len(),
                n == segment@.len(),
                j <= n,
                vstd::utf8::is_ascii_chars(segment@),
                forall|k: int| 0 <= k < n ==> b@[k] == #[trigger] segment@[k] as u8,
                forall|k: int| 0 <= k < j ==> is_segment_char(#[trigger] segment@[k]),
            decreases n - j,
        {
            proof {
                lemma_ascii_byte(segment@[j as int], b@[j as int]);
            }
            if b[j] == 47 {
                return Err(invalid("segment must not contain '/'"));
            }
            if !byte_is_segment_char(b[j]) {
                return Err(invalid("segment contains an invalid character"));
            }
            j = j + 1;
        }
        proof {
            lemma_child_valid(self@, segment@);
            lemma_parent_of_child(self@, segment@);
            lemma_components_of_child(self@, segment@);
            lemma_child_is_descendant(self@, segment@);
            reveal_strlit("/");
        }
        let path = if self.is_root() {
            let mut p = String::from_str("/");
            p.append(segment);
            assert(p@ =~= child_path(self@, segment@));
            p
        } else {
            let mut p = self.0.clone();
            p.append("/");
            p.append(segment);
            assert(p@ =~= child_path(self@, segment@));
            p
        };
        Ok(Scope(path))
    }
}

} // verus!

