//! Declarative access policy: which read keys are granted which scopes.
use vstd::prelude::*;
use crate::bytes::{bytes_less, bytes_lt, lemma_bytes_lt_total, lemma_bytes_lt_transitive};
use crate::crypto::{base58_text, now_unix_secs};
use crate::bytes::array8;
use crate::error::Result;
use crate::keys::key_id::{key_id_from_text, KeyId};
use crate::proto::rok;
use crate::proto::rok::{byte_vec_views, decode_policy_msg, policy_msg_bytes, RuleMsg};
use crate::keys::scope::{ancestor_path, valid_scope, Scope};
use vstd::utf8::encode_utf8;

verus! {

/// A single access rule: a scope, the Base58 key identifiers granted it, and an optional
/// expiry (Unix seconds).
#[derive(Debug)]
pub struct AccessRule {
    pub scope: String,
    pub recipient_key_ids: Vec<String>,
    pub expires_at: Option<u64>,
}

/// The mathematical content of an access rule.
pub struct RuleView {
    pub scope: Seq<char>,
    pub recipient_key_ids: Seq<Seq<char>>,
    pub expires_at: Option<u64>,
}

/// The texts of a sequence of strings.
pub open spec fn string_views(v: Seq<String>) -> Seq<Seq<char>> {
    v.map_values(|s: String| s@)
}

impl View for AccessRule {
    type V = RuleView;

    open spec fn view(&self) -> RuleView {
        RuleView {
            scope: self.scope@,
            recipient_key_ids: string_views(self.recipient_key_ids@),
            expires_at: self.expires_at,
        }
    }
}

/// The views of a sequence of rules.
pub open spec fn rule_views(v: Seq<AccessRule>) -> Seq<RuleView> {
    v.map_values(|r: AccessRule| r@)
}

/// Declarative mapping of scopes to authorized read keys.
///
/// Used to decide which recipients should receive access to data at a given scope.
#[derive(Debug)]
pub struct AccessPolicy {
    rules: Vec<AccessRule>,
}

impl View for AccessPolicy {
    type V = Seq<RuleView>;

    closed spec fn view(&self) -> Seq<RuleView> {
        rule_views(self.rules@)
    }
}

/// Whether `i` is the first rule for the scope text `s`.
pub open spec fn is_first_rule(rules: Seq<RuleView>, s: Seq<char>, i: int) -> bool {
    &&& 0 <= i < rules.len()
    &&& rules[i].scope == s
    &&& forall|j: int| 0 <= j < i ==> (#[trigger] rules[j]).scope != s
}

/// The rules after granting the key text `k` at scope `s`: the first rule for `s` gains
/// `k` unless it lists it already (its expiry is kept); without such a rule a new one is
/// appended with the given expiry.
pub open spec fn granted(rules: Seq<RuleView>, s: Seq<char>, k: Seq<char>, expires_at: Option<u64>) -> Seq<RuleView> {
    if exists|i: int| is_first_rule(rules, s, i) {
        let i = choose|i: int| is_first_rule(rules, s, i);
        let r = rules[i];
        rules.update(
            i,
            RuleView {
                recipient_key_ids: if r.recipient_key_ids.contains(k) {
                    r.recipient_key_ids
                } else {
                    r.recipient_key_ids.push(k)
                },
                ..r
            },
        )
    } else {
        rules.push(RuleView { scope: s, recipient_key_ids: seq![k], expires_at })
    }
}

/// The rules after revoking the key text `k` at scope `s`: the first rule for `s` drops
/// every occurrence of `k`; nothing changes without such a rule.
pub open spec fn revoked(rules: Seq<RuleView>, s: Seq<char>, k: Seq<char>) -> Seq<RuleView> {
    if exists|i: int| is_first_rule(rules, s, i) {
        let i = choose|i: int| is_first_rule(rules, s, i);
        let r = rules[i];
        rules.update(
            i,
            RuleView {
                recipient_key_ids: r.recipient_key_ids.filter(other_than(k)),
                ..r
            },
        )
    } else {
        rules
    }
}

/// The predicate "differs from `k`".
pub open spec fn other_than(k: Seq<char>) -> spec_fn(Seq<char>) -> bool {
    |x: Seq<char>| x != k
}

/// Whether a rule grants access at `target` at time `now`: its scope is valid, it is
/// `target` or an ancestor of it, and it has not expired. An expiry of 0 means none.
pub open spec fn rule_applies(r: RuleView, target: Seq<char>, now: u64) -> bool {
    &&& valid_scope(r.scope)
    &&& ancestor_path(r.scope, target)
    &&& !(r.expires_at matches Some(e) && e != 0 && now > e)
}

/// The key texts of the rules that apply at `target` at time `now`, rule by rule.
pub open spec fn granted_list(rules: Seq<RuleView>, target: Seq<char>, now: u64) -> Seq<Seq<char>>
    decreases rules.len(),
{
    if rules.len() == 0 {
        seq![]
    } else {
        granted_list(rules.drop_last(), target, now) + if rule_applies(rules.last(), target, now) {
            rules.last().recipient_key_ids
        } else {
            seq![]
        }
    }
}

/// Whether `v` holds exactly the key texts granted at `target` at time `now`.
pub open spec fn lists_granted(v: Seq<Seq<char>>, rules: Seq<RuleView>, target: Seq<char>, now: u64) -> bool {
    forall|k: Seq<char>| #[trigger] v.contains(k) <==> granted_list(rules, target, now).contains(k)
}

/// Order on texts: lexicographic on their UTF-8 bytes, the order of `String`.
pub open spec fn text_lt(a: Seq<char>, b: Seq<char>) -> bool {
    bytes_lt(encode_utf8(a), encode_utf8(b))
}

/// Strictly increasing, hence sorted and free of duplicates.
pub open spec fn strictly_sorted(v: Seq<Seq<char>>) -> bool {
    forall|i: int, j: int| 0 <= i < j < v.len() ==> text_lt(#[trigger] v[i], #[trigger] v[j])
}

proof fn lemma_first_rule_unique(rules: Seq<RuleView>, s: Seq<char>, i: int)
    requires
        is_first_rule(rules, s, i),
    ensures
        (choose|j: int| is_first_rule(rules, s, j)) == i,
{
    let j = choose|j: int| is_first_rule(rules, s, j);
    assert(is_first_rule(rules, s, j));
    if j < i {
        assert(rules[j].scope != s);
    } else if i < j {
        assert(rules[i].scope != s);
    }
}

/// Where some rule has scope `s`, there is a first one.
proof fn lemma_first_rule_exists(rules: Seq<RuleView>, s: Seq<char>, j: int)
    requires
        0 <= j < rules.len(),
        rules[j].scope == s,
    ensures
        exists|i: int| is_first_rule(rules, s, i),
    decreases j,
{
    if exists|k: int| 0 <= k < j && rules[k].scope == s {
        let k = choose|k: int| 0 <= k < j && rules[k].scope == s;
        lemma_first_rule_exists(rules, s, k);
    } else {
        assert(is_first_rule(rules, s, j));
    }
}

/// After a grant, the first rule for the scope lists the key.
pub proof fn lemma_grant_lists(rules: Seq<RuleView>, s: Seq<char>, k: Seq<char>, expires_at: Option<u64>)
    ensures
        exists|i: int|
            is_first_rule(granted(rules, s, k, expires_at), s, i) && (#[trigger] granted(
                rules,
                s,
                k,
                expires_at,
            )[i]).recipient_key_ids.contains(k),
{
    let g = granted(rules, s, k, expires_at);
    if exists|i: int| is_first_rule(rules, s, i) {
        let i = choose|i: int| is_first_rule(rules, s, i);
        let ids = rules[i].recipient_key_ids;
        if !ids.contains(k) {
            assert(ids.push(k)[ids.len() as int] == k);
        }
        assert(is_first_rule(g, s, i));
        assert(g[i].recipient_key_ids.contains(k));
    } else {
        let i = rules.len() as int;
        assert forall|j: int| 0 <= j < i implies (#[trigger] g[j]).scope != s by {
            if rules[j].scope == s {
                lemma_first_rule_exists(rules, s, j);
            }
        }
        assert(is_first_rule(g, s, i));
        assert(g[i].recipient_key_ids[0] == k);
        assert(g[i].recipient_key_ids.contains(k));
    }
}

/// Granting twice is granting once: a key already granted at a scope is not listed again,
/// and the second grant's expiry changes nothing.
pub proof fn lemma_grant_idempotent(
    rules: Seq<RuleView>,
    s: Seq<char>,
    k: Seq<char>,
    expires_at: Option<u64>,
    again: Option<u64>,
)
    ensures
        granted(granted(rules, s, k, expires_at), s, k, again) == granted(rules, s, k, expires_at),
{
    let g = granted(rules, s, k, expires_at);
    lemma_grant_lists(rules, s, k, expires_at);
    let i = choose|i: int| is_first_rule(g, s, i) && (#[trigger] g[i]).recipient_key_ids.contains(k);
    lemma_first_rule_unique(g, s, i);
    let r = g[i];
    assert(RuleView { recipient_key_ids: r.recipient_key_ids, ..r } == r);
    assert(g.update(i, r) =~= g);
}

/// After a revoke, the first rule for the scope no longer lists the key.
pub proof fn lemma_revoke_unlists(rules: Seq<RuleView>, s: Seq<char>, k: Seq<char>)
    ensures
        forall|i: int|
            is_first_rule(revoked(rules, s, k), s, i) ==> !(#[trigger] revoked(rules, s, k)[i]).recipient_key_ids.contains(k),
{
    let v = revoked(rules, s, k);
    if exists|i: int| is_first_rule(rules, s, i) {
        let i = choose|i: int| is_first_rule(rules, s, i);
        assert(is_first_rule(v, s, i));
        lemma_first_rule_unique(v, s, i);
        let ids = rules[i].recipient_key_ids.filter(other_than(k));
        if ids.contains(k) {
            let j = choose|j: int| 0 <= j < ids.len() && ids[j] == k;
            rules[i].recipient_key_ids.lemma_filter_pred(other_than(k), j);
        }
        assert forall|m: int| is_first_rule(v, s, m) implies !(#[trigger] v[m]).recipient_key_ids.contains(k) by {
            lemma_first_rule_unique(v, s, m);
        }
    } else {
        assert forall|m: int| is_first_rule(v, s, m) implies !(#[trigger] v[m]).recipient_key_ids.contains(k) by {
            assert(is_first_rule(rules, s, m));
        }
    }
}

/// Whether some rule with a valid scope at `target` or above it, unexpired at `now` (an
/// expiry of 0 meaning none), lists the key text `k`.
pub open spec fn granted_by_some_rule(rules: Seq<RuleView>, target: Seq<char>, now: u64, k: Seq<char>) -> bool {
    exists|i: int|
        #![trigger rules[i]]
        0 <= i < rules.len() && valid_scope(rules[i].scope) && ancestor_path(rules[i].scope, target) && !(
        rules[i].expires_at matches Some(e) && e != 0 && now > e) && rules[i].recipient_key_ids.contains(k)
}

/// Law: the key texts granted at a scope are exactly those that some unexpired rule at
/// that scope or one of its ancestors lists; a rule at a strict descendant of the scope,
/// or an expired one, grants nothing there.
pub proof fn lemma_granted_by_ancestor_rules(rules: Seq<RuleView>, target: Seq<char>, now: u64)
    ensures
        forall|k: Seq<char>|
            #[trigger] granted_list(rules, target, now).contains(k) <==> granted_by_some_rule(rules, target, now, k),
    decreases rules.len(),
{
    if rules.len() > 0 {
        let r0 = rules.drop_last();
        lemma_granted_by_ancestor_rules(r0, target, now);
        let last = rules.last();
        let tail = if rule_applies(last, target, now) {
            last.recipient_key_ids
        } else {
            seq![]
        };
        assert forall|k: Seq<char>|
            #[trigger] granted_list(rules, target, now).contains(k) <==> granted_by_some_rule(rules, target, now, k) by {
            lemma_contains_concat(granted_list(r0, target, now), tail, k);
            if granted_by_some_rule(r0, target, now, k) {
                let i = choose|i: int|
                    #![trigger r0[i]]
                    0 <= i < r0.len() && valid_scope(r0[i].scope) && ancestor_path(r0[i].scope, target) && !(
                    r0[i].expires_at matches Some(e) && e != 0 && now > e) && r0[i].recipient_key_ids.contains(k);
                assert(rules[i] == r0[i]);
            }
            if granted_by_some_rule(rules, target, now, k) {
                let i = choose|i: int|
                    #![trigger rules[i]]
                    0 <= i < rules.len() && valid_scope(rules[i].scope) && ancestor_path(rules[i].scope, target)
                        && !(rules[i].expires_at matches Some(e) && e != 0 && now > e)
                        && rules[i].recipient_key_ids.contains(k);
                if i < r0.len() {
                    assert(rules[i] == r0[i]);
                } else {
                    assert(rules[i] == last);
                }
            }
            if tail.contains(k) {
                assert(rules[rules.len() - 1] == last);
            }
        }
    }
}

proof fn lemma_contains_push(s: Seq<Seq<char>>, x: Seq<char>, k: Seq<char>)
    ensures
        s.push(x).contains(k) <==> (s.contains(k) || k == x),
{
    if s.contains(k) {
        let i = choose|i: int| 0 <= i < s.len() && s[i] == k;
        assert(s.push(x)[i] == k);
    }
    if k == x {
        assert(s.push(x)[s.len() as int] == k);
    }
    if s.push(x).contains(k) {
        let i = choose|i: int| 0 <= i < s.len() + 1 && s.push(x)[i] == k;
        if i < s.len() {
            assert(s[i] == k);
        }
    }
}

proof fn lemma_contains_concat(a: Seq<Seq<char>>, b: Seq<Seq<char>>, k: Seq<char>)
    ensures
        (a + b).contains(k) <==> (a.contains(k) || b.contains(k)),
{
    if a.contains(k) {
        let i = choose|i: int| 0 <= i < a.len() && a[i] == k;
        assert((a + b)[i] == k);
    }
    if b.contains(k) {
        let i = choose|i: int| 0 <= i < b.len() && b[i] == k;
        assert((a + b)[a.len() + i] == k);
    }
    if (a + b).contains(k) {
        let i = choose|i: int| 0 <= i < a.len() + b.len() && (a + b)[i] == k;
        if i < a.len() {
            assert(a[i] == k);
        } else {
            assert(b[i - a.len()] == k);
        }
    }
}

proof fn lemma_text_lt_total(a: Seq<char>, b: Seq<char>)
    requires
        a != b,
    ensures
        text_lt(a, b) || text_lt(b, a),
{
    vstd::utf8::encode_utf8_decode_utf8(a);
    vstd::utf8::encode_utf8_decode_utf8(b);
    lemma_bytes_lt_total(encode_utf8(a), encode_utf8(b));
}

/// Inserts a text into a strictly sorted vector, keeping it strictly sorted.
fn insert_sorted(v: &mut Vec<String>, x: &String)
    requires
        strictly_sorted(string_views(old(v)@)),
    ensures
        strictly_sorted(string_views(final(v)@)),
        forall|k: Seq<char>|
            #[trigger] string_views(final(v)@).contains(k) <==> (string_views(old(v)@).contains(k)
                || k == x@),
{
    let ghost old_views = string_views(v@);
    let xb = x.as_str().as_bytes();
    let mut p: usize = 0;
    while p < v.len() && bytes_less(v[p].as_str().as_bytes(), xb)
        invariant
            p <= v@.len(),
            v@ == old(v)@,
            old_views == string_views(v@),
            xb@ == encode_utf8(x@),
            forall|i: int| 0 <= i < p ==> text_lt(#[trigger] old_views[i], x@),
        decreases v@.len() - p,
    {
        p = p + 1;
    }
    if p < v.len() && v[p] == *x {
        proof {
            assert(old_views[p as int] == x@);
            assert forall|k: Seq<char>| #[trigger] old_views.contains(k) <==> (old_views.contains(k) || k == x@) by {
                if k == x@ {
                    assert(old_views[p as int] == k);
                }
            }
        }
        return;
    }
    proof {
        if p < old_views.len() {
            assert(!text_lt(old_views[p as int], x@));
            assert(old_views[p as int] != x@);
            lemma_text_lt_total(old_views[p as int], x@);
        }
    }
    v.insert(p, x.clone());
    proof {
        let nv = string_views(v@);
        assert(nv =~= old_views.insert(p as int, x@));
        assert forall|i: int, j: int| 0 <= i < j < nv.len() implies text_lt(#[trigger] nv[i], #[trigger] nv[j]) by {
            if j < p {
            } else if j == p {
            } else if i < p {
                if j - 1 > p {
                    lemma_bytes_lt_transitive(encode_utf8(x@), encode_utf8(old_views[p as int]), encode_utf8(nv[j]));
                }
                lemma_bytes_lt_transitive(encode_utf8(nv[i]), encode_utf8(x@), encode_utf8(nv[j]));
            } else if i == p {
                if j - 1 > p {
                    lemma_bytes_lt_transitive(encode_utf8(x@), encode_utf8(old_views[p as int]), encode_utf8(nv[j]));
                }
            } else {
                assert(nv[i] == old_views[i - 1] && nv[j] == old_views[j - 1]);
            }
        }
        assert forall|k: Seq<char>| #[trigger] nv.contains(k) <==> (old_views.contains(k) || k == x@) by {
            if old_views.contains(k) {
                let i = choose|i: int| 0 <= i < old_views.len() && old_views[i] == k;
                if i < p {
                    assert(nv[i] == k);
                } else {
                    assert(nv[i + 1] == k);
                }
            }
            if k == x@ {
                assert(nv[p as int] == k);
            }
            if nv.contains(k) {
                let i = choose|i: int| 0 <= i < nv.len() && nv[i] == k;
                if i < p {
                    assert(old_views[i] == k);
                } else if i > p {
                    assert(old_views[i - 1] == k);
                }
            }
        }
    }
}

/// A copy of a list of strings.
fn copy_strings(v: &Vec<String>) -> (r: Vec<String>)
    ensures
        string_views(r@) == string_views(v@),
{
    let mut r: Vec<String> = Vec::new();
    let mut i: usize = 0;
    while i < v.len()
        invariant
            i <= v@.len(),
            string_views(r@) == string_views(v@.subrange(0, i as int)),
        decreases v@.len() - i,
    {
        let c = v[i].clone();
        assert(c@ == v@[i as int]@);
        let ghost before = r@;
        r.push(c);
        i = i + 1;
        assert(string_views(r@) =~= string_views(before).push(c@));
        assert(string_views(v@.subrange(0, i as int)) =~= string_views(v@.subrange(0, i - 1)).push(c@));
    }
    assert(v@.subrange(0, v@.len() as int) =~= v@);
    r
}

/// The key ID field of a Base58 key ID text: its 8 bytes, or nothing for a text that is no
/// key ID.
pub open spec fn key_id_field(text: Seq<char>) -> Seq<u8> {
    match key_id_from_text(text) {
        Some(b) => b,
        None => seq![],
    }
}

/// The message of a rule: key ID texts as their bytes, no expiry as zero.
pub open spec fn rule_message_of(r: RuleView) -> RuleMsg {
    RuleMsg {
        scope: r.scope,
        recipient_key_ids: r.recipient_key_ids.map_values(|t: Seq<char>| key_id_field(t)),
        expires_at: match r.expires_at {
            Some(x) => x,
            None => 0,
        },
    }
}

/// The Base58 texts of the 8-byte key ID fields, in order; other fields are dropped.
pub open spec fn key_id_texts(bs: Seq<Seq<u8>>) -> Seq<Seq<char>>
    decreases bs.len(),
{
    if bs.len() == 0 {
        seq![]
    } else {
        let prev = key_id_texts(bs.drop_last());
        let b = bs.last();
        if b.len() == 8 && base58_text(b).len() > 0 {
            prev.push(base58_text(b))
        } else {
            prev
        }
    }
}

/// The rule of a message: key IDs as Base58 texts, a zero expiry as none.
pub open spec fn rule_of_message(m: RuleMsg) -> RuleView {
    RuleView {
        scope: m.scope,
        recipient_key_ids: key_id_texts(m.recipient_key_ids),
        expires_at: if m.expires_at == 0 {
            None
        } else {
            Some(m.expires_at)
        },
    }
}

/// A key ID text that its protobuf form carries unchanged: the canonical Base58 text of
/// an 8-byte key ID.
pub open spec fn canonical_key_id_text(t: Seq<char>) -> bool {
    &&& t.len() > 0
    &&& key_id_from_text(t) matches Some(b) && base58_text(b) == t
}

/// A rule that its protobuf form carries unchanged: canonical key ID texts and no expiry
/// at time zero.
pub open spec fn proto_keeps_rule(r: RuleView) -> bool {
    &&& forall|i: int|
        0 <= i < r.recipient_key_ids.len() ==> canonical_key_id_text(
            #[trigger] r.recipient_key_ids[i],
        )
    &&& r.expires_at != Some(0u64)
}

proof fn lemma_key_id_texts_roundtrip(ts: Seq<Seq<char>>)
    requires
        forall|i: int| 0 <= i < ts.len() ==> canonical_key_id_text(#[trigger] ts[i]),
    ensures
        key_id_texts(ts.map_values(|t: Seq<char>| key_id_field(t))) == ts,
    decreases ts.len(),
{
    let bs = ts.map_values(|t: Seq<char>| key_id_field(t));
    if ts.len() == 0 {
        assert(ts =~= Seq::<Seq<char>>::empty());
    } else {
        let init = ts.drop_last();
        assert(bs.drop_last() =~= init.map_values(|t: Seq<char>| key_id_field(t)));
        assert forall|i: int| 0 <= i < init.len() implies canonical_key_id_text(#[trigger] init[i]) by {
            assert(canonical_key_id_text(ts[i]));
        }
        lemma_key_id_texts_roundtrip(init);
        assert(canonical_key_id_text(ts[ts.len() - 1]));
        assert(init.push(ts.last()) =~= ts);
    }
}

/// Writing a policy's rules as protobuf messages and reading them back gives the same
/// rules, where every key ID text is canonical Base58 and no rule expires at time zero.
pub proof fn lemma_policy_proto_roundtrip(rules: Seq<RuleView>)
    requires
        forall|i: int| 0 <= i < rules.len() ==> proto_keeps_rule(#[trigger] rules[i]),
    ensures
        rules.map_values(|r: RuleView| rule_message_of(r)).map_values(
            |m: RuleMsg| rule_of_message(m),
        ) == rules,
{
    let back = rules.map_values(|r: RuleView| rule_message_of(r)).map_values(
        |m: RuleMsg| rule_of_message(m),
    );
    assert forall|i: int| 0 <= i < rules.len() implies back[i] == rules[i] by {
        let r = rules[i];
        assert(proto_keeps_rule(r));
        lemma_key_id_texts_roundtrip(r.recipient_key_ids);
    }
    assert(back =~= rules);
}

fn key_id_bytes(text: &String) -> (r: Vec<u8>)
    ensures
        r@ == key_id_field(text@),
{
    match KeyId::from_base58(text.as_str()) {
        Ok(kid) => {
            let mut v: Vec<u8> = Vec::new();
            crate::bytes::push_bytes(&mut v, kid.as_bytes());
            assert(v@ =~= kid@);
            v
        },
        Err(_) => Vec::new(),
    }
}

impl AccessPolicy {
    /// Create a new empty policy.
    pub fn new() -> (p: AccessPolicy)
        ensures
            p@ == Seq::<RuleView>::empty(),
    {
        let p = AccessPolicy { rules: Vec::new() };
        assert(p@ =~= Seq::<RuleView>::empty());
        p
    }

    /// A policy with the given rules.
    pub fn from_rules(rules: Vec<AccessRule>) -> (p: AccessPolicy)
        ensures
            p@ == rule_views(rules@),
    {
        AccessPolicy { rules }
    }

    /// All rules.
    pub fn rules(&self) -> (r: &[AccessRule])
        ensures
            rule_views(r@) == self@,
    {
        self.rules.as_slice()
    }

    fn find_rule(&self, scope: &String) -> (r: Option<usize>)
        ensures
            match r {
                Some(i) => is_first_rule(self@, scope@, i as int),
                None => !(exists|i: int| is_first_rule(self@, scope@, i)),
            },
    {
        let mut i: usize = 0;
        while i < self.rules.len()
            invariant
                i <= self.rules@.len(),
                forall|j: int| 0 <= j < i ==> (#[trigger] self@[j]).scope != scope@,
            decreases self.rules@.len() - i,
        {
            if self.rules[i].scope == *scope {
                return Some(i);
            }
            i = i + 1;
        }
        proof {
            assert forall|i: int| !is_first_rule(self@, scope@, i) by {
                if 0 <= i < self@.len() {
                    assert(self@[i].scope != scope@);
                }
            }
        }
        None
    }

    /// Grant access at a scope to a recipient key (listed once per rule).
    pub fn grant(&mut self, scope: &Scope, key_id: &KeyId, expires_at: Option<u64>)
        ensures
            final(self)@ == granted(old(self)@, scope@, base58_text(key_id@), expires_at),
    {
        let key_str = key_id.to_base58();
        let ghost k = key_str@;
        let scope_str = String::from_str(scope.as_str());
        match self.find_rule(&scope_str) {
            Some(i) => {
                proof {
                    lemma_first_rule_unique(self@, scope@, i as int);
                }
                let rule = &self.rules[i];
                let mut ids = copy_strings(&rule.recipient_key_ids);
                let mut present = false;
                let mut j: usize = 0;
                while j < ids.len()
                    invariant
                        j <= ids@.len(),
                        present <==> exists|m: int| 0 <= m < j && (#[trigger] ids@[m])@ == key_str@,
                    decreases ids@.len() - j,
                {
                    if ids[j] == key_str {
                        present = true;
                    }
                    j = j + 1;
                }
                let ghost old_ids = string_views(ids@);
                assert(present == old_ids.contains(key_str@)) by {
                    if present {
                        let m = choose|m: int| 0 <= m < j && (#[trigger] ids@[m])@ == key_str@;
                        assert(old_ids[m] == key_str@);
                    }
                    if old_ids.contains(key_str@) {
                        let m = choose|m: int| 0 <= m < old_ids.len() && old_ids[m] == key_str@;
                        assert(ids@[m]@ == key_str@);
                    }
                }
                if !present {
                    ids.push(key_str);
                    assert(string_views(ids@) =~= old_ids.push(k));
                }
                let new_rule = AccessRule {
                    scope: rule.scope.clone(),
                    recipient_key_ids: ids,
                    expires_at: rule.expires_at,
                };
                self.rules.set(i, new_rule);
                proof {
                    assert(self@ =~= granted(old(self)@, scope@, base58_text(key_id@), expires_at));
                }
            },
            None => {
                let mut ids: Vec<String> = Vec::new();
                ids.push(key_str);
                self.rules.push(
                    AccessRule { scope: scope_str, recipient_key_ids: ids, expires_at },
                );
                proof {
                    assert(string_views(ids@) =~= seq![base58_text(key_id@)]);
                    assert(self@ =~= granted(old(self)@, scope@, base58_text(key_id@), expires_at));
                }
            },
        }
    }

    /// Revoke a key's access at a scope: the first rule for the scope drops the key.
    pub fn revoke(&mut self, scope: &Scope, key_id: &KeyId)
        ensures
            final(self)@ == revoked(old(self)@, scope@, base58_text(key_id@)),
    {
        let key_str = key_id.to_base58();
        let ghost k = key_str@;
        let scope_str = String::from_str(scope.as_str());
        match self.find_rule(&scope_str) {
            Some(i) => {
                proof {
                    lemma_first_rule_unique(self@, scope@, i as int);
                }
                let rule = &self.rules[i];
                let ghost old_ids = string_views(rule.recipient_key_ids@);
                let mut kept: Vec<String> = Vec::new();
                let mut j: usize = 0;
                while j < rule.recipient_key_ids.len()
                    invariant
                        j <= old_ids.len(),
                        old_ids == string_views(rule.recipient_key_ids@),
                        k == key_str@,
                        string_views(kept@) == old_ids.subrange(0, j as int).filter(other_than(k)),
                    decreases old_ids.len() - j,
                {
                    let ghost before = kept@;
                    let id = &rule.recipient_key_ids[j];
                    let same = *id == key_str;
                    assert(same == (id@ == k));
                    if !same {
                        let c = id.clone();
                        kept.push(c);
                        assert(string_views(kept@) =~= string_views(before).push(c@));
                    }
                    j = j + 1;
                    proof {
                        let pre = old_ids.subrange(0, j as int);
                        assert(pre.drop_last() =~= old_ids.subrange(0, j - 1));
                        assert(pre.last() == old_ids[j - 1]);
                        assert(old_ids[j - 1] == id@);
                        assert(other_than(k)(pre.last()) == (pre.last() != k));
                        reveal(Seq::filter);
                        assert(pre.filter(other_than(k)) == if other_than(k)(pre.last()) {
                            pre.drop_last().filter(other_than(k)).push(pre.last())
                        } else {
                            pre.drop_last().filter(other_than(k))
                        });
                        let sub = old_ids.subrange(0, j - 1);
                        assert(pre.drop_last().filter(other_than(k)) == sub.filter(other_than(k)));
                        assert(string_views(before) == sub.filter(other_than(k)));
                        if id@ != k {
                            assert(string_views(kept@) == string_views(before).push(id@));
                        } else {
                            assert(string_views(kept@) == string_views(before));
                        }
                        assert(string_views(kept@) =~= pre.filter(other_than(k)));
                    }
                }
                assert(old_ids.subrange(0, old_ids.len() as int) =~= old_ids);
                let new_rule = AccessRule {
                    scope: rule.scope.clone(),
                    recipient_key_ids: kept,
                    expires_at: rule.expires_at,
                };
                self.rules.set(i, new_rule);
                proof {
                    assert(self@ =~= revoked(old(self)@, scope@, k));
                }
            },
            None => {},
        }
    }

    /// The key texts granted at a scope at time `now` (Unix seconds): those of every
    /// unexpired rule at the scope or an ancestor of it, sorted, each once.
    pub fn key_ids_for_scope_at(&self, scope: &Scope, now: u64) -> (r: Vec<String>)
        ensures
            strictly_sorted(string_views(r@)),
            lists_granted(string_views(r@), self@, scope@, now),
            forall|k: Seq<char>|
                #[trigger] string_views(r@).contains(k) <==> granted_by_some_rule(self@, scope@, now, k),
    {
        let mut result: Vec<String> = Vec::new();
        let mut i: usize = 0;
        while i < self.rules.len()
            invariant
                i <= self@.len(),
                self@.len() == self.rules@.len(),
                strictly_sorted(string_views(result@)),
                forall|k: Seq<char>|
                    #[trigger] string_views(result@).contains(k) <==> granted_list(
                        self@.subrange(0, i as int),
                        scope@,
                        now,
                    ).contains(k),
            decreases self@.len() - i,
        {
            let rule = &self.rules[i];
            let ghost prefix = granted_list(self@.subrange(0, i as int), scope@, now);
            let ghost applies = rule_applies(rule@, scope@, now);
            let mut take = false;
            match Scope::new(rule.scope.as_str()) {
                Ok(rule_scope) => {
                    if rule_scope.is_ancestor_of(scope) {
                        take = match rule.expires_at {
                            Some(e) => e == 0 || now <= e,
                            None => true,
                        };
                    }
                },
                Err(_) => {},
            }
            assert(take == applies);
            if take {
                let ids = &rule.recipient_key_ids;
                let mut j: usize = 0;
                while j < ids.len()
                    invariant
                        j <= ids@.len(),
                        strictly_sorted(string_views(result@)),
                        forall|k: Seq<char>|
                            #[trigger] string_views(result@).contains(k) <==> (prefix.contains(k)
                                || string_views(ids@).subrange(0, j as int).contains(k)),
                    decreases ids@.len() - j,
                {
                    insert_sorted(&mut result, &ids[j]);
                    j = j + 1;
                    proof {
                        let sv = string_views(ids@);
                        assert(sv.subrange(0, j as int) =~= sv.subrange(0, j - 1).push(sv[j - 1]));
                        assert forall|k: Seq<char>| #[trigger] string_views(result@).contains(k) <==> (
                        prefix.contains(k) || sv.subrange(0, j as int).contains(k)) by {
                            lemma_contains_push(sv.subrange(0, j - 1), sv[j - 1], k);
                        }
                    }
                }
                assert(string_views(ids@).subrange(0, ids@.len() as int) =~= rule@.recipient_key_ids);
            }
            i = i + 1;
            proof {
                let pre = self@.subrange(0, i as int);
                assert(pre.drop_last() =~= self@.subrange(0, i - 1));
                assert(pre.last() == rule@);
                assert forall|k: Seq<char>| #[trigger] string_views(result@).contains(k) <==> granted_list(
                    pre,
                    scope@,
                    now,
                ).contains(k) by {
                    let extra = if applies { rule@.recipient_key_ids } else { seq![] };
                    lemma_contains_concat(prefix, extra, k);
                    if !applies {
                        assert(!extra.contains(k));
                    }
                }
            }
        }
        assert(self@.subrange(0, self@.len() as int) =~= self@);
        assert(lists_granted(string_views(result@), self@, scope@, now));
        proof {
            lemma_granted_by_ancestor_rules(self@, scope@, now);
        }
        result
    }

    /// The key texts granted at a scope now (by the system clock): those of every
    /// unexpired rule at the scope or an ancestor of it, sorted, each once.
    fn to_proto(&self) -> (r: rok::AccessPolicy)
        ensures
            r@ == self@.map_values(|x: RuleView| rule_message_of(x)),
    {
        let mut rules: Vec<rok::AccessRule> = Vec::new();
        let mut i: usize = 0;
        while i < self.rules.len()
            invariant
                i <= self.rules@.len(),
                rules@.len() == i,
                forall|k: int| 0 <= k < i ==> (#[trigger] rules@[k])@ == rule_message_of(self.rules@[k]@),
            decreases self.rules@.len() - i,
        {
            let r = &self.rules[i];
            let mut ids: Vec<Vec<u8>> = Vec::new();
            let mut j: usize = 0;
            while j < r.recipient_key_ids.len()
                invariant
                    j <= r.recipient_key_ids@.len(),
                    ids@.len() == j,
                    forall|k: int| 0 <= k < j ==> (#[trigger] ids@[k])@ == key_id_field(r.recipient_key_ids@[k]@),
                decreases r.recipient_key_ids@.len() - j,
            {
                ids.push(key_id_bytes(&r.recipient_key_ids[j]));
                j = j + 1;
            }
            let expires_at = match r.expires_at {
                Some(x) => x,
                None => 0,
            };
            let m = rok::AccessRule { scope: r.scope.clone(), recipient_key_ids: ids, expires_at };
            assert(m@.recipient_key_ids =~= r@.recipient_key_ids.map_values(|t: Seq<char>| key_id_field(t)));
            rules.push(m);
            i = i + 1;
        }
        let p = rok::AccessPolicy { rules };
        assert(p@ =~= self@.map_values(|x: RuleView| rule_message_of(x)));
        p
    }

    fn from_proto(proto: &rok::AccessPolicy) -> (r: AccessPolicy)
        ensures
            r@ == proto@.map_values(|m: RuleMsg| rule_of_message(m)),
    {
        let mut rules: Vec<AccessRule> = Vec::new();
        let mut i: usize = 0;
        while i < proto.rules.len()
            invariant
                i <= proto.rules@.len(),
                rules@.len() == i,
                forall|k: int| 0 <= k < i ==> (#[trigger] rules@[k])@ == rule_of_message(proto.rules@[k]@),
            decreases proto.rules@.len() - i,
        {
            let m = &proto.rules[i];
            let mut ids: Vec<String> = Vec::new();
            let mut j: usize = 0;
            assert(byte_vec_views(m.recipient_key_ids@).subrange(0, 0) =~= Seq::<Seq<u8>>::empty());
            while j < m.recipient_key_ids.len()
                invariant
                    j <= m.recipient_key_ids@.len(),
                    string_views(ids@) == key_id_texts(byte_vec_views(m.recipient_key_ids@).subrange(0, j as int)),
                decreases m.recipient_key_ids@.len() - j,
            {
                let ghost before = ids@;
                let b = &m.recipient_key_ids[j];
                if b.len() == 8 {
                    let arr = array8(b.as_slice(), 0);
                    assert(b@.subrange(0, 8) =~= b@);
                    let text = KeyId::from_bytes(arr).to_base58();
                    if !text.as_str().is_empty() {
                        ids.push(text);
                        assert(string_views(ids@) =~= string_views(before).push(text@));
                    }
                }
                j = j + 1;
                proof {
                    let pre = byte_vec_views(m.recipient_key_ids@).subrange(0, j as int);
                    assert(pre.drop_last() =~= byte_vec_views(m.recipient_key_ids@).subrange(0, j - 1));
                    assert(pre.last() == b@);
                }
            }
            assert(byte_vec_views(m.recipient_key_ids@).subrange(0, j as int) =~= m@.recipient_key_ids);
            let expires_at = if m.expires_at == 0 {
                None
            } else {
                Some(m.expires_at)
            };
            rules.push(AccessRule { scope: m.scope.clone(), recipient_key_ids: ids, expires_at });
            i = i + 1;
        }
        let p = AccessPolicy { rules };
        assert(p@ =~= proto@.map_values(|m: RuleMsg| rule_of_message(m)));
        p
    }

    /// Serialize the policy to protobuf bytes: key ID texts as their 8 bytes (a text that
    /// is no key ID as an empty field), no expiry as zero.
    pub fn to_proto_bytes(&self) -> (r: Vec<u8>)
        ensures
            r@ == policy_msg_bytes(self@.map_values(|x: RuleView| rule_message_of(x))),
            decode_policy_msg(r@) == Some(self@.map_values(|x: RuleView| rule_message_of(x))),
    {
        let proto = self.to_proto();
        proto.to_proto_bytes()
    }

    /// Deserialize from protobuf bytes: key IDs as Base58 texts (fields of other than 8
    /// bytes are dropped), a zero expiry as none.
    pub fn from_proto_bytes(bytes: &[u8]) -> (r: Result<AccessPolicy>)
        ensures
            match decode_policy_msg(bytes@) {
                Some(ms) => (r matches Ok(p) && p@ == ms.map_values(|m: RuleMsg| rule_of_message(m))),
                None => (r matches Err(e) && e is SerializationError),
            },
    {
        let proto = rok::AccessPolicy::from_proto_bytes(bytes)?;
        Ok(AccessPolicy::from_proto(&proto))
    }

    pub fn key_ids_for_scope(&self, scope: &Scope) -> (r: Vec<String>)
        ensures
            strictly_sorted(string_views(r@)),
            exists|now: u64| lists_granted(string_views(r@), self@, scope@, now),
    {
        let now = now_unix_secs();
        self.key_ids_for_scope_at(scope, now)
    }
}

impl Default for AccessPolicy {
    fn default() -> (p: AccessPolicy)
        ensures
            p@ == Seq::<RuleView>::empty(),
    {
        AccessPolicy::new()
    }
}

} // verus!
