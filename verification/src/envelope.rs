//! The encrypted envelope, its signed bytes and its binary format.
use vstd::prelude::*;
use crate::bytes::{
    array12, array16, array32, array64, array8, copy_range, lemma_u16_le_roundtrip,
    lemma_u32_le_roundtrip, lemma_u64_le_roundtrip, push_bytes, push_u16_le, push_u32_le,
    push_u64_le, read_u16_le, read_u32_le, read_u64_le, u16_from_le, u16_le, u32_from_le, u32_le,
    u64_from_le, u64_le,
};
use crate::crypto::utf8_str;
use crate::encrypt::{
    access_mode_code, access_mode_from_code, algorithm_code, algorithm_from_code, AccessMode,
    Algorithm,
};
use crate::error::{Result, RokError};
use crate::keys::key_id::KeyId;
use crate::keys::scope::{valid_scope, Scope};
use vstd::utf8::{decode_utf8, encode_utf8, valid_utf8};

verus! {

/// An access entry: a wrapped data key for one recipient.
#[derive(Debug, Clone)]
pub struct AccessEntry {
    pub read_key_id: KeyId,
    pub wrapped_data_key: Vec<u8>,
    pub wrap_nonce: [u8; 12],
}

/// The mathematical content of an access entry.
pub struct AccessEntryView {
    pub read_key_id: Seq<u8>,
    pub wrapped_data_key: Seq<u8>,
    pub wrap_nonce: Seq<u8>,
}

impl View for AccessEntry {
    type V = AccessEntryView;

    open spec fn view(&self) -> AccessEntryView {
        AccessEntryView {
            read_key_id: self.read_key_id@,
            wrapped_data_key: self.wrapped_data_key@,
            wrap_nonce: self.wrap_nonce@,
        }
    }
}

/// The views of a sequence of access entries.
pub open spec fn entry_views(v: Seq<AccessEntry>) -> Seq<AccessEntryView> {
    v.map_values(|e: AccessEntry| e@)
}

/// The encrypted envelope — the core data structure for encrypted data.
///
/// Contains the encrypted payload, per-recipient access entries, ephemeral key
/// material, and a spend key signature for authenticity.
#[derive(Debug, Clone)]
pub struct EncryptedEnvelope {
    pub version: u32,
    pub algorithm: Algorithm,
    pub scope: Scope,
    pub ephemeral_x25519_public: [u8; 32],
    pub ephemeral_mlkem_ciphertext: Option<Vec<u8>>,
    pub access_entries: Vec<AccessEntry>,
    pub nonce: [u8; 12],
    pub ciphertext: Vec<u8>,
    pub tag: [u8; 16],
    pub signature: [u8; 64],
    pub spend_public_key: [u8; 32],
    pub access_mode: AccessMode,
}

/// The mathematical content of an envelope.
pub struct EnvelopeView {
    pub version: u32,
    pub algorithm: Algorithm,
    pub scope: Seq<char>,
    pub ephemeral_x25519_public: Seq<u8>,
    pub ephemeral_mlkem_ciphertext: Option<Seq<u8>>,
    pub access_entries: Seq<AccessEntryView>,
    pub nonce: Seq<u8>,
    pub ciphertext: Seq<u8>,
    pub tag: Seq<u8>,
    pub signature: Seq<u8>,
    pub spend_public_key: Seq<u8>,
    pub access_mode: AccessMode,
}

/// The view of an optional byte vector.
pub open spec fn opt_bytes_view(o: Option<Vec<u8>>) -> Option<Seq<u8>> {
    match o {
        Some(v) => Some(v@),
        None => None,
    }
}

impl View for EncryptedEnvelope {
    type V = EnvelopeView;

    open spec fn view(&self) -> EnvelopeView {
        EnvelopeView {
            version: self.version,
            algorithm: self.algorithm,
            scope: self.scope@,
            ephemeral_x25519_public: self.ephemeral_x25519_public@,
            ephemeral_mlkem_ciphertext: opt_bytes_view(self.ephemeral_mlkem_ciphertext),
            access_entries: entry_views(self.access_entries@),
            nonce: self.nonce@,
            ciphertext: self.ciphertext@,
            tag: self.tag@,
            signature: self.signature@,
            spend_public_key: self.spend_public_key@,
            access_mode: self.access_mode,
        }
    }
}

/// Non-secret metadata about an envelope (for inspection without decryption).
#[derive(Debug)]
pub struct EnvelopeMetadata {
    pub version: u32,
    pub algorithm: Algorithm,
    pub access_mode: AccessMode,
    pub scope: Scope,
    pub recipient_count: usize,
    pub ciphertext_len: usize,
    pub recipient_key_ids: Vec<KeyId>,
}

// ---------------------------------------------------------------------------
// Signed bytes
// ---------------------------------------------------------------------------

/// The ML-KEM ciphertext field: its length as a `u32`, then its bytes (length 0 if absent).
pub open spec fn mlkem_field(ct: Option<Seq<u8>>) -> Seq<u8> {
    match ct {
        Some(c) => u32_le(c.len() as u32) + c,
        None => u32_le(0),
    }
}

/// The signed bytes of one access entry.
pub open spec fn entry_signable(e: AccessEntryView) -> Seq<u8> {
    e.read_key_id + u32_le(e.wrapped_data_key.len() as u32) + e.wrapped_data_key + e.wrap_nonce
}

/// The signed bytes of a sequence of access entries.
pub open spec fn entries_signable(es: Seq<AccessEntryView>) -> Seq<u8>
    decreases es.len(),
{
    if es.len() == 0 {
        seq![]
    } else {
        entries_signable(es.drop_last()) + entry_signable(es.last())
    }
}

/// The bytes that the spend key signs: every field but the signature and the access mode.
pub open spec fn signable_seq(v: EnvelopeView) -> Seq<u8> {
    u32_le(v.version) + seq![algorithm_code(v.algorithm)] + encode_utf8(v.scope)
        + v.ephemeral_x25519_public + mlkem_field(v.ephemeral_mlkem_ciphertext) + u32_le(
        v.access_entries.len() as u32,
    ) + entries_signable(v.access_entries) + v.nonce + u64_le(v.ciphertext.len() as u64)
        + v.ciphertext + v.tag + v.spend_public_key
}

proof fn lemma_middle_equal(a: Seq<u8>, x: Seq<u8>, y: Seq<u8>, b: Seq<u8>)
    requires
        a + x + b == a + y + b,
    ensures
        x == y,
{
    let l = a + x + b;
    assert(l.len() == a.len() + x.len() + b.len());
    assert((a + y + b).len() == a.len() + y.len() + b.len());
    assert(x.len() == y.len());
    assert(x =~= l.subrange(a.len() as int, (a.len() + x.len()) as int));
    assert(y =~= (a + y + b).subrange(a.len() as int, (a.len() + y.len()) as int));
}

/// The signed fields in order, each as the bytes it contributes.
pub open spec fn signable_parts(v: EnvelopeView) -> Seq<Seq<u8>> {
    seq![
        u32_le(v.version),
        seq![algorithm_code(v.algorithm)],
        encode_utf8(v.scope),
        v.ephemeral_x25519_public,
        mlkem_field(v.ephemeral_mlkem_ciphertext),
        u32_le(v.access_entries.len() as u32) + entries_signable(v.access_entries),
        v.nonce,
        u64_le(v.ciphertext.len() as u64) + v.ciphertext,
        v.tag,
        v.spend_public_key,
    ]
}

proof fn lemma_flatten_split(p: Seq<Seq<u8>>, i: int)
    requires
        0 <= i < p.len(),
    ensures
        p.flatten() == p.take(i).flatten() + p[i] + p.skip(i + 1).flatten(),
    decreases i,
{
    if i == 0 {
        assert(p.take(0) =~= Seq::<Seq<u8>>::empty());
        assert(p.skip(1) =~= p.drop_first());
        assert(p.flatten() =~= Seq::<u8>::empty() + p[0] + p.skip(1).flatten());
    } else {
        let q = p.drop_first();
        lemma_flatten_split(q, i - 1);
        assert(q.take(i - 1) =~= p.take(i).drop_first());
        assert(q.skip(i) =~= p.skip(i + 1));
        assert(p.take(i).flatten() == p.take(i).first() + p.take(i).drop_first().flatten());
        assert(p.flatten() =~= p.take(i).flatten() + p[i] + p.skip(i + 1).flatten());
    }
}

proof fn lemma_flatten_alt_snoc(p: Seq<Seq<u8>>, k: int)
    requires
        0 < k <= p.len(),
    ensures
        p.take(k).flatten_alt() == p.take(k - 1).flatten_alt() + p[k - 1],
{
    assert(p.take(k).drop_last() =~= p.take(k - 1));
    assert(p.take(k).last() == p[k - 1]);
}

proof fn lemma_signable_flatten(v: EnvelopeView)
    ensures
        signable_seq(v) == signable_parts(v).flatten(),
{
    let p = signable_parts(v);
    assert(p.take(0) =~= Seq::<Seq<u8>>::empty());
    assert(Seq::<u8>::empty() + p[0] =~= p[0]);
    lemma_flatten_alt_snoc(p, 1);
    lemma_flatten_alt_snoc(p, 2);
    lemma_flatten_alt_snoc(p, 3);
    lemma_flatten_alt_snoc(p, 4);
    lemma_flatten_alt_snoc(p, 5);
    lemma_flatten_alt_snoc(p, 6);
    lemma_flatten_alt_snoc(p, 7);
    lemma_flatten_alt_snoc(p, 8);
    lemma_flatten_alt_snoc(p, 9);
    lemma_flatten_alt_snoc(p, 10);
    assert(p.take(10) =~= p);
    p.lemma_flatten_and_flatten_alt_are_equivalent();
}

/// Where two envelopes' signed bytes agree and their signed fields differ at most at one
/// place, the field there agrees too.
proof fn lemma_signable_part_equal(v1: EnvelopeView, v2: EnvelopeView, k: int)
    requires
        0 <= k < 10,
        signable_parts(v2) == signable_parts(v1).update(k, signable_parts(v2)[k]),
        signable_seq(v1) == signable_seq(v2),
    ensures
        signable_parts(v1)[k] == signable_parts(v2)[k],
{
    let p1 = signable_parts(v1);
    let p2 = signable_parts(v2);
    lemma_signable_flatten(v1);
    lemma_signable_flatten(v2);
    lemma_flatten_split(p1, k);
    lemma_flatten_split(p2, k);
    assert(p1.take(k) =~= p2.take(k));
    assert(p1.skip(k + 1) =~= p2.skip(k + 1));
    lemma_middle_equal(p1.take(k).flatten(), p1[k], p2[k], p1.skip(k + 1).flatten());
}

proof fn lemma_signable_differs_0(v1: EnvelopeView, v2: EnvelopeView)
    requires
        v2 == (EnvelopeView { version: v2.version, ..v1 }) && v1.version != v2.version,
    ensures
        signable_seq(v1) != signable_seq(v2),
{
    assert(signable_parts(v2) =~= signable_parts(v1).update(0, u32_le(v2.version)));
    if signable_seq(v1) == signable_seq(v2) {
        lemma_signable_part_equal(v1, v2, 0);
        lemma_u32_le_roundtrip(v1.version);
        lemma_u32_le_roundtrip(v2.version);
    }
}

proof fn lemma_signable_differs_1(v1: EnvelopeView, v2: EnvelopeView)
    requires
        v2 == (EnvelopeView { algorithm: v2.algorithm, ..v1 }) && v1.algorithm != v2.algorithm,
    ensures
        signable_seq(v1) != signable_seq(v2),
{
    assert(signable_parts(v2) =~= signable_parts(v1).update(1, seq![algorithm_code(v2.algorithm)]));
    if signable_seq(v1) == signable_seq(v2) {
        lemma_signable_part_equal(v1, v2, 1);
        assert(seq![algorithm_code(v1.algorithm)][0] == seq![algorithm_code(v2.algorithm)][0]);
    }
}

proof fn lemma_signable_differs_2(v1: EnvelopeView, v2: EnvelopeView)
    requires
        v2 == (EnvelopeView { scope: v2.scope, ..v1 }) && v1.scope != v2.scope,
    ensures
        signable_seq(v1) != signable_seq(v2),
{
    assert(signable_parts(v2) =~= signable_parts(v1).update(2, encode_utf8(v2.scope)));
    if signable_seq(v1) == signable_seq(v2) {
        lemma_signable_part_equal(v1, v2, 2);
        vstd::utf8::encode_utf8_decode_utf8(v1.scope);
        vstd::utf8::encode_utf8_decode_utf8(v2.scope);
    }
}

proof fn lemma_signable_differs_3(v1: EnvelopeView, v2: EnvelopeView)
    requires
        v2 == (EnvelopeView { ephemeral_x25519_public: v2.ephemeral_x25519_public, ..v1 })
            && v1.ephemeral_x25519_public != v2.ephemeral_x25519_public,
    ensures
        signable_seq(v1) != signable_seq(v2),
{
    assert(signable_parts(v2) =~= signable_parts(v1).update(3, v2.ephemeral_x25519_public));
    if signable_seq(v1) == signable_seq(v2) {
        lemma_signable_part_equal(v1, v2, 3);
    }
}

proof fn lemma_signable_differs_4(v1: EnvelopeView, v2: EnvelopeView)
    requires
        v2 == (EnvelopeView { ephemeral_mlkem_ciphertext: v2.ephemeral_mlkem_ciphertext, ..v1 })
            && v1.ephemeral_mlkem_ciphertext != v2.ephemeral_mlkem_ciphertext && v1.ephemeral_mlkem_ciphertext != Some(
            Seq::<u8>::empty(),
        ) && v2.ephemeral_mlkem_ciphertext != Some(Seq::<u8>::empty()),
    ensures
        signable_seq(v1) != signable_seq(v2),
{
    assert(signable_parts(v2) =~= signable_parts(v1).update(4, mlkem_field(v2.ephemeral_mlkem_ciphertext)));
    if signable_seq(v1) == signable_seq(v2) {
        lemma_signable_part_equal(v1, v2, 4);
        lemma_u32_le_roundtrip(0);
        match (v1.ephemeral_mlkem_ciphertext, v2.ephemeral_mlkem_ciphertext) {
            (Some(c1), Some(c2)) => {
                lemma_u32_le_roundtrip(c1.len() as u32);
                lemma_u32_le_roundtrip(c2.len() as u32);
                let f1 = mlkem_field(v1.ephemeral_mlkem_ciphertext);
                let f2 = mlkem_field(v2.ephemeral_mlkem_ciphertext);
                assert(c1 =~= f1.subrange(4, f1.len() as int));
                assert(c2 =~= f2.subrange(4, f2.len() as int));
            },
            (Some(c1), None) => {
                lemma_u32_le_roundtrip(c1.len() as u32);
                if c1.len() == 0 {
                    assert(c1 =~= Seq::<u8>::empty());
                }
            },
            (None, Some(c2)) => {
                lemma_u32_le_roundtrip(c2.len() as u32);
                if c2.len() == 0 {
                    assert(c2 =~= Seq::<u8>::empty());
                }
            },
            (None, None) => {},
        }
    }
}

proof fn lemma_signable_differs_6(v1: EnvelopeView, v2: EnvelopeView)
    requires
        v2 == (EnvelopeView { nonce: v2.nonce, ..v1 }) && v1.nonce != v2.nonce,
    ensures
        signable_seq(v1) != signable_seq(v2),
{
    assert(signable_parts(v2) =~= signable_parts(v1).update(6, v2.nonce));
    if signable_seq(v1) == signable_seq(v2) {
        lemma_signable_part_equal(v1, v2, 6);
    }
}

proof fn lemma_signable_differs_7(v1: EnvelopeView, v2: EnvelopeView)
    requires
        v2 == (EnvelopeView { ciphertext: v2.ciphertext, ..v1 }) && v1.ciphertext != v2.ciphertext,
    ensures
        signable_seq(v1) != signable_seq(v2),
{
    let f1 = u64_le(v1.ciphertext.len() as u64) + v1.ciphertext;
    let f2 = u64_le(v2.ciphertext.len() as u64) + v2.ciphertext;
    assert(signable_parts(v2) =~= signable_parts(v1).update(7, f2));
    if signable_seq(v1) == signable_seq(v2) {
        lemma_signable_part_equal(v1, v2, 7);
        lemma_u64_le_roundtrip(v1.ciphertext.len() as u64);
        lemma_u64_le_roundtrip(v2.ciphertext.len() as u64);
        assert(v1.ciphertext =~= f1.subrange(8, f1.len() as int));
        assert(v2.ciphertext =~= f2.subrange(8, f2.len() as int));
    }
}

proof fn lemma_signable_differs_8(v1: EnvelopeView, v2: EnvelopeView)
    requires
        v2 == (EnvelopeView { tag: v2.tag, ..v1 }) && v1.tag != v2.tag,
    ensures
        signable_seq(v1) != signable_seq(v2),
{
    assert(signable_parts(v2) =~= signable_parts(v1).update(8, v2.tag));
    if signable_seq(v1) == signable_seq(v2) {
        lemma_signable_part_equal(v1, v2, 8);
    }
}

proof fn lemma_signable_differs_9(v1: EnvelopeView, v2: EnvelopeView)
    requires
        v2 == (EnvelopeView { spend_public_key: v2.spend_public_key, ..v1 }) && v1.spend_public_key
            != v2.spend_public_key,
    ensures
        signable_seq(v1) != signable_seq(v2),
{
    assert(signable_parts(v2) =~= signable_parts(v1).update(9, v2.spend_public_key));
    if signable_seq(v1) == signable_seq(v2) {
        lemma_signable_part_equal(v1, v2, 9);
    }
}

proof fn lemma_entries_signable_front(es: Seq<AccessEntryView>)
    requires
        es.len() > 0,
    ensures
        entries_signable(es) == entry_signable(es[0]) + entries_signable(es.drop_first()),
    decreases es.len(),
{
    if es.len() == 1 {
        assert(es.drop_last() =~= Seq::<AccessEntryView>::empty());
        assert(es.drop_first() =~= Seq::<AccessEntryView>::empty());
        assert(entries_signable(es) =~= entry_signable(es[0]) + entries_signable(es.drop_first()));
    } else {
        let d = es.drop_last();
        lemma_entries_signable_front(d);
        let t = es.drop_first();
        assert(d.drop_first() =~= t.drop_last());
        assert(t.last() == es.last());
        assert(entries_signable(t) == entries_signable(t.drop_last()) + entry_signable(t.last()));
        assert(entries_signable(es) =~= entry_signable(es[0]) + entries_signable(es.drop_first()));
    }
}

proof fn lemma_entry_signable_injective(e1: AccessEntryView, e2: AccessEntryView, r1: Seq<u8>, r2: Seq<u8>)
    requires
        entry_encodable(e1),
        entry_encodable(e2),
        entry_signable(e1) + r1 == entry_signable(e2) + r2,
    ensures
        e1 == e2,
        r1 == r2,
{
    let s1 = entry_signable(e1) + r1;
    let s2 = entry_signable(e2) + r2;
    let l1: int = e1.wrapped_data_key.len() as int;
    let l2: int = e2.wrapped_data_key.len() as int;
    lemma_u32_le_roundtrip(l1 as u32);
    lemma_u32_le_roundtrip(l2 as u32);
    assert(s1.subrange(0, 8) =~= e1.read_key_id);
    assert(s2.subrange(0, 8) =~= e2.read_key_id);
    assert(s1.subrange(8, 12) =~= u32_le(l1 as u32));
    assert(s2.subrange(8, 12) =~= u32_le(l2 as u32));
    assert(l1 == l2);
    assert(s1.subrange(12, 12 + l1) =~= e1.wrapped_data_key);
    assert(s2.subrange(12, 12 + l1) =~= e2.wrapped_data_key);
    assert(s1.subrange(12 + l1, 24 + l1) =~= e1.wrap_nonce);
    assert(s2.subrange(12 + l1, 24 + l1) =~= e2.wrap_nonce);
    assert(s1.subrange(24 + l1, s1.len() as int) =~= r1);
    assert(s2.subrange(24 + l1, s2.len() as int) =~= r2);
}

proof fn lemma_entries_signable_injective(es1: Seq<AccessEntryView>, es2: Seq<AccessEntryView>)
    requires
        es1.len() == es2.len(),
        forall|i: int| 0 <= i < es1.len() ==> #[trigger] entry_encodable(es1[i]),
        forall|i: int| 0 <= i < es2.len() ==> #[trigger] entry_encodable(es2[i]),
        entries_signable(es1) == entries_signable(es2),
    ensures
        es1 == es2,
    decreases es1.len(),
{
    if es1.len() == 0 {
        assert(es1 =~= es2);
    } else {
        lemma_entries_signable_front(es1);
        lemma_entries_signable_front(es2);
        assert(entry_encodable(es1[0]));
        assert(entry_encodable(es2[0]));
        lemma_entry_signable_injective(es1[0], es2[0], entries_signable(es1.drop_first()), entries_signable(es2.drop_first()));
        let t1 = es1.drop_first();
        let t2 = es2.drop_first();
        assert forall|i: int| 0 <= i < t1.len() implies #[trigger] entry_encodable(t1[i]) by {
            assert(t1[i] == es1[i + 1]);
        }
        assert forall|i: int| 0 <= i < t2.len() implies #[trigger] entry_encodable(t2[i]) by {
            assert(t2[i] == es2[i + 1]);
        }
        lemma_entries_signable_injective(t1, t2);
        assert forall|i: int| 0 <= i < es1.len() implies es1[i] == es2[i] by {
            if i > 0 {
                assert(es1[i] == t1[i - 1]);
                assert(es2[i] == t2[i - 1]);
            }
        }
        assert(es1 =~= es2);
    }
}

/// Access entries the formats can carry: fewer than 65536, each with an eight-byte key
/// identifier, a wrapped key under 65536 bytes and a twelve-byte nonce.
pub open spec fn entries_encodable(es: Seq<AccessEntryView>) -> bool {
    es.len() < 0x10000 && forall|i: int| 0 <= i < es.len() ==> #[trigger] entry_encodable(es[i])
}

proof fn lemma_signable_differs_5(v1: EnvelopeView, v2: EnvelopeView)
    requires
        v2 == (EnvelopeView { access_entries: v2.access_entries, ..v1 }) && v1.access_entries != v2.access_entries,
        entries_encodable(v1.access_entries),
        entries_encodable(v2.access_entries),
    ensures
        signable_seq(v1) != signable_seq(v2),
{
    let n1 = v1.access_entries.len();
    let n2 = v2.access_entries.len();
    let m1 = u32_le(n1 as u32) + entries_signable(v1.access_entries);
    let m2 = u32_le(n2 as u32) + entries_signable(v2.access_entries);
    assert(signable_parts(v2) =~= signable_parts(v1).update(5, m2));
    if signable_seq(v1) == signable_seq(v2) {
        lemma_signable_part_equal(v1, v2, 5);
        lemma_u32_le_roundtrip(n1 as u32);
        lemma_u32_le_roundtrip(n2 as u32);
        assert(m1.subrange(0, 4) =~= u32_le(n1 as u32));
        assert(m2.subrange(0, 4) =~= u32_le(n2 as u32));
        assert(n1 == n2);
        assert(m1.subrange(4, m1.len() as int) =~= entries_signable(v1.access_entries));
        assert(m2.subrange(4, m2.len() as int) =~= entries_signable(v2.access_entries));
        lemma_entries_signable_injective(v1.access_entries, v2.access_entries);
    }
}

/// The signed bytes depend on every signed field: they are the same for envelopes that
/// differ only in their signature and access mode, and they differ between envelopes
/// that differ in exactly one of the version, the algorithm, the scope, the ephemeral
/// public key, the ML-KEM ciphertext (other than an empty one against none), the nonce,
/// the ciphertext, the tag or the spend public key, or in their access entries where both
/// lists are ones the formats can carry.
pub proof fn lemma_signable_fields(v1: EnvelopeView, v2: EnvelopeView)
    ensures
        v2 == (EnvelopeView { access_entries: v2.access_entries, ..v1 }) && v1.access_entries != v2.access_entries
            && entries_encodable(v1.access_entries) && entries_encodable(v2.access_entries) ==> signable_seq(v1)
            != signable_seq(v2),
        v2 == (EnvelopeView { signature: v2.signature, access_mode: v2.access_mode, ..v1 }) ==> signable_seq(v1)
            == signable_seq(v2),
        v2 == (EnvelopeView { version: v2.version, ..v1 }) && v1.version != v2.version ==> signable_seq(v1) != signable_seq(v2),
        v2 == (EnvelopeView { algorithm: v2.algorithm, ..v1 }) && v1.algorithm != v2.algorithm ==> signable_seq(v1) != signable_seq(v2),
        v2 == (EnvelopeView { scope: v2.scope, ..v1 }) && v1.scope != v2.scope ==> signable_seq(v1) != signable_seq(v2),
        v2 == (EnvelopeView { ephemeral_x25519_public: v2.ephemeral_x25519_public, ..v1 }) && v1.ephemeral_x25519_public != v2.ephemeral_x25519_public ==> signable_seq(v1) != signable_seq(v2),
        v2 == (EnvelopeView { ephemeral_mlkem_ciphertext: v2.ephemeral_mlkem_ciphertext, ..v1 }) && v1.ephemeral_mlkem_ciphertext != v2.ephemeral_mlkem_ciphertext && v1.ephemeral_mlkem_ciphertext != Some(Seq::<u8>::empty()) && v2.ephemeral_mlkem_ciphertext != Some(Seq::<u8>::empty()) ==> signable_seq(v1) != signable_seq(v2),
        v2 == (EnvelopeView { nonce: v2.nonce, ..v1 }) && v1.nonce != v2.nonce ==> signable_seq(v1) != signable_seq(v2),
        v2 == (EnvelopeView { ciphertext: v2.ciphertext, ..v1 }) && v1.ciphertext != v2.ciphertext ==> signable_seq(v1) != signable_seq(v2),
        v2 == (EnvelopeView { tag: v2.tag, ..v1 }) && v1.tag != v2.tag ==> signable_seq(v1) != signable_seq(v2),
        v2 == (EnvelopeView { spend_public_key: v2.spend_public_key, ..v1 }) && v1.spend_public_key != v2.spend_public_key ==> signable_seq(v1) != signable_seq(v2),
{
    if v2 == (EnvelopeView { version: v2.version, ..v1 }) && v1.version != v2.version {
        lemma_signable_differs_0(v1, v2);
    }
    if v2 == (EnvelopeView { algorithm: v2.algorithm, ..v1 }) && v1.algorithm != v2.algorithm {
        lemma_signable_differs_1(v1, v2);
    }
    if v2 == (EnvelopeView { scope: v2.scope, ..v1 }) && v1.scope != v2.scope {
        lemma_signable_differs_2(v1, v2);
    }
    if v2 == (EnvelopeView { ephemeral_x25519_public: v2.ephemeral_x25519_public, ..v1 }) && v1.ephemeral_x25519_public != v2.ephemeral_x25519_public {
        lemma_signable_differs_3(v1, v2);
    }
    if v2 == (EnvelopeView { ephemeral_mlkem_ciphertext: v2.ephemeral_mlkem_ciphertext, ..v1 }) && v1.ephemeral_mlkem_ciphertext != v2.ephemeral_mlkem_ciphertext && v1.ephemeral_mlkem_ciphertext != Some(Seq::<u8>::empty()) && v2.ephemeral_mlkem_ciphertext != Some(Seq::<u8>::empty()) {
        lemma_signable_differs_4(v1, v2);
    }
    if v2 == (EnvelopeView { access_entries: v2.access_entries, ..v1 }) && v1.access_entries != v2.access_entries
        && entries_encodable(v1.access_entries) && entries_encodable(v2.access_entries) {
        lemma_signable_differs_5(v1, v2);
    }
    if v2 == (EnvelopeView { nonce: v2.nonce, ..v1 }) && v1.nonce != v2.nonce {
        lemma_signable_differs_6(v1, v2);
    }
    if v2 == (EnvelopeView { ciphertext: v2.ciphertext, ..v1 }) && v1.ciphertext != v2.ciphertext {
        lemma_signable_differs_7(v1, v2);
    }
    if v2 == (EnvelopeView { tag: v2.tag, ..v1 }) && v1.tag != v2.tag {
        lemma_signable_differs_8(v1, v2);
    }
    if v2 == (EnvelopeView { spend_public_key: v2.spend_public_key, ..v1 }) && v1.spend_public_key != v2.spend_public_key {
        lemma_signable_differs_9(v1, v2);
    }
}

// ---------------------------------------------------------------------------
// Binary format
// ---------------------------------------------------------------------------

/// The four magic bytes `ROK\x01` that open the binary format.
pub open spec fn envelope_magic() -> Seq<u8> {
    seq![82u8, 79u8, 75u8, 1u8]
}

/// Magic, version, algorithm, and (from version 2 on) the access mode.
pub open spec fn header_bytes(v: EnvelopeView) -> Seq<u8> {
    envelope_magic() + u32_le(v.version) + seq![algorithm_code(v.algorithm)] + if v.version >= 2 {
        seq![access_mode_code(v.access_mode)]
    } else {
        seq![]
    }
}

/// The scope field: the length of its UTF-8 bytes as a `u16`, then the bytes.
pub open spec fn scope_field(s: Seq<char>) -> Seq<u8> {
    u16_le(encode_utf8(s).len() as u16) + encode_utf8(s)
}

/// The binary form of one access entry.
pub open spec fn entry_bytes(e: AccessEntryView) -> Seq<u8> {
    e.read_key_id + u16_le(e.wrapped_data_key.len() as u16) + e.wrapped_data_key + e.wrap_nonce
}

/// The binary form of a sequence of access entries (without their count).
pub open spec fn entries_bytes(es: Seq<AccessEntryView>) -> Seq<u8>
    decreases es.len(),
{
    if es.len() == 0 {
        seq![]
    } else {
        entries_bytes(es.drop_last()) + entry_bytes(es.last())
    }
}

/// Nonce, ciphertext length and ciphertext, tag, spend public key and signature.
pub open spec fn tail_bytes(v: EnvelopeView) -> Seq<u8> {
    v.nonce + u64_le(v.ciphertext.len() as u64) + v.ciphertext + v.tag + v.spend_public_key
        + v.signature
}

/// The binary form of an envelope.
pub open spec fn envelope_bytes(v: EnvelopeView) -> Seq<u8> {
    header_bytes(v) + scope_field(v.scope) + v.ephemeral_x25519_public + mlkem_field(
        v.ephemeral_mlkem_ciphertext,
    ) + u16_le(v.access_entries.len() as u16) + entries_bytes(v.access_entries) + tail_bytes(v)
}

/// An access entry that the binary format can carry unchanged.
pub open spec fn entry_encodable(e: AccessEntryView) -> bool {
    &&& e.read_key_id.len() == 8
    &&& e.wrapped_data_key.len() < 0x10000
    &&& e.wrap_nonce.len() == 12
}

/// An envelope that the binary format can carry unchanged: a valid scope, every length
/// within its field, and no access mode other than `Recipient` before version 2.
pub open spec fn envelope_encodable(v: EnvelopeView) -> bool {
    &&& v.version >= 2 || v.access_mode == AccessMode::Recipient
    &&& valid_scope(v.scope)
    &&& encode_utf8(v.scope).len() < 0x10000
    &&& v.ephemeral_x25519_public.len() == 32
    &&& (v.ephemeral_mlkem_ciphertext matches Some(c) ==> 0 < c.len() < 0x1_0000_0000)
    &&& v.access_entries.len() < 0x10000
    &&& forall|i: int|
        0 <= i < v.access_entries.len() ==> #[trigger] entry_encodable(v.access_entries[i])
    &&& v.nonce.len() == 12
    &&& v.ciphertext.len() <= usize::MAX
    &&& v.tag.len() == 16
    &&& v.spend_public_key.len() == 32
    &&& v.signature.len() == 64
}

/// Why bytes are no envelope.
pub enum EnvelopeFault {
    Truncated,
    BadMagic,
    UnknownAlgorithm,
    UnknownAccessMode,
    ScopeNotUtf8,
    InvalidScope,
}

/// The outcome of reading part of the binary format.
pub type Parsed<T> = core::result::Result<T, EnvelopeFault>;

/// The error that reports a fault: `InvalidScope` for an invalid scope path, a
/// serialization error otherwise.
pub open spec fn reports_fault(f: EnvelopeFault, e: RokError) -> bool {
    match f {
        EnvelopeFault::InvalidScope => e is InvalidScope,
        _ => e is SerializationError,
    }
}

/// Reads magic, version, algorithm and access mode; gives the position after them.
pub open spec fn parse_header(d: Seq<u8>) -> Parsed<(u32, Algorithm, AccessMode, int)> {
    if d.len() < 4 {
        Err(EnvelopeFault::Truncated)
    } else if d.subrange(0, 4) != envelope_magic() {
        Err(EnvelopeFault::BadMagic)
    } else if d.len() < 9 {
        Err(EnvelopeFault::Truncated)
    } else {
        let version = u32_from_le(d.subrange(4, 8));
        match algorithm_from_code(d[8]) {
            None => Err(EnvelopeFault::UnknownAlgorithm),
            Some(alg) => if version < 2 {
                Ok((version, alg, AccessMode::Recipient, 9int))
            } else if d.len() < 10 {
                Err(EnvelopeFault::Truncated)
            } else {
                match access_mode_from_code(d[9]) {
                    None => Err(EnvelopeFault::UnknownAccessMode),
                    Some(m) => Ok((version, alg, m, 10int)),
                }
            },
        }
    }
}

/// Reads the scope field at `p`.
pub open spec fn parse_scope(d: Seq<u8>, p: int) -> Parsed<(Seq<char>, int)> {
    if d.len() < p + 2 {
        Err(EnvelopeFault::Truncated)
    } else {
        let n = u16_from_le(d.subrange(p, p + 2)) as int;
        if d.len() < p + 2 + n {
            Err(EnvelopeFault::Truncated)
        } else {
            let sb = d.subrange(p + 2, p + 2 + n);
            if !valid_utf8(sb) {
                Err(EnvelopeFault::ScopeNotUtf8)
            } else if !valid_scope(decode_utf8(sb)) {
                Err(EnvelopeFault::InvalidScope)
            } else {
                Ok((decode_utf8(sb), p + 2 + n))
            }
        }
    }
}

/// Reads the ML-KEM ciphertext field at `p`; a zero length means no ciphertext.
pub open spec fn parse_mlkem(d: Seq<u8>, p: int) -> Parsed<(Option<Seq<u8>>, int)> {
    if d.len() < p + 4 {
        Err(EnvelopeFault::Truncated)
    } else {
        let n = u32_from_le(d.subrange(p, p + 4)) as int;
        if n == 0 {
            Ok((None, p + 4))
        } else if d.len() < p + 4 + n {
            Err(EnvelopeFault::Truncated)
        } else {
            Ok((Some(d.subrange(p + 4, p + 4 + n)), p + 4 + n))
        }
    }
}

/// Reads one access entry at `p`.
pub open spec fn parse_entry(d: Seq<u8>, p: int) -> Parsed<(AccessEntryView, int)> {
    if d.len() < p + 10 {
        Err(EnvelopeFault::Truncated)
    } else {
        let n = u16_from_le(d.subrange(p + 8, p + 10)) as int;
        if d.len() < p + 22 + n {
            Err(EnvelopeFault::Truncated)
        } else {
            Ok(
                (
                    AccessEntryView {
                        read_key_id: d.subrange(p, p + 8),
                        wrapped_data_key: d.subrange(p + 10, p + 10 + n),
                        wrap_nonce: d.subrange(p + 10 + n, p + 22 + n),
                    },
                    p + 22 + n,
                ),
            )
        }
    }
}

/// Reads `count` access entries one after another from `p`.
pub open spec fn parse_entries(d: Seq<u8>, p: int, count: nat) -> Parsed<(Seq<AccessEntryView>, int)>
    decreases count,
{
    if count == 0 {
        Ok((seq![], p))
    } else {
        match parse_entries(d, p, (count - 1) as nat) {
            Err(f) => Err(f),
            Ok((es, q)) => match parse_entry(d, q) {
                Err(f) => Err(f),
                Ok((e, r)) => Ok((es.push(e), r)),
            },
        }
    }
}

/// Reads nonce, ciphertext, tag, spend public key and signature from `p`.
pub open spec fn parse_tail(d: Seq<u8>, p: int) -> Parsed<(Seq<u8>, Seq<u8>, Seq<u8>, Seq<u8>, Seq<u8>)> {
    if d.len() < p + 20 {
        Err(EnvelopeFault::Truncated)
    } else {
        let n = (u64_from_le(d.subrange(p + 12, p + 20)) as usize) as int;
        if d.len() < p + 132 + n {
            Err(EnvelopeFault::Truncated)
        } else {
            Ok(
                (
                    d.subrange(p, p + 12),
                    d.subrange(p + 20, p + 20 + n),
                    d.subrange(p + 20 + n, p + 36 + n),
                    d.subrange(p + 36 + n, p + 68 + n),
                    d.subrange(p + 68 + n, p + 132 + n),
                ),
            )
        }
    }
}

/// What the binary format reads from `d`: an envelope, or why there is none.
/// Bytes after a complete envelope are ignored.
pub open spec fn parse_envelope(d: Seq<u8>) -> Parsed<EnvelopeView> {
    match parse_header(d) {
        Err(f) => Err(f),
        Ok((version, algorithm, access_mode, p1)) => match parse_scope(d, p1) {
            Err(f) => Err(f),
            Ok((scope, p2)) => if d.len() < p2 + 32 {
                Err(EnvelopeFault::Truncated)
            } else {
                match parse_mlkem(d, p2 + 32) {
                    Err(f) => Err(f),
                    Ok((mlkem, p3)) => if d.len() < p3 + 2 {
                        Err(EnvelopeFault::Truncated)
                    } else {
                        let count = u16_from_le(d.subrange(p3, p3 + 2)) as nat;
                        match parse_entries(d, p3 + 2, count) {
                            Err(f) => Err(f),
                            Ok((entries, p4)) => match parse_tail(d, p4) {
                                Err(f) => Err(f),
                                Ok((nonce, ciphertext, tag, spend, sig)) => Ok(
                                    EnvelopeView {
                                        version,
                                        algorithm,
                                        scope,
                                        ephemeral_x25519_public: d.subrange(p2, p2 + 32),
                                        ephemeral_mlkem_ciphertext: mlkem,
                                        access_entries: entries,
                                        nonce,
                                        ciphertext,
                                        tag,
                                        signature: sig,
                                        spend_public_key: spend,
                                        access_mode,
                                    },
                                ),
                            },
                        }
                    },
                }
            },
        },
    }
}

// ---------------------------------------------------------------------------
// Reading back what was written
// ---------------------------------------------------------------------------

proof fn lemma_header_roundtrip(v: EnvelopeView, rest: Seq<u8>)
    requires
        v.version >= 2 || v.access_mode == AccessMode::Recipient,
    ensures
        parse_header(header_bytes(v) + rest) == Parsed::Ok(
            (v.version, v.algorithm, v.access_mode, header_bytes(v).len() as int),
        ),
        header_bytes(v).len() == if v.version >= 2 { 10int } else { 9int },
{
    let d = header_bytes(v) + rest;
    lemma_u32_le_roundtrip(v.version);
    assert(d.subrange(0, 4) =~= envelope_magic());
    assert(d.subrange(4, 8) =~= u32_le(v.version));
    assert(d[8] == algorithm_code(v.algorithm));
    if v.version >= 2 {
        assert(d[9] == access_mode_code(v.access_mode));
    }
}

proof fn lemma_scope_roundtrip(pre: Seq<u8>, s: Seq<char>, rest: Seq<u8>)
    requires
        valid_scope(s),
        encode_utf8(s).len() < 0x10000,
    ensures
        parse_scope(pre + scope_field(s) + rest, pre.len() as int) == Parsed::Ok(
            (s, (pre.len() + scope_field(s).len()) as int),
        ),
{
    let b = encode_utf8(s);
    let n = b.len();
    let d = pre + scope_field(s) + rest;
    let p = pre.len() as int;
    lemma_u16_le_roundtrip(n as u16);
    assert(d.subrange(p, p + 2) =~= u16_le(n as u16));
    assert(d.subrange(p + 2, p + 2 + n) =~= b);
    vstd::utf8::encode_utf8_valid_utf8(s);
    vstd::utf8::encode_utf8_decode_utf8(s);
}

proof fn lemma_mlkem_roundtrip(pre: Seq<u8>, ct: Option<Seq<u8>>, rest: Seq<u8>)
    requires
        ct matches Some(c) ==> 0 < c.len() < 0x1_0000_0000,
    ensures
        parse_mlkem(pre + mlkem_field(ct) + rest, pre.len() as int) == Parsed::Ok(
            (ct, (pre.len() + mlkem_field(ct).len()) as int),
        ),
{
    let d = pre + mlkem_field(ct) + rest;
    let p = pre.len() as int;
    match ct {
        Some(c) => {
            lemma_u32_le_roundtrip(c.len() as u32);
            assert(d.subrange(p, p + 4) =~= u32_le(c.len() as u32));
            assert(d.subrange(p + 4, p + 4 + c.len()) =~= c);
        },
        None => {
            lemma_u32_le_roundtrip(0);
            assert(d.subrange(p, p + 4) =~= u32_le(0));
        },
    }
}

proof fn lemma_entry_roundtrip(pre: Seq<u8>, e: AccessEntryView, rest: Seq<u8>)
    requires
        entry_encodable(e),
    ensures
        parse_entry(pre + entry_bytes(e) + rest, pre.len() as int) == Parsed::Ok(
            (e, (pre.len() + entry_bytes(e).len()) as int),
        ),
{
    let d = pre + entry_bytes(e) + rest;
    let p = pre.len() as int;
    let n = e.wrapped_data_key.len();
    lemma_u16_le_roundtrip(n as u16);
    assert(d.subrange(p, p + 8) =~= e.read_key_id);
    assert(d.subrange(p + 8, p + 10) =~= u16_le(n as u16));
    assert(d.subrange(p + 10, p + 10 + n) =~= e.wrapped_data_key);
    assert(d.subrange(p + 10 + n, p + 22 + n) =~= e.wrap_nonce);
}

proof fn lemma_entries_roundtrip(pre: Seq<u8>, es: Seq<AccessEntryView>, rest: Seq<u8>)
    requires
        forall|i: int| 0 <= i < es.len() ==> #[trigger] entry_encodable(es[i]),
    ensures
        parse_entries(pre + entries_bytes(es) + rest, pre.len() as int, es.len()) == Parsed::Ok(
            (es, (pre.len() + entries_bytes(es).len()) as int),
        ),
    decreases es.len(),
{
    let d = pre + entries_bytes(es) + rest;
    if es.len() == 0 {
        assert(es =~= seq![]);
    } else {
        let init = es.drop_last();
        let e = es.last();
        assert(entry_encodable(es[es.len() - 1]));
        assert forall|i: int| 0 <= i < init.len() implies #[trigger] entry_encodable(init[i]) by {
            assert(entry_encodable(es[i]));
        }
        assert(d =~= pre + entries_bytes(init) + (entry_bytes(e) + rest));
        lemma_entries_roundtrip(pre, init, entry_bytes(e) + rest);
        assert(d =~= (pre + entries_bytes(init)) + entry_bytes(e) + rest);
        lemma_entry_roundtrip(pre + entries_bytes(init), e, rest);
        assert(init.push(e) =~= es);
    }
}

proof fn lemma_tail_roundtrip(pre: Seq<u8>, v: EnvelopeView, rest: Seq<u8>)
    requires
        v.nonce.len() == 12,
        v.ciphertext.len() <= usize::MAX,
        v.tag.len() == 16,
        v.spend_public_key.len() == 32,
        v.signature.len() == 64,
    ensures
        parse_tail(pre + tail_bytes(v) + rest, pre.len() as int) == Parsed::Ok(
            (v.nonce, v.ciphertext, v.tag, v.spend_public_key, v.signature),
        ),
{
    let d = pre + tail_bytes(v) + rest;
    let p = pre.len() as int;
    let n = v.ciphertext.len();
    lemma_u64_le_roundtrip(n as u64);
    assert(d.subrange(p, p + 12) =~= v.nonce);
    assert(d.subrange(p + 12, p + 20) =~= u64_le(n as u64));
    assert(d.subrange(p + 20, p + 20 + n) =~= v.ciphertext);
    assert(d.subrange(p + 20 + n, p + 36 + n) =~= v.tag);
    assert(d.subrange(p + 36 + n, p + 68 + n) =~= v.spend_public_key);
    assert(d.subrange(p + 68 + n, p + 132 + n) =~= v.signature);
}

/// Reading back a written envelope gives the same envelope, whatever bytes follow it:
/// `from_bytes` undoes `to_bytes` for every envelope the format can carry.
#[verifier::spinoff_prover]
#[verifier::rlimit(60)]
pub proof fn lemma_envelope_roundtrip(v: EnvelopeView, rest: Seq<u8>)
    requires
        envelope_encodable(v),
    ensures
        parse_envelope(envelope_bytes(v) + rest) == Parsed::Ok(v),
{
    let h = header_bytes(v);
    let sf = scope_field(v.scope);
    let eph = v.ephemeral_x25519_public;
    let mf = mlkem_field(v.ephemeral_mlkem_ciphertext);
    let cnt = u16_le(v.access_entries.len() as u16);
    let eb = entries_bytes(v.access_entries);
    let t = tail_bytes(v);
    let d = envelope_bytes(v) + rest;
    assert(d =~= h + (sf + eph + mf + cnt + eb + t + rest));
    lemma_header_roundtrip(v, sf + eph + mf + cnt + eb + t + rest);
    assert(d =~= h + sf + (eph + mf + cnt + eb + t + rest));
    lemma_scope_roundtrip(h, v.scope, eph + mf + cnt + eb + t + rest);
    let p2 = (h.len() + sf.len()) as int;
    assert(d.subrange(p2, p2 + 32) =~= eph);
    assert(d =~= (h + sf + eph) + mf + (cnt + eb + t + rest));
    lemma_mlkem_roundtrip(h + sf + eph, v.ephemeral_mlkem_ciphertext, cnt + eb + t + rest);
    let p3 = p2 + 32 + mf.len() as int;
    lemma_u16_le_roundtrip(v.access_entries.len() as u16);
    assert(d.subrange(p3, p3 + 2) =~= cnt);
    assert(d =~= (h + sf + eph + mf + cnt) + eb + (t + rest));
    lemma_entries_roundtrip(h + sf + eph + mf + cnt, v.access_entries, t + rest);
    assert(d =~= (h + sf + eph + mf + cnt + eb) + t + rest);
    lemma_tail_roundtrip(h + sf + eph + mf + cnt + eb, v, rest);
}

/// Whether `d2` is a prefix of `d`.
pub open spec fn is_prefix(d2: Seq<u8>, d: Seq<u8>) -> bool {
    d2.len() <= d.len() && d2 == d.subrange(0, d2.len() as int)
}

proof fn lemma_prefix_subrange(d2: Seq<u8>, d: Seq<u8>, a: int, b: int)
    requires
        is_prefix(d2, d),
        0 <= a <= b <= d2.len(),
    ensures
        d2.subrange(a, b) == d.subrange(a, b),
{
    assert(d2.subrange(a, b) =~= d.subrange(a, b));
}

proof fn lemma_header_prefix(d2: Seq<u8>, d: Seq<u8>)
    requires
        is_prefix(d2, d),
        parse_header(d) is Ok,
    ensures
        d2.len() >= parse_header(d)->Ok_0.3 ==> parse_header(d2) == parse_header(d),
        d2.len() < parse_header(d)->Ok_0.3 ==> parse_header(d2) == Parsed::<(u32, Algorithm, AccessMode, int)>::Err(
            EnvelopeFault::Truncated,
        ),
{
    if d2.len() >= 4 {
        lemma_prefix_subrange(d2, d, 0, 4);
    }
    if d2.len() >= 9 {
        lemma_prefix_subrange(d2, d, 4, 8);
        assert(d2[8] == d[8]);
    }
    if d2.len() >= 10 {
        assert(d2[9] == d[9]);
    }
}

proof fn lemma_scope_prefix(d2: Seq<u8>, d: Seq<u8>, p: int)
    requires
        is_prefix(d2, d),
        0 <= p,
        parse_scope(d, p) is Ok,
    ensures
        d2.len() >= parse_scope(d, p)->Ok_0.1 ==> parse_scope(d2, p) == parse_scope(d, p),
        d2.len() < parse_scope(d, p)->Ok_0.1 ==> parse_scope(d2, p) == Parsed::<(Seq<char>, int)>::Err(
            EnvelopeFault::Truncated,
        ),
{
    if d2.len() >= p + 2 {
        lemma_prefix_subrange(d2, d, p, p + 2);
        let n = u16_from_le(d.subrange(p, p + 2)) as int;
        if d2.len() >= p + 2 + n {
            lemma_prefix_subrange(d2, d, p + 2, p + 2 + n);
        }
    }
}

proof fn lemma_mlkem_prefix(d2: Seq<u8>, d: Seq<u8>, p: int)
    requires
        is_prefix(d2, d),
        0 <= p,
        parse_mlkem(d, p) is Ok,
    ensures
        d2.len() >= parse_mlkem(d, p)->Ok_0.1 ==> parse_mlkem(d2, p) == parse_mlkem(d, p),
        d2.len() < parse_mlkem(d, p)->Ok_0.1 ==> parse_mlkem(d2, p) == Parsed::<(Option<Seq<u8>>, int)>::Err(
            EnvelopeFault::Truncated,
        ),
{
    if d2.len() >= p + 4 {
        lemma_prefix_subrange(d2, d, p, p + 4);
        let n = u32_from_le(d.subrange(p, p + 4)) as int;
        if n != 0 && d2.len() >= p + 4 + n {
            lemma_prefix_subrange(d2, d, p + 4, p + 4 + n);
        }
    }
}

proof fn lemma_entry_prefix(d2: Seq<u8>, d: Seq<u8>, p: int)
    requires
        is_prefix(d2, d),
        0 <= p,
        parse_entry(d, p) is Ok,
    ensures
        parse_entry(d, p)->Ok_0.1 > p,
        d2.len() >= parse_entry(d, p)->Ok_0.1 ==> parse_entry(d2, p) == parse_entry(d, p),
        d2.len() < parse_entry(d, p)->Ok_0.1 ==> parse_entry(d2, p) == Parsed::<(AccessEntryView, int)>::Err(
            EnvelopeFault::Truncated,
        ),
{
    if d2.len() >= p + 10 {
        lemma_prefix_subrange(d2, d, p + 8, p + 10);
        let n = u16_from_le(d.subrange(p + 8, p + 10)) as int;
        if d2.len() >= p + 22 + n {
            lemma_prefix_subrange(d2, d, p, p + 8);
            lemma_prefix_subrange(d2, d, p + 10, p + 10 + n);
            lemma_prefix_subrange(d2, d, p + 10 + n, p + 22 + n);
        }
    }
}

proof fn lemma_entries_prefix(d2: Seq<u8>, d: Seq<u8>, p: int, count: nat)
    requires
        is_prefix(d2, d),
        0 <= p <= d2.len(),
        parse_entries(d, p, count) is Ok,
    ensures
        parse_entries(d, p, count)->Ok_0.1 >= p,
        d2.len() >= parse_entries(d, p, count)->Ok_0.1 ==> parse_entries(d2, p, count) == parse_entries(
            d,
            p,
            count,
        ),
        d2.len() < parse_entries(d, p, count)->Ok_0.1 ==> parse_entries(d2, p, count) == Parsed::<
            (Seq<AccessEntryView>, int),
        >::Err(EnvelopeFault::Truncated),
    decreases count,
{
    if count > 0 {
        lemma_entries_prefix(d2, d, p, (count - 1) as nat);
        let q = parse_entries(d, p, (count - 1) as nat)->Ok_0.1;
        lemma_entry_prefix(d2, d, q);
    }
}

proof fn lemma_tail_prefix(d2: Seq<u8>, d: Seq<u8>, p: int)
    requires
        is_prefix(d2, d),
        0 <= p,
        parse_tail(d, p) is Ok,
        d2.len() < d.len(),
        d.len() == p + 132 + (u64_from_le(d.subrange(p + 12, p + 20)) as usize) as int,
    ensures
        parse_tail(d2, p) == Parsed::<(Seq<u8>, Seq<u8>, Seq<u8>, Seq<u8>, Seq<u8>)>::Err(EnvelopeFault::Truncated),
{
    if d2.len() >= p + 20 {
        lemma_prefix_subrange(d2, d, p + 12, p + 20);
    }
}

/// Every proper prefix of a written envelope is refused as truncated: the binary format
/// never reads an envelope from fewer bytes than were written.
#[verifier::spinoff_prover]
#[verifier::rlimit(60)]
pub proof fn lemma_envelope_prefix_truncated(v: EnvelopeView, k: int)
    requires
        envelope_encodable(v),
        0 <= k < envelope_bytes(v).len(),
    ensures
        parse_envelope(envelope_bytes(v).subrange(0, k)) == Parsed::<EnvelopeView>::Err(EnvelopeFault::Truncated),
{
    let h = header_bytes(v);
    let sf = scope_field(v.scope);
    let eph = v.ephemeral_x25519_public;
    let mf = mlkem_field(v.ephemeral_mlkem_ciphertext);
    let cnt = u16_le(v.access_entries.len() as u16);
    let eb = entries_bytes(v.access_entries);
    let t = tail_bytes(v);
    let empty = Seq::<u8>::empty();
    let d = envelope_bytes(v);
    let d2 = d.subrange(0, k);
    assert(is_prefix(d2, d)) by {
        assert(d2 =~= d.subrange(0, d2.len() as int));
    }
    assert(d =~= h + (sf + eph + mf + cnt + eb + t));
    lemma_header_roundtrip(v, sf + eph + mf + cnt + eb + t);
    let p1 = h.len() as int;
    assert(d =~= h + sf + (eph + mf + cnt + eb + t));
    lemma_scope_roundtrip(h, v.scope, eph + mf + cnt + eb + t);
    let p2 = p1 + sf.len();
    assert(d =~= (h + sf + eph) + mf + (cnt + eb + t));
    lemma_mlkem_roundtrip(h + sf + eph, v.ephemeral_mlkem_ciphertext, cnt + eb + t);
    let p3 = p2 + 32 + mf.len();
    lemma_u16_le_roundtrip(v.access_entries.len() as u16);
    assert(d.subrange(p3, p3 + 2) =~= cnt);
    assert(d =~= (h + sf + eph + mf + cnt) + eb + t);
    lemma_entries_roundtrip(h + sf + eph + mf + cnt, v.access_entries, t);
    let p4 = p3 + 2 + eb.len();
    assert(d =~= (h + sf + eph + mf + cnt + eb) + t + empty);
    lemma_tail_roundtrip(h + sf + eph + mf + cnt + eb, v, empty);
    let n = v.ciphertext.len();
    lemma_u64_le_roundtrip(n as u64);
    assert(d.subrange(p4 + 12, p4 + 20) =~= u64_le(n as u64));
    assert(d.len() == p4 + 132 + n);
    lemma_header_prefix(d2, d);
    if k >= p1 {
        lemma_scope_prefix(d2, d, p1);
        if k >= p2 + 32 {
            lemma_mlkem_prefix(d2, d, p2 + 32);
            if k >= p3 + 2 {
                lemma_prefix_subrange(d2, d, p3, p3 + 2);
                lemma_entries_prefix(d2, d, p3 + 2, v.access_entries.len());
                if k >= p4 {
                    lemma_tail_prefix(d2, d, p4);
                }
            }
        }
    }
}

// ---------------------------------------------------------------------------
// Executable encoding and decoding
// ---------------------------------------------------------------------------

fn push_entries_signable(buf: &mut Vec<u8>, entries: &Vec<AccessEntry>)
    ensures
        final(buf)@ == old(buf)@ + entries_signable(entry_views(entries@)),
{
    let mut i: usize = 0;
    while i < entries.len()
        invariant
            i <= entries@.len(),
            buf@ == old(buf)@ + entries_signable(entry_views(entries@.subrange(0, i as int))),
        decreases entries@.len() - i,
    {
        let ghost before = entry_views(entries@.subrange(0, i as int));
        let e = &entries[i];
        push_bytes(buf, e.read_key_id.as_bytes());
        push_u32_le(buf, e.wrapped_data_key.len() as u32);
        push_bytes(buf, e.wrapped_data_key.as_slice());
        push_bytes(buf, &e.wrap_nonce);
        i = i + 1;
        proof {
            let after = entry_views(entries@.subrange(0, i as int));
            assert(after.drop_last() =~= before);
            assert(after.last() == e@);
        }
    }
    assert(entries@.subrange(0, entries@.len() as int) =~= entries@);
}

fn push_entries_bytes(buf: &mut Vec<u8>, entries: &Vec<AccessEntry>)
    ensures
        final(buf)@ == old(buf)@ + entries_bytes(entry_views(entries@)),
{
    let mut i: usize = 0;
    while i < entries.len()
        invariant
            i <= entries@.len(),
            buf@ == old(buf)@ + entries_bytes(entry_views(entries@.subrange(0, i as int))),
        decreases entries@.len() - i,
    {
        let ghost before = entry_views(entries@.subrange(0, i as int));
        let e = &entries[i];
        push_bytes(buf, e.read_key_id.as_bytes());
        push_u16_le(buf, e.wrapped_data_key.len() as u16);
        push_bytes(buf, e.wrapped_data_key.as_slice());
        push_bytes(buf, &e.wrap_nonce);
        i = i + 1;
        proof {
            let after = entry_views(entries@.subrange(0, i as int));
            assert(after.drop_last() =~= before);
            assert(after.last() == e@);
        }
    }
    assert(entries@.subrange(0, entries@.len() as int) =~= entries@);
}

fn push_mlkem_field(buf: &mut Vec<u8>, ct: &Option<Vec<u8>>)
    ensures
        final(buf)@ == old(buf)@ + mlkem_field(opt_bytes_view(*ct)),
{
    match ct {
        Some(c) => {
            push_u32_le(buf, c.len() as u32);
            push_bytes(buf, c.as_slice());
        },
        None => {
            push_u32_le(buf, 0);
        },
    }
}

fn truncated() -> (e: RokError)
    ensures
        e is SerializationError,
{
    RokError::SerializationError(String::from_str("unexpected end of data"))
}

fn read_header(data: &[u8]) -> (r: Result<(u32, Algorithm, AccessMode, usize)>)
    ensures
        match parse_header(data@) {
            Ok((v, a, m, p)) => r matches Ok((v2, a2, m2, p2)) && v2 == v && a2 == a && m2 == m
                && p2 == p,
            Err(f) => r matches Err(e) && reports_fault(f, e),
        },
{
    if data.len() < 4 {
        return Err(truncated());
    }
    if data[0] != 82 || data[1] != 79 || data[2] != 75 || data[3] != 1 {
        proof {
            let m = data@.subrange(0, 4);
            assert(m != envelope_magic()) by {
                if m == envelope_magic() {
                    assert(m[0] == 82 && m[1] == 79 && m[2] == 75 && m[3] == 1);
                }
            }
        }
        return Err(RokError::SerializationError(String::from_str("invalid magic bytes")));
    }
    assert(data@.subrange(0, 4) =~= envelope_magic());
    if data.len() < 9 {
        return Err(truncated());
    }
    let version = read_u32_le(data, 4);
    let algorithm = Algorithm::from_u8(data[8])?;
    if version < 2 {
        return Ok((version, algorithm, AccessMode::Recipient, 9));
    }
    if data.len() < 10 {
        return Err(truncated());
    }
    let access_mode = AccessMode::from_u8(data[9])?;
    Ok((version, algorithm, access_mode, 10))
}

fn read_scope(data: &[u8], p: usize) -> (r: Result<(Scope, usize)>)
    requires
        p <= data@.len(),
    ensures
        match parse_scope(data@, p as int) {
            Ok((s, q)) => r matches Ok((sc, q2)) && sc@ == s && q2 == q,
            Err(f) => r matches Err(e) && reports_fault(f, e),
        },
{
    if data.len() - p < 2 {
        return Err(truncated());
    }
    let n = read_u16_le(data, p) as usize;
    if data.len() - (p + 2) < n {
        return Err(truncated());
    }
    let sb = copy_range(data, p + 2, n);
    match utf8_str(sb.as_slice()) {
        None => Err(RokError::SerializationError(String::from_str("invalid scope utf8"))),
        Some(text) => {
            let scope = Scope::new(text)?;
            Ok((scope, p + 2 + n))
        },
    }
}

fn read_mlkem(data: &[u8], p: usize) -> (r: Result<(Option<Vec<u8>>, usize)>)
    requires
        p <= data@.len(),
    ensures
        match parse_mlkem(data@, p as int) {
            Ok((c, q)) => r matches Ok((c2, q2)) && opt_bytes_view(c2) == c && q2 == q,
            Err(f) => r matches Err(e) && reports_fault(f, e),
        },
{
    if data.len() - p < 4 {
        return Err(truncated());
    }
    let n = read_u32_le(data, p) as usize;
    if n == 0 {
        return Ok((None, p + 4));
    }
    if data.len() - (p + 4) < n {
        return Err(truncated());
    }
    let ct = copy_range(data, p + 4, n);
    Ok((Some(ct), p + 4 + n))
}

fn read_entry(data: &[u8], p: usize) -> (r: Result<(AccessEntry, usize)>)
    requires
        p <= data@.len(),
    ensures
        match parse_entry(data@, p as int) {
            Ok((e, q)) => r matches Ok((e2, q2)) && e2@ == e && q2 == q,
            Err(f) => r matches Err(err) && reports_fault(f, err),
        },
{
    if data.len() - p < 10 {
        return Err(truncated());
    }
    let read_key_id = KeyId::from_bytes(array8(data, p));
    let n = read_u16_le(data, p + 8) as usize;
    if data.len() - (p + 10) < n + 12 {
        return Err(truncated());
    }
    let wrapped_data_key = copy_range(data, p + 10, n);
    let wrap_nonce = array12(data, p + 10 + n);
    Ok((AccessEntry { read_key_id, wrapped_data_key, wrap_nonce }, p + 22 + n))
}

proof fn lemma_entries_fault_persists(d: Seq<u8>, p: int, k: nat, n: nat)
    requires
        parse_entries(d, p, k) is Err,
        k <= n,
    ensures
        parse_entries(d, p, n) == parse_entries(d, p, k),
    decreases n - k,
{
    if k < n {
        lemma_entries_fault_persists(d, p, k, (n - 1) as nat);
    }
}

fn read_entries(data: &[u8], p: usize, count: usize) -> (r: Result<(Vec<AccessEntry>, usize)>)
    requires
        p <= data@.len(),
    ensures
        match parse_entries(data@, p as int, count as nat) {
            Ok((es, q)) => r matches Ok((v, q2)) && entry_views(v@) == es && q2 == q,
            Err(f) => r matches Err(e) && reports_fault(f, e),
        },
{
    let mut entries: Vec<AccessEntry> = Vec::new();
    let mut pos = p;
    let mut i: usize = 0;
    assert(entry_views(entries@) =~= seq![]);
    while i < count
        invariant
            i <= count,
            pos <= data@.len(),
            parse_entries(data@, p as int, i as nat) == Parsed::Ok(
                (entry_views(entries@), pos as int),
            ),
        decreases count - i,
    {
        match read_entry(data, pos) {
            Ok((e, q)) => {
                let ghost before = entries@;
                entries.push(e);
                assert(entry_views(entries@) =~= entry_views(before).push(e@));
                pos = q;
            },
            Err(err) => {
                proof {
                    lemma_entries_fault_persists(data@, p as int, (i + 1) as nat, count as nat);
                }
                return Err(err);
            },
        }
        i = i + 1;
    }
    Ok((entries, pos))
}

fn read_tail(data: &[u8], p: usize) -> (r: Result<([u8; 12], Vec<u8>, [u8; 16], [u8; 32], [u8; 64])>)
    requires
        p <= data@.len(),
    ensures
        match parse_tail(data@, p as int) {
            Ok((nonce, ct, tag, spend, sig)) => r matches Ok((n2, c2, t2, s2, g2)) && n2@ == nonce
                && c2@ == ct && t2@ == tag && s2@ == spend && g2@ == sig,
            Err(f) => r matches Err(e) && reports_fault(f, e),
        },
{
    if data.len() - p < 20 {
        return Err(truncated());
    }
    let nonce = array12(data, p);
    let n = read_u64_le(data, p + 12) as usize;
    if data.len() - (p + 20) < n || data.len() - (p + 20) - n < 112 {
        return Err(truncated());
    }
    let ciphertext = copy_range(data, p + 20, n);
    let tag = array16(data, p + 20 + n);
    let spend_public_key = array32(data, p + 36 + n);
    let signature = array64(data, p + 68 + n);
    Ok((nonce, ciphertext, tag, spend_public_key, signature))
}

impl EncryptedEnvelope {
    /// File extension for encrypted files.
    pub const FILE_EXTENSION: &'static str = "rok";

    /// Current envelope version.
    pub const CURRENT_VERSION: u32 = 2;

    /// Compute the bytes that are signed (everything except the signature field).
    pub fn signable_bytes(&self) -> (r: Vec<u8>)
        ensures
            r@ == signable_seq(self@),
    {
        let mut buf: Vec<u8> = Vec::new();
        push_u32_le(&mut buf, self.version);
        buf.push(self.algorithm.to_u8());
        push_bytes(&mut buf, self.scope.as_str().as_bytes());
        push_bytes(&mut buf, &self.ephemeral_x25519_public);
        push_mlkem_field(&mut buf, &self.ephemeral_mlkem_ciphertext);
        push_u32_le(&mut buf, self.access_entries.len() as u32);
        push_entries_signable(&mut buf, &self.access_entries);
        push_bytes(&mut buf, &self.nonce);
        push_u64_le(&mut buf, self.ciphertext.len() as u64);
        push_bytes(&mut buf, self.ciphertext.as_slice());
        push_bytes(&mut buf, &self.tag);
        push_bytes(&mut buf, &self.spend_public_key);
        proof {
            assert(buf@ =~= signable_seq(self@));
        }
        buf
    }

    /// Extract non-secret metadata for inspection.
    pub fn metadata(&self) -> (m: EnvelopeMetadata)
        ensures
            m.version == self.version,
            m.algorithm == self.algorithm,
            m.access_mode == self.access_mode,
            m.scope@ == self.scope@,
            m.recipient_count == self.access_entries@.len(),
            m.ciphertext_len == self.ciphertext@.len(),
            m.recipient_key_ids@.len() == self.access_entries@.len(),
            forall|i: int|
                0 <= i < m.recipient_key_ids@.len() ==> #[trigger] m.recipient_key_ids@[i]@
                    == self.access_entries@[i].read_key_id@,
    {
        let mut ids: Vec<KeyId> = Vec::new();
        let mut i: usize = 0;
        while i < self.access_entries.len()
            invariant
                i <= self.access_entries@.len(),
                ids@.len() == i,
                forall|k: int|
                    0 <= k < i ==> #[trigger] ids@[k]@ == self.access_entries@[k].read_key_id@,
            decreases self.access_entries@.len() - i,
        {
            ids.push(self.access_entries[i].read_key_id);
            i = i + 1;
        }
        EnvelopeMetadata {
            version: self.version,
            algorithm: self.algorithm,
            access_mode: self.access_mode,
            scope: self.scope.clone(),
            recipient_count: self.access_entries.len(),
            ciphertext_len: self.ciphertext.len(),
            recipient_key_ids: ids,
        }
    }

    /// Serialize to the binary format.
    pub fn to_bytes(&self) -> (r: Vec<u8>)
        ensures
            r@ == envelope_bytes(self@),
    {
        let mut buf: Vec<u8> = Vec::new();
        buf.push(82);
        buf.push(79);
        buf.push(75);
        buf.push(1);
        push_u32_le(&mut buf, self.version);
        buf.push(self.algorithm.to_u8());
        if self.version >= 2 {
            buf.push(self.access_mode.to_u8());
        }
        let scope_bytes = self.scope.as_str().as_bytes();
        push_u16_le(&mut buf, scope_bytes.len() as u16);
        push_bytes(&mut buf, scope_bytes);
        push_bytes(&mut buf, &self.ephemeral_x25519_public);
        push_mlkem_field(&mut buf, &self.ephemeral_mlkem_ciphertext);
        push_u16_le(&mut buf, self.access_entries.len() as u16);
        push_entries_bytes(&mut buf, &self.access_entries);
        push_bytes(&mut buf, &self.nonce);
        push_u64_le(&mut buf, self.ciphertext.len() as u64);
        push_bytes(&mut buf, self.ciphertext.as_slice());
        push_bytes(&mut buf, &self.tag);
        push_bytes(&mut buf, &self.spend_public_key);
        push_bytes(&mut buf, &self.signature);
        proof {
            assert(buf@ =~= envelope_bytes(self@));
        }
        buf
    }

    /// Deserialize from the binary format. Version 1 envelopes carry no access mode and
    /// read as `Recipient`; bytes after a complete envelope are ignored.
    pub fn from_bytes(data: &[u8]) -> (r: Result<EncryptedEnvelope>)
        ensures
            match parse_envelope(data@) {
                Ok(v) => r matches Ok(e) && e@ == v,
                Err(f) => r matches Err(e) && reports_fault(f, e),
            },
    {
        let (version, algorithm, access_mode, p1) = read_header(data)?;
        let (scope, p2) = read_scope(data, p1)?;
        if data.len() - p2 < 32 {
            return Err(truncated());
        }
        let ephemeral_x25519_public = array32(data, p2);
        let (ephemeral_mlkem_ciphertext, p3) = read_mlkem(data, p2 + 32)?;
        if data.len() - p3 < 2 {
            return Err(truncated());
        }
        let count = read_u16_le(data, p3) as usize;
        let (access_entries, p4) = read_entries(data, p3 + 2, count)?;
        let (nonce, ciphertext, tag, spend_public_key, signature) = read_tail(data, p4)?;
        let e = EncryptedEnvelope {
            version,
            algorithm,
            scope,
            ephemeral_x25519_public,
            ephemeral_mlkem_ciphertext,
            access_entries,
            nonce,
            ciphertext,
            tag,
            signature,
            spend_public_key,
            access_mode,
        };
        proof {
            assert(e@ =~= parse_envelope(data@)->Ok_0);
        }
        Ok(e)
    }
}

} // verus!
