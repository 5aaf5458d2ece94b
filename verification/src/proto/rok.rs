//! The protobuf messages of the library, their wire encoding and their decoding.
//!
//! Every message is encoded as proto3 does: fields in the order of their numbers, a scalar,
//! string or bytes field only when it differs from its default, each element of a repeated
//! field as a field of its own. Decoding reads the fields in turn: a known field with
//! another wire type is refused, an unknown field is skipped, and a later occurrence of a
//! scalar, string or bytes field replaces an earlier one.
use vstd::prelude::*;
use vstd::utf8::{decode_utf8, encode_utf8, valid_utf8};
use crate::crypto::utf8_str;
use crate::proto::wire::{
    field_bytes, field_if, field_views, fields_bytes, fields_encodable, fold_fields, len_field,
    lemma_fields_bytes_append, lemma_fields_encodable, lemma_fields_roundtrip, lemma_fold_append,
    lemma_fold_field_if, push_len_field, push_varint_field, read_fields, read_fields_exec,
    tags_valid, varint_field, WireField, WireFieldView, WireValue, WireValueView,
};

verus! {

// ---------------------------------------------------------------------------
// Shared pieces
// ---------------------------------------------------------------------------

/// The bytes of a field that may be absent.
proof fn lemma_fields_bytes_field_if(c: bool, f: WireFieldView)
    ensures
        fields_bytes(field_if(c, f)) == if c {
            field_bytes(f)
        } else {
            Seq::<u8>::empty()
        },
{
    assert(fields_bytes(Seq::<WireFieldView>::empty()) =~= Seq::<u8>::empty());
    if c {
        assert(seq![f][0] == f);
        assert(seq![f].drop_first() =~= Seq::<WireFieldView>::empty());
        assert(field_bytes(f) + Seq::<u8>::empty() =~= field_bytes(f));
    } else {
        assert(field_if(c, f) =~= Seq::<WireFieldView>::empty());
    }
}

/// Two sequences of fields with valid numbers make one.
proof fn lemma_tags_valid_append(a: Seq<WireFieldView>, b: Seq<WireFieldView>)
    requires
        tags_valid(a),
        tags_valid(b),
    ensures
        tags_valid(a + b),
{
    assert forall|i: int| 0 <= i < (a + b).len() implies 1 <= #[trigger] (a + b)[i].tag
        < 0x2000_0000 by {
        if i < a.len() {
            assert((a + b)[i] == a[i]);
        } else {
            assert((a + b)[i] == b[i - a.len()]);
        }
    }
}

/// The value of a varint field read back as a `u32`.
proof fn lemma_u32_varint(x: u32)
    ensures
        ((x as u64) as u32) == x,
{
    assert(((x as u64) as u32) == x) by (bit_vector);
}

/// The value of a varint field read back as an `i32`: a negative value is written
/// sign-extended to 64 bits.
proof fn lemma_i32_varint(x: i32)
    ensures
        ((x as u64) as i32) == x,
{
    assert(((x as u64) as i32) == x) by (bit_vector);
}

/// The value that a bytes field takes from a field, if its wire type fits.
pub open spec fn bytes_value(f: WireFieldView) -> Option<Seq<u8>> {
    match f.value {
        WireValueView::Len(b) => Some(b),
        _ => None,
    }
}

/// The value that a string field takes from a field: its payload read as UTF-8.
pub open spec fn string_value(f: WireFieldView) -> Option<Seq<char>> {
    match f.value {
        WireValueView::Len(b) => if valid_utf8(b) {
            Some(decode_utf8(b))
        } else {
            None
        },
        _ => None,
    }
}

/// The value that a varint field takes from a field, if its wire type fits.
pub open spec fn varint_value(f: WireFieldView) -> Option<u64> {
    match f.value {
        WireValueView::Varint(v) => Some(v),
        _ => None,
    }
}

fn bytes_of(f: &WireField) -> (r: Option<Vec<u8>>)
    ensures
        match bytes_value(f@) {
            Some(b) => r matches Some(v) && v@ == b,
            None => r is None,
        },
{
    match &f.value {
        WireValue::Len(b) => Some(b.clone()),
        _ => None,
    }
}

fn string_of(f: &WireField) -> (r: Option<String>)
    ensures
        match string_value(f@) {
            Some(s) => r matches Some(v) && v@ == s,
            None => r is None,
        },
{
    match &f.value {
        WireValue::Len(b) => match utf8_str(b.as_slice()) {
            Some(s) => Some(String::from_str(s)),
            None => None,
        },
        _ => None,
    }
}

fn varint_of(f: &WireField) -> (r: Option<u64>)
    ensures
        r == varint_value(f@),
{
    match &f.value {
        WireValue::Varint(v) => Some(*v),
        _ => None,
    }
}

/// Appends a bytes field unless it is empty.
fn push_bytes_field(buf: &mut Vec<u8>, tag: u32, b: &[u8])
    requires
        1 <= tag < 0x2000_0000,
    ensures
        final(buf)@ == old(buf)@ + fields_bytes(field_if(b@.len() > 0, len_field(tag, b@))),
{
    proof {
        lemma_fields_bytes_field_if(b@.len() > 0, len_field(tag, b@));
    }
    if b.len() > 0 {
        push_len_field(buf, tag, b);
    } else {
        assert(buf@ =~= old(buf)@ + Seq::<u8>::empty());
    }
}

/// Appends a varint field unless it is zero.
fn push_nonzero_varint_field(buf: &mut Vec<u8>, tag: u32, v: u64)
    requires
        1 <= tag < 0x2000_0000,
    ensures
        final(buf)@ == old(buf)@ + fields_bytes(field_if(v != 0, varint_field(tag, v))),
{
    proof {
        lemma_fields_bytes_field_if(v != 0, varint_field(tag, v));
    }
    if v != 0 {
        push_varint_field(buf, tag, v);
    } else {
        assert(buf@ =~= old(buf)@ + Seq::<u8>::empty());
    }
}

/// The field of a string, encoded as UTF-8, unless the string is empty.
pub open spec fn string_field_if(tag: u32, s: Seq<char>) -> Seq<WireFieldView> {
    field_if(s.len() > 0, len_field(tag, encode_utf8(s)))
}

/// Appends a string field unless it is empty.
fn push_string_field(buf: &mut Vec<u8>, tag: u32, s: &str)
    requires
        1 <= tag < 0x2000_0000,
    ensures
        final(buf)@ == old(buf)@ + fields_bytes(string_field_if(tag, s@)),
{
    proof {
        lemma_fields_bytes_field_if(s@.len() > 0, len_field(tag, encode_utf8(s@)));
    }
    if !s.is_empty() {
        push_len_field(buf, tag, s.as_bytes());
    } else {
        assert(buf@ =~= old(buf)@ + Seq::<u8>::empty());
    }
}

/// Reading back a string field.
proof fn lemma_string_value(tag: u32, s: Seq<char>)
    ensures
        string_value(len_field(tag, encode_utf8(s))) == Some(s),
{
    vstd::utf8::encode_utf8_valid_utf8(s);
    vstd::utf8::encode_utf8_decode_utf8(s);
}

// ---------------------------------------------------------------------------
// Enumerations
// ---------------------------------------------------------------------------

/// The encryption algorithm as the wire names it.
#[derive(Debug, Clone, Copy, PartialEq, Eq, Structural)]
pub enum Algorithm {
    Unspecified,
    EciesX25519Chacha20,
    HybridX25519MlkemChacha20,
}

/// The number that stands for an algorithm on the wire.
pub open spec fn algorithm_number(a: Algorithm) -> i32 {
    match a {
        Algorithm::Unspecified => 0,
        Algorithm::EciesX25519Chacha20 => 1,
        Algorithm::HybridX25519MlkemChacha20 => 2,
    }
}

impl Algorithm {
    /// The number that stands for the algorithm on the wire.
    pub fn as_i32(self) -> (r: i32)
        ensures
            r == algorithm_number(self),
    {
        match self {
            Algorithm::Unspecified => 0,
            Algorithm::EciesX25519Chacha20 => 1,
            Algorithm::HybridX25519MlkemChacha20 => 2,
        }
    }

    /// The algorithm a number stands for; `None` for an unknown number.
    pub fn from_i32(v: i32) -> (r: Option<Algorithm>)
        ensures
            r is Some <==> 0 <= v <= 2,
            r matches Some(a) ==> algorithm_number(a) == v,
    {
        if v == 0 {
            Some(Algorithm::Unspecified)
        } else if v == 1 {
            Some(Algorithm::EciesX25519Chacha20)
        } else if v == 2 {
            Some(Algorithm::HybridX25519MlkemChacha20)
        } else {
            None
        }
    }
}

/// The access mode as the wire names it.
#[derive(Debug, Clone, Copy, PartialEq, Eq, Structural)]
pub enum AccessMode {
    Recipient,
    ScopeBased,
}

/// The number that stands for an access mode on the wire.
pub open spec fn access_mode_number(m: AccessMode) -> i32 {
    match m {
        AccessMode::Recipient => 0,
        AccessMode::ScopeBased => 1,
    }
}

impl AccessMode {
    /// The number that stands for the access mode on the wire.
    pub fn as_i32(self) -> (r: i32)
        ensures
            r == access_mode_number(self),
    {
        match self {
            AccessMode::Recipient => 0,
            AccessMode::ScopeBased => 1,
        }
    }

    /// The access mode a number stands for; `None` for an unknown number.
    pub fn from_i32(v: i32) -> (r: Option<AccessMode>)
        ensures
            r is Some <==> 0 <= v <= 1,
            r matches Some(m) ==> access_mode_number(m) == v,
    {
        if v == 0 {
            Some(AccessMode::Recipient)
        } else if v == 1 {
            Some(AccessMode::ScopeBased)
        } else {
            None
        }
    }
}

// ---------------------------------------------------------------------------
// AccessEntry
// ---------------------------------------------------------------------------

/// An access entry on the wire: key ID (1), wrapped data key (2), wrap nonce (3).
#[derive(Debug, Clone)]
pub struct AccessEntry {
    pub read_key_id: Vec<u8>,
    pub wrapped_data_key: Vec<u8>,
    pub wrap_nonce: Vec<u8>,
}

/// The mathematical content of an access entry message.
pub struct EntryMsg {
    pub read_key_id: Seq<u8>,
    pub wrapped_data_key: Seq<u8>,
    pub wrap_nonce: Seq<u8>,
}

impl View for AccessEntry {
    type V = EntryMsg;

    open spec fn view(&self) -> EntryMsg {
        EntryMsg {
            read_key_id: self.read_key_id@,
            wrapped_data_key: self.wrapped_data_key@,
            wrap_nonce: self.wrap_nonce@,
        }
    }
}

/// The views of a sequence of access entry messages.
pub open spec fn entry_msg_views(v: Seq<AccessEntry>) -> Seq<EntryMsg> {
    v.map_values(|e: AccessEntry| e@)
}

/// The access entry message with every field at its default.
pub open spec fn empty_entry_msg() -> EntryMsg {
    EntryMsg { read_key_id: seq![], wrapped_data_key: seq![], wrap_nonce: seq![] }
}

/// The fields that encode an access entry.
pub open spec fn entry_fields(e: EntryMsg) -> Seq<WireFieldView> {
    field_if(e.read_key_id.len() > 0, len_field(1, e.read_key_id)) + field_if(
        e.wrapped_data_key.len() > 0,
        len_field(2, e.wrapped_data_key),
    ) + field_if(e.wrap_nonce.len() > 0, len_field(3, e.wrap_nonce))
}

/// The encoding of an access entry.
pub open spec fn entry_msg_bytes(e: EntryMsg) -> Seq<u8> {
    fields_bytes(entry_fields(e))
}

/// What one field does to an access entry being decoded.
pub open spec fn entry_step(acc: EntryMsg, f: WireFieldView) -> Option<EntryMsg> {
    if f.tag == 1 {
        match bytes_value(f) {
            Some(b) => Some(EntryMsg { read_key_id: b, ..acc }),
            None => None,
        }
    } else if f.tag == 2 {
        match bytes_value(f) {
            Some(b) => Some(EntryMsg { wrapped_data_key: b, ..acc }),
            None => None,
        }
    } else if f.tag == 3 {
        match bytes_value(f) {
            Some(b) => Some(EntryMsg { wrap_nonce: b, ..acc }),
            None => None,
        }
    } else {
        Some(acc)
    }
}

/// `entry_step` as a function value.
pub open spec fn entry_stepper() -> spec_fn(EntryMsg, WireFieldView) -> Option<EntryMsg> {
    |a: EntryMsg, f: WireFieldView| entry_step(a, f)
}

/// What decoding reads from bytes: an access entry, or nothing.
pub open spec fn decode_entry_msg(d: Seq<u8>) -> Option<EntryMsg> {
    match read_fields(d, 0) {
        None => None,
        Some(fs) => fold_fields(fs, empty_entry_msg(), entry_stepper()),
    }
}

proof fn lemma_entry_tags(e: EntryMsg)
    ensures
        tags_valid(entry_fields(e)),
{
    let a = field_if(e.read_key_id.len() > 0, len_field(1, e.read_key_id));
    let b = field_if(e.wrapped_data_key.len() > 0, len_field(2, e.wrapped_data_key));
    let c = field_if(e.wrap_nonce.len() > 0, len_field(3, e.wrap_nonce));
    lemma_tags_valid_append(a, b);
    lemma_tags_valid_append(a + b, c);
}

/// Decoding an encoded access entry gives it back.
pub proof fn lemma_entry_msg_roundtrip(e: EntryMsg)
    requires
        entry_msg_bytes(e).len() <= u64::MAX,
    ensures
        decode_entry_msg(entry_msg_bytes(e)) == Some(e),
{
    let fs = entry_fields(e);
    lemma_entry_tags(e);
    lemma_fields_encodable(fs);
    lemma_fields_roundtrip(Seq::<u8>::empty(), fs);
    assert(Seq::<u8>::empty() + fields_bytes(fs) =~= fields_bytes(fs));
    let a = field_if(e.read_key_id.len() > 0, len_field(1, e.read_key_id));
    let b = field_if(e.wrapped_data_key.len() > 0, len_field(2, e.wrapped_data_key));
    let c = field_if(e.wrap_nonce.len() > 0, len_field(3, e.wrap_nonce));
    let st = entry_stepper();
    let e0 = empty_entry_msg();
    lemma_fold_append(a + b, c, e0, st);
    lemma_fold_append(a, b, e0, st);
    lemma_fold_field_if(e.read_key_id.len() > 0, len_field(1, e.read_key_id), e0, st);
    let e1 = EntryMsg { read_key_id: e.read_key_id, ..e0 };
    assert(e.read_key_id.len() == 0 ==> e.read_key_id =~= e0.read_key_id);
    lemma_fold_field_if(e.wrapped_data_key.len() > 0, len_field(2, e.wrapped_data_key), e1, st);
    let e2 = EntryMsg { wrapped_data_key: e.wrapped_data_key, ..e1 };
    assert(e.wrapped_data_key.len() == 0 ==> e.wrapped_data_key =~= e0.wrapped_data_key);
    lemma_fold_field_if(e.wrap_nonce.len() > 0, len_field(3, e.wrap_nonce), e2, st);
    assert(e.wrap_nonce.len() == 0 ==> e.wrap_nonce =~= e0.wrap_nonce);
}

impl AccessEntry {
    /// Appends the encoding of the message.
    pub fn encode_into(&self, buf: &mut Vec<u8>)
        ensures
            final(buf)@ == old(buf)@ + entry_msg_bytes(self@),
    {
        let ghost e = self@;
        let ghost a = field_if(e.read_key_id.len() > 0, len_field(1, e.read_key_id));
        let ghost b = field_if(e.wrapped_data_key.len() > 0, len_field(2, e.wrapped_data_key));
        let ghost c = field_if(e.wrap_nonce.len() > 0, len_field(3, e.wrap_nonce));
        push_bytes_field(buf, 1, self.read_key_id.as_slice());
        push_bytes_field(buf, 2, self.wrapped_data_key.as_slice());
        push_bytes_field(buf, 3, self.wrap_nonce.as_slice());
        proof {
            lemma_fields_bytes_append(a, b);
            lemma_fields_bytes_append(a + b, c);
            assert(buf@ =~= old(buf)@ + entry_msg_bytes(e));
        }
    }

    /// The encoding of the message.
    pub fn encode_to_vec(&self) -> (r: Vec<u8>)
        ensures
            r@ == entry_msg_bytes(self@),
    {
        let mut buf: Vec<u8> = Vec::new();
        self.encode_into(&mut buf);
        assert(buf@ =~= entry_msg_bytes(self@));
        buf
    }

    fn apply(&mut self, f: &WireField) -> (ok: bool)
        ensures
            ok == entry_step(old(self)@, f@) is Some,
            ok ==> final(self)@ == entry_step(old(self)@, f@)->Some_0,
    {
        if f.tag == 1 {
            match bytes_of(f) {
                Some(b) => {
                    self.read_key_id = b;
                    true
                },
                None => false,
            }
        } else if f.tag == 2 {
            match bytes_of(f) {
                Some(b) => {
                    self.wrapped_data_key = b;
                    true
                },
                None => false,
            }
        } else if f.tag == 3 {
            match bytes_of(f) {
                Some(b) => {
                    self.wrap_nonce = b;
                    true
                },
                None => false,
            }
        } else {
            true
        }
    }

    /// Decodes the message from bytes; `None` where they are no such message.
    pub fn decode(data: &[u8]) -> (r: Option<AccessEntry>)
        ensures
            match decode_entry_msg(data@) {
                Some(e) => r matches Some(v) && v@ == e,
                None => r is None,
            },
    {
        let fields = match read_fields_exec(data) {
            None => return None,
            Some(fs) => fs,
        };
        let ghost fs = field_views(fields@);
        let mut acc = AccessEntry {
            read_key_id: Vec::new(),
            wrapped_data_key: Vec::new(),
            wrap_nonce: Vec::new(),
        };
        assert(acc@ =~= empty_entry_msg());
        assert(fs.skip(0) =~= fs);
        let mut i: usize = 0;
        while i < fields.len()
            invariant
                i <= fields@.len(),
                fs == field_views(fields@),
                read_fields(data@, 0) == Some(fs),
                fold_fields(fs, empty_entry_msg(), entry_stepper()) == fold_fields(
                    fs.skip(i as int),
                    acc@,
                    entry_stepper(),
                ),
            decreases fields@.len() - i,
        {
            let ghost before = acc@;
            assert(fs.skip(i as int)[0] == fields@[i as int]@);
            assert(fs.skip(i as int).drop_first() =~= fs.skip(i + 1));
            assert(entry_stepper()(before, fields@[i as int]@) == entry_step(before, fields@[i as int]@));
            if !acc.apply(&fields[i]) {
                assert(fold_fields(fs.skip(i as int), before, entry_stepper()) is None);
                return None;
            }
            i = i + 1;
        }
        assert(fs.skip(i as int) =~= Seq::<WireFieldView>::empty());
        Some(acc)
    }
}

// ---------------------------------------------------------------------------
// EncryptedEnvelope
// ---------------------------------------------------------------------------

/// An encrypted envelope on the wire: version (1), algorithm (2), scope (3), ephemeral
/// X25519 public key (4), ML-KEM ciphertext (5, empty when absent), access entries (6),
/// nonce (7), ciphertext (8), tag (9), spend public key (10), signature (11), access mode
/// (12).
#[derive(Debug, Clone)]
pub struct EncryptedEnvelope {
    pub version: u32,
    pub algorithm: i32,
    pub scope: String,
    pub ephemeral_x25519_public: Vec<u8>,
    pub ephemeral_mlkem_ciphertext: Vec<u8>,
    pub access_entries: Vec<AccessEntry>,
    pub nonce: Vec<u8>,
    pub ciphertext: Vec<u8>,
    pub tag: Vec<u8>,
    pub spend_public_key: Vec<u8>,
    pub signature: Vec<u8>,
    pub access_mode: i32,
}

/// The mathematical content of an envelope message.
pub struct EnvelopeMsg {
    pub version: u32,
    pub algorithm: i32,
    pub scope: Seq<char>,
    pub ephemeral_x25519_public: Seq<u8>,
    pub ephemeral_mlkem_ciphertext: Seq<u8>,
    pub access_entries: Seq<EntryMsg>,
    pub nonce: Seq<u8>,
    pub ciphertext: Seq<u8>,
    pub tag: Seq<u8>,
    pub spend_public_key: Seq<u8>,
    pub signature: Seq<u8>,
    pub access_mode: i32,
}

impl View for EncryptedEnvelope {
    type V = EnvelopeMsg;

    open spec fn view(&self) -> EnvelopeMsg {
        EnvelopeMsg {
            version: self.version,
            algorithm: self.algorithm,
            scope: self.scope@,
            ephemeral_x25519_public: self.ephemeral_x25519_public@,
            ephemeral_mlkem_ciphertext: self.ephemeral_mlkem_ciphertext@,
            access_entries: entry_msg_views(self.access_entries@),
            nonce: self.nonce@,
            ciphertext: self.ciphertext@,
            tag: self.tag@,
            spend_public_key: self.spend_public_key@,
            signature: self.signature@,
            access_mode: self.access_mode,
        }
    }
}

/// The envelope message with every field at its default.
pub open spec fn empty_envelope_msg() -> EnvelopeMsg {
    EnvelopeMsg {
        version: 0,
        algorithm: 0,
        scope: seq![],
        ephemeral_x25519_public: seq![],
        ephemeral_mlkem_ciphertext: seq![],
        access_entries: seq![],
        nonce: seq![],
        ciphertext: seq![],
        tag: seq![],
        spend_public_key: seq![],
        signature: seq![],
        access_mode: 0,
    }
}

/// One field per access entry, in order.
pub open spec fn entry_list_fields(es: Seq<EntryMsg>) -> Seq<WireFieldView>
    decreases es.len(),
{
    if es.len() == 0 {
        seq![]
    } else {
        entry_list_fields(es.drop_last()) + seq![len_field(6, entry_msg_bytes(es.last()))]
    }
}

/// The fields that encode the first five fields of an envelope.
pub open spec fn envelope_head_fields(m: EnvelopeMsg) -> Seq<WireFieldView> {
    field_if(m.version != 0, varint_field(1, m.version as u64)) + field_if(
        m.algorithm != 0,
        varint_field(2, m.algorithm as u64),
    ) + string_field_if(3, m.scope) + field_if(
        m.ephemeral_x25519_public.len() > 0,
        len_field(4, m.ephemeral_x25519_public),
    ) + field_if(m.ephemeral_mlkem_ciphertext.len() > 0, len_field(5, m.ephemeral_mlkem_ciphertext))
}

/// The fields that encode the fields of an envelope after its access entries.
pub open spec fn envelope_tail_fields(m: EnvelopeMsg) -> Seq<WireFieldView> {
    field_if(m.nonce.len() > 0, len_field(7, m.nonce)) + field_if(
        m.ciphertext.len() > 0,
        len_field(8, m.ciphertext),
    ) + field_if(m.tag.len() > 0, len_field(9, m.tag)) + field_if(
        m.spend_public_key.len() > 0,
        len_field(10, m.spend_public_key),
    ) + field_if(m.signature.len() > 0, len_field(11, m.signature)) + field_if(
        m.access_mode != 0,
        varint_field(12, m.access_mode as u64),
    )
}

/// The fields that encode an envelope.
pub open spec fn envelope_fields(m: EnvelopeMsg) -> Seq<WireFieldView> {
    envelope_head_fields(m) + entry_list_fields(m.access_entries) + envelope_tail_fields(m)
}

/// The encoding of an envelope.
pub open spec fn envelope_msg_bytes(m: EnvelopeMsg) -> Seq<u8> {
    fields_bytes(envelope_fields(m))
}

/// What one field does to an envelope being decoded.
pub open spec fn envelope_step(acc: EnvelopeMsg, f: WireFieldView) -> Option<EnvelopeMsg> {
    if f.tag == 1 {
        match varint_value(f) {
            Some(v) => Some(EnvelopeMsg { version: v as u32, ..acc }),
            None => None,
        }
    } else if f.tag == 2 {
        match varint_value(f) {
            Some(v) => Some(EnvelopeMsg { algorithm: v as i32, ..acc }),
            None => None,
        }
    } else if f.tag == 3 {
        match string_value(f) {
            Some(s) => Some(EnvelopeMsg { scope: s, ..acc }),
            None => None,
        }
    } else if f.tag == 4 {
        match bytes_value(f) {
            Some(b) => Some(EnvelopeMsg { ephemeral_x25519_public: b, ..acc }),
            None => None,
        }
    } else if f.tag == 5 {
        match bytes_value(f) {
            Some(b) => Some(EnvelopeMsg { ephemeral_mlkem_ciphertext: b, ..acc }),
            None => None,
        }
    } else if f.tag == 6 {
        match bytes_value(f) {
            Some(b) => match decode_entry_msg(b) {
                Some(e) => Some(EnvelopeMsg { access_entries: acc.access_entries.push(e), ..acc }),
                None => None,
            },
            None => None,
        }
    } else if f.tag == 7 {
        match bytes_value(f) {
            Some(b) => Some(EnvelopeMsg { nonce: b, ..acc }),
            None => None,
        }
    } else if f.tag == 8 {
        match bytes_value(f) {
            Some(b) => Some(EnvelopeMsg { ciphertext: b, ..acc }),
            None => None,
        }
    } else if f.tag == 9 {
        match bytes_value(f) {
            Some(b) => Some(EnvelopeMsg { tag: b, ..acc }),
            None => None,
        }
    } else if f.tag == 10 {
        match bytes_value(f) {
            Some(b) => Some(EnvelopeMsg { spend_public_key: b, ..acc }),
            None => None,
        }
    } else if f.tag == 11 {
        match bytes_value(f) {
            Some(b) => Some(EnvelopeMsg { signature: b, ..acc }),
            None => None,
        }
    } else if f.tag == 12 {
        match varint_value(f) {
            Some(v) => Some(EnvelopeMsg { access_mode: v as i32, ..acc }),
            None => None,
        }
    } else {
        Some(acc)
    }
}

/// `envelope_step` as a function value.
pub open spec fn envelope_stepper() -> spec_fn(EnvelopeMsg, WireFieldView) -> Option<EnvelopeMsg> {
    |a: EnvelopeMsg, f: WireFieldView| envelope_step(a, f)
}

/// What decoding reads from bytes onto a starting envelope: fields that occur replace
/// the starting ones, and access entries are appended.
pub open spec fn decode_envelope_msg_onto(d: Seq<u8>, start: EnvelopeMsg) -> Option<EnvelopeMsg> {
    match read_fields(d, 0) {
        None => None,
        Some(fs) => fold_fields(fs, start, envelope_stepper()),
    }
}

/// What decoding reads from bytes: an envelope message, or nothing.
pub open spec fn decode_envelope_msg(d: Seq<u8>) -> Option<EnvelopeMsg> {
    decode_envelope_msg_onto(d, empty_envelope_msg())
}

proof fn lemma_entry_list_tags(es: Seq<EntryMsg>)
    ensures
        tags_valid(entry_list_fields(es)),
        entry_list_fields(es).len() == es.len(),
    decreases es.len(),
{
    if es.len() > 0 {
        lemma_entry_list_tags(es.drop_last());
        lemma_tags_valid_append(
            entry_list_fields(es.drop_last()),
            seq![len_field(6, entry_msg_bytes(es.last()))],
        );
    }
}

proof fn lemma_envelope_tags(m: EnvelopeMsg)
    ensures
        tags_valid(envelope_fields(m)),
{
    let p1 = field_if(m.version != 0, varint_field(1, m.version as u64));
    let p2 = field_if(m.algorithm != 0, varint_field(2, m.algorithm as u64));
    let p3 = string_field_if(3, m.scope);
    let p4 = field_if(m.ephemeral_x25519_public.len() > 0, len_field(4, m.ephemeral_x25519_public));
    let p5 = field_if(
        m.ephemeral_mlkem_ciphertext.len() > 0,
        len_field(5, m.ephemeral_mlkem_ciphertext),
    );
    lemma_tags_valid_append(p1, p2);
    lemma_tags_valid_append(p1 + p2, p3);
    lemma_tags_valid_append(p1 + p2 + p3, p4);
    lemma_tags_valid_append(p1 + p2 + p3 + p4, p5);
    let t1 = field_if(m.nonce.len() > 0, len_field(7, m.nonce));
    let t2 = field_if(m.ciphertext.len() > 0, len_field(8, m.ciphertext));
    let t3 = field_if(m.tag.len() > 0, len_field(9, m.tag));
    let t4 = field_if(m.spend_public_key.len() > 0, len_field(10, m.spend_public_key));
    let t5 = field_if(m.signature.len() > 0, len_field(11, m.signature));
    let t6 = field_if(m.access_mode != 0, varint_field(12, m.access_mode as u64));
    lemma_tags_valid_append(t1, t2);
    lemma_tags_valid_append(t1 + t2, t3);
    lemma_tags_valid_append(t1 + t2 + t3, t4);
    lemma_tags_valid_append(t1 + t2 + t3 + t4, t5);
    lemma_tags_valid_append(t1 + t2 + t3 + t4 + t5, t6);
    lemma_entry_list_tags(m.access_entries);
    lemma_tags_valid_append(envelope_head_fields(m), entry_list_fields(m.access_entries));
    lemma_tags_valid_append(
        envelope_head_fields(m) + entry_list_fields(m.access_entries),
        envelope_tail_fields(m),
    );
}

proof fn lemma_fields_encodable_split(a: Seq<WireFieldView>, b: Seq<WireFieldView>)
    requires
        fields_encodable(a + b),
    ensures
        fields_encodable(a),
        fields_encodable(b),
{
    assert forall|i: int| 0 <= i < a.len() implies #[trigger] crate::proto::wire::field_encodable(
        a[i],
    ) by {
        assert((a + b)[i] == a[i]);
    }
    assert forall|i: int| 0 <= i < b.len() implies #[trigger] crate::proto::wire::field_encodable(
        b[i],
    ) by {
        assert((a + b)[a.len() + i] == b[i]);
    }
}

proof fn lemma_fold_entry_list(es: Seq<EntryMsg>, acc: EnvelopeMsg)
    requires
        fields_encodable(entry_list_fields(es)),
    ensures
        fold_fields(entry_list_fields(es), acc, envelope_stepper()) == Some(
            EnvelopeMsg { access_entries: acc.access_entries + es, ..acc },
        ),
    decreases es.len(),
{
    let st = envelope_stepper();
    if es.len() == 0 {
        assert(acc.access_entries + es =~= acc.access_entries);
    } else {
        let init = es.drop_last();
        let f = len_field(6, entry_msg_bytes(es.last()));
        lemma_fields_encodable_split(entry_list_fields(init), seq![f]);
        assert(crate::proto::wire::field_encodable(seq![f][0]));
        lemma_fold_entry_list(init, acc);
        lemma_fold_append(entry_list_fields(init), seq![f], acc, st);
        let mid = EnvelopeMsg { access_entries: acc.access_entries + init, ..acc };
        lemma_fold_field_if(true, f, mid, st);
        lemma_entry_msg_roundtrip(es.last());
        assert((acc.access_entries + init).push(es.last()) =~= acc.access_entries + es);
    }
}

/// Decoding an encoded envelope message gives it back.
#[verifier::rlimit(40)]
pub proof fn lemma_envelope_msg_roundtrip(m: EnvelopeMsg)
    requires
        envelope_msg_bytes(m).len() <= u64::MAX,
    ensures
        decode_envelope_msg(envelope_msg_bytes(m)) == Some(m),
{
    let fs = envelope_fields(m);
    lemma_envelope_tags(m);
    lemma_fields_encodable(fs);
    lemma_fields_roundtrip(Seq::<u8>::empty(), fs);
    assert(Seq::<u8>::empty() + fields_bytes(fs) =~= fields_bytes(fs));
    let st = envelope_stepper();
    let head = envelope_head_fields(m);
    let list = entry_list_fields(m.access_entries);
    let tail = envelope_tail_fields(m);
    lemma_fields_encodable_split(head + list, tail);
    lemma_fields_encodable_split(head, list);
    lemma_fold_append(head + list, tail, empty_envelope_msg(), st);
    lemma_fold_append(head, list, empty_envelope_msg(), st);
    let h = lemma_fold_envelope_head(m);
    lemma_fold_entry_list(m.access_entries, h);
    let l = EnvelopeMsg { access_entries: h.access_entries + m.access_entries, ..h };
    assert(l.access_entries =~= m.access_entries);
    lemma_fold_envelope_tail(m, l);
}

proof fn lemma_fold_envelope_head(m: EnvelopeMsg) -> (h: EnvelopeMsg)
    ensures
        fold_fields(envelope_head_fields(m), empty_envelope_msg(), envelope_stepper()) == Some(h),
        h.version == m.version,
        h.algorithm == m.algorithm,
        h.scope == m.scope,
        h.ephemeral_x25519_public == m.ephemeral_x25519_public,
        h.ephemeral_mlkem_ciphertext == m.ephemeral_mlkem_ciphertext,
        h == (EnvelopeMsg {
            version: m.version,
            algorithm: m.algorithm,
            scope: m.scope,
            ephemeral_x25519_public: m.ephemeral_x25519_public,
            ephemeral_mlkem_ciphertext: m.ephemeral_mlkem_ciphertext,
            ..empty_envelope_msg()
        }),
{
    let st = envelope_stepper();
    let e0 = empty_envelope_msg();
    let p1 = field_if(m.version != 0, varint_field(1, m.version as u64));
    let p2 = field_if(m.algorithm != 0, varint_field(2, m.algorithm as u64));
    let p3 = string_field_if(3, m.scope);
    let p4 = field_if(m.ephemeral_x25519_public.len() > 0, len_field(4, m.ephemeral_x25519_public));
    let p5 = field_if(
        m.ephemeral_mlkem_ciphertext.len() > 0,
        len_field(5, m.ephemeral_mlkem_ciphertext),
    );
    lemma_fold_append(p1 + p2 + p3 + p4, p5, e0, st);
    lemma_fold_append(p1 + p2 + p3, p4, e0, st);
    lemma_fold_append(p1 + p2, p3, e0, st);
    lemma_fold_append(p1, p2, e0, st);
    lemma_u32_varint(m.version);
    lemma_i32_varint(m.algorithm);
    lemma_string_value(3, m.scope);
    lemma_fold_field_if(m.version != 0, varint_field(1, m.version as u64), e0, st);
    let a1 = EnvelopeMsg { version: m.version, ..e0 };
    lemma_fold_field_if(m.algorithm != 0, varint_field(2, m.algorithm as u64), a1, st);
    let a2 = EnvelopeMsg { algorithm: m.algorithm, ..a1 };
    lemma_fold_field_if(m.scope.len() > 0, len_field(3, encode_utf8(m.scope)), a2, st);
    assert(m.scope.len() == 0 ==> m.scope =~= e0.scope);
    let a3 = EnvelopeMsg { scope: m.scope, ..a2 };
    lemma_fold_field_if(
        m.ephemeral_x25519_public.len() > 0,
        len_field(4, m.ephemeral_x25519_public),
        a3,
        st,
    );
    assert(m.ephemeral_x25519_public.len() == 0 ==> m.ephemeral_x25519_public
        =~= e0.ephemeral_x25519_public);
    let a4 = EnvelopeMsg { ephemeral_x25519_public: m.ephemeral_x25519_public, ..a3 };
    lemma_fold_field_if(
        m.ephemeral_mlkem_ciphertext.len() > 0,
        len_field(5, m.ephemeral_mlkem_ciphertext),
        a4,
        st,
    );
    assert(m.ephemeral_mlkem_ciphertext.len() == 0 ==> m.ephemeral_mlkem_ciphertext
        =~= e0.ephemeral_mlkem_ciphertext);
    EnvelopeMsg { ephemeral_mlkem_ciphertext: m.ephemeral_mlkem_ciphertext, ..a4 }
}

proof fn lemma_fold_envelope_tail(m: EnvelopeMsg, l: EnvelopeMsg)
    requires
        l == (EnvelopeMsg {
            version: m.version,
            algorithm: m.algorithm,
            scope: m.scope,
            ephemeral_x25519_public: m.ephemeral_x25519_public,
            ephemeral_mlkem_ciphertext: m.ephemeral_mlkem_ciphertext,
            access_entries: m.access_entries,
            ..empty_envelope_msg()
        }),
    ensures
        fold_fields(envelope_tail_fields(m), l, envelope_stepper()) == Some(m),
{
    let st = envelope_stepper();
    let e0 = empty_envelope_msg();
    let t1 = field_if(m.nonce.len() > 0, len_field(7, m.nonce));
    let t2 = field_if(m.ciphertext.len() > 0, len_field(8, m.ciphertext));
    let t3 = field_if(m.tag.len() > 0, len_field(9, m.tag));
    let t4 = field_if(m.spend_public_key.len() > 0, len_field(10, m.spend_public_key));
    let t5 = field_if(m.signature.len() > 0, len_field(11, m.signature));
    let t6 = field_if(m.access_mode != 0, varint_field(12, m.access_mode as u64));
    lemma_fold_append(t1 + t2 + t3 + t4 + t5, t6, l, st);
    lemma_fold_append(t1 + t2 + t3 + t4, t5, l, st);
    lemma_fold_append(t1 + t2 + t3, t4, l, st);
    lemma_fold_append(t1 + t2, t3, l, st);
    lemma_fold_append(t1, t2, l, st);
    lemma_i32_varint(m.access_mode);
    lemma_fold_field_if(m.nonce.len() > 0, len_field(7, m.nonce), l, st);
    assert(m.nonce.len() == 0 ==> m.nonce =~= e0.nonce);
    let b1 = EnvelopeMsg { nonce: m.nonce, ..l };
    lemma_fold_field_if(m.ciphertext.len() > 0, len_field(8, m.ciphertext), b1, st);
    assert(m.ciphertext.len() == 0 ==> m.ciphertext =~= e0.ciphertext);
    let b2 = EnvelopeMsg { ciphertext: m.ciphertext, ..b1 };
    lemma_fold_field_if(m.tag.len() > 0, len_field(9, m.tag), b2, st);
    assert(m.tag.len() == 0 ==> m.tag =~= e0.tag);
    let b3 = EnvelopeMsg { tag: m.tag, ..b2 };
    lemma_fold_field_if(m.spend_public_key.len() > 0, len_field(10, m.spend_public_key), b3, st);
    assert(m.spend_public_key.len() == 0 ==> m.spend_public_key =~= e0.spend_public_key);
    let b4 = EnvelopeMsg { spend_public_key: m.spend_public_key, ..b3 };
    lemma_fold_field_if(m.signature.len() > 0, len_field(11, m.signature), b4, st);
    assert(m.signature.len() == 0 ==> m.signature =~= e0.signature);
    let b5 = EnvelopeMsg { signature: m.signature, ..b4 };
    lemma_fold_field_if(m.access_mode != 0, varint_field(12, m.access_mode as u64), b5, st);
}

/// A 32-bit integer widened to 64 bits is zero exactly when it was.
proof fn lemma_widen_zero(x: i32)
    ensures
        ((x as u64) == 0) == (x == 0),
{
    assert(((x as u64) == 0) == (x == 0)) by (bit_vector);
}

/// Six fields pushed one after another.
proof fn lemma_concat6(
    b0: Seq<u8>,
    b1: Seq<u8>,
    b2: Seq<u8>,
    b3: Seq<u8>,
    b4: Seq<u8>,
    b5: Seq<u8>,
    b6: Seq<u8>,
    t1: Seq<WireFieldView>,
    t2: Seq<WireFieldView>,
    t3: Seq<WireFieldView>,
    t4: Seq<WireFieldView>,
    t5: Seq<WireFieldView>,
    t6: Seq<WireFieldView>,
)
    requires
        b1 == b0 + fields_bytes(t1),
        b2 == b1 + fields_bytes(t2),
        b3 == b2 + fields_bytes(t3),
        b4 == b3 + fields_bytes(t4),
        b5 == b4 + fields_bytes(t5),
        b6 == b5 + fields_bytes(t6),
    ensures
        b6 == b0 + fields_bytes(t1 + t2 + t3 + t4 + t5 + t6),
{
    lemma_fields_bytes_append(t1, t2);
    lemma_fields_bytes_append(t1 + t2, t3);
    lemma_fields_bytes_append(t1 + t2 + t3, t4);
    lemma_fields_bytes_append(t1 + t2 + t3 + t4, t5);
    lemma_fields_bytes_append(t1 + t2 + t3 + t4 + t5, t6);
    assert(b2 =~= b0 + fields_bytes(t1 + t2));
    assert(b3 =~= b0 + fields_bytes(t1 + t2 + t3));
    assert(b4 =~= b0 + fields_bytes(t1 + t2 + t3 + t4));
    assert(b5 =~= b0 + fields_bytes(t1 + t2 + t3 + t4 + t5));
    assert(b6 =~= b0 + fields_bytes(t1 + t2 + t3 + t4 + t5 + t6));
}

impl Default for AccessEntry {
    fn default() -> (r: AccessEntry)
        ensures
            r@ == empty_entry_msg(),
    {
        let r = AccessEntry {
            read_key_id: Vec::new(),
            wrapped_data_key: Vec::new(),
            wrap_nonce: Vec::new(),
        };
        assert(r@ =~= empty_entry_msg());
        r
    }
}

impl Default for EncryptedEnvelope {
    fn default() -> (r: EncryptedEnvelope)
        ensures
            r@ == empty_envelope_msg(),
    {
        let r = EncryptedEnvelope {
            version: 0,
            algorithm: 0,
            scope: String::new(),
            ephemeral_x25519_public: Vec::new(),
            ephemeral_mlkem_ciphertext: Vec::new(),
            access_entries: Vec::new(),
            nonce: Vec::new(),
            ciphertext: Vec::new(),
            tag: Vec::new(),
            spend_public_key: Vec::new(),
            signature: Vec::new(),
            access_mode: 0,
        };
        assert(r@.access_entries =~= Seq::<EntryMsg>::empty());
        assert(r@ =~= empty_envelope_msg());
        r
    }
}

fn push_entry_list(buf: &mut Vec<u8>, entries: &Vec<AccessEntry>)
    ensures
        final(buf)@ == old(buf)@ + fields_bytes(entry_list_fields(entry_msg_views(entries@))),
{
    let mut i: usize = 0;
    assert(entry_msg_views(entries@.subrange(0, 0)) =~= Seq::<EntryMsg>::empty());
    assert(fields_bytes(Seq::<WireFieldView>::empty()) =~= Seq::<u8>::empty());
    assert(buf@ =~= old(buf)@ + Seq::<u8>::empty());
    while i < entries.len()
        invariant
            i <= entries@.len(),
            buf@ == old(buf)@ + fields_bytes(
                entry_list_fields(entry_msg_views(entries@.subrange(0, i as int))),
            ),
        decreases entries@.len() - i,
    {
        let ghost before = entry_msg_views(entries@.subrange(0, i as int));
        let eb = entries[i].encode_to_vec();
        push_len_field(buf, 6, eb.as_slice());
        i = i + 1;
        proof {
            let after = entry_msg_views(entries@.subrange(0, i as int));
            assert(after.drop_last() =~= before);
            assert(after.last() == entries@[i - 1]@);
            let f = len_field(6, entry_msg_bytes(entries@[i - 1]@));
            lemma_fields_bytes_append(entry_list_fields(before), seq![f]);
            lemma_fields_bytes_field_if(true, f);
            assert(buf@ =~= old(buf)@ + fields_bytes(entry_list_fields(after)));
        }
    }
    assert(entries@.subrange(0, entries@.len() as int) =~= entries@);
}

impl EncryptedEnvelope {
    fn push_head(&self, buf: &mut Vec<u8>)
        ensures
            final(buf)@ == old(buf)@ + fields_bytes(envelope_head_fields(self@)),
    {
        let ghost m = self@;
        let ghost p1 = field_if(m.version != 0, varint_field(1, m.version as u64));
        let ghost p2 = field_if(m.algorithm != 0, varint_field(2, m.algorithm as u64));
        let ghost p3 = string_field_if(3, m.scope);
        let ghost p4 = field_if(
            m.ephemeral_x25519_public.len() > 0,
            len_field(4, m.ephemeral_x25519_public),
        );
        let ghost p5 = field_if(
            m.ephemeral_mlkem_ciphertext.len() > 0,
            len_field(5, m.ephemeral_mlkem_ciphertext),
        );
        let ghost b0 = buf@;
        push_nonzero_varint_field(buf, 1, self.version as u64);
        let ghost b1 = buf@;
        proof {
            lemma_widen_zero(self.algorithm);
        }
        push_nonzero_varint_field(buf, 2, self.algorithm as u64);
        let ghost b2 = buf@;
        push_string_field(buf, 3, self.scope.as_str());
        let ghost b3 = buf@;
        push_bytes_field(buf, 4, self.ephemeral_x25519_public.as_slice());
        let ghost b4 = buf@;
        push_bytes_field(buf, 5, self.ephemeral_mlkem_ciphertext.as_slice());
        proof {
            lemma_concat6(b0, b1, b2, b3, b4, b4, buf@, p1, p2, p3, p4, Seq::empty(), p5);
            assert(p1 + p2 + p3 + p4 + Seq::<WireFieldView>::empty() =~= p1 + p2 + p3 + p4);
        }
    }

    fn push_tail(&self, buf: &mut Vec<u8>)
        ensures
            final(buf)@ == old(buf)@ + fields_bytes(envelope_tail_fields(self@)),
    {
        let ghost m = self@;
        let ghost t1 = field_if(m.nonce.len() > 0, len_field(7, m.nonce));
        let ghost t2 = field_if(m.ciphertext.len() > 0, len_field(8, m.ciphertext));
        let ghost t3 = field_if(m.tag.len() > 0, len_field(9, m.tag));
        let ghost t4 = field_if(m.spend_public_key.len() > 0, len_field(10, m.spend_public_key));
        let ghost t5 = field_if(m.signature.len() > 0, len_field(11, m.signature));
        let ghost t6 = field_if(m.access_mode != 0, varint_field(12, m.access_mode as u64));
        let ghost b0 = buf@;
        push_bytes_field(buf, 7, self.nonce.as_slice());
        let ghost b1 = buf@;
        push_bytes_field(buf, 8, self.ciphertext.as_slice());
        let ghost b2 = buf@;
        push_bytes_field(buf, 9, self.tag.as_slice());
        let ghost b3 = buf@;
        push_bytes_field(buf, 10, self.spend_public_key.as_slice());
        let ghost b4 = buf@;
        push_bytes_field(buf, 11, self.signature.as_slice());
        let ghost b5 = buf@;
        proof {
            lemma_widen_zero(self.access_mode);
        }
        push_nonzero_varint_field(buf, 12, self.access_mode as u64);
        proof {
            lemma_concat6(b0, b1, b2, b3, b4, b5, buf@, t1, t2, t3, t4, t5, t6);
        }
    }

    /// Appends the encoding of the message.
    pub fn encode_into(&self, buf: &mut Vec<u8>)
        ensures
            final(buf)@ == old(buf)@ + envelope_msg_bytes(self@),
    {
        let ghost m = self@;
        self.push_head(buf);
        push_entry_list(buf, &self.access_entries);
        self.push_tail(buf);
        proof {
            lemma_fields_bytes_append(
                envelope_head_fields(m),
                entry_list_fields(m.access_entries),
            );
            lemma_fields_bytes_append(
                envelope_head_fields(m) + entry_list_fields(m.access_entries),
                envelope_tail_fields(m),
            );
            assert(buf@ =~= old(buf)@ + envelope_msg_bytes(m));
        }
    }

    /// The encoding of the message.
    pub fn encode_to_vec(&self) -> (r: Vec<u8>)
        ensures
            r@ == envelope_msg_bytes(self@),
    {
        let mut buf: Vec<u8> = Vec::new();
        self.encode_into(&mut buf);
        assert(buf@ =~= envelope_msg_bytes(self@));
        buf
    }

    fn apply(&mut self, f: &WireField) -> (ok: bool)
        ensures
            ok == envelope_step(old(self)@, f@) is Some,
            ok ==> final(self)@ == envelope_step(old(self)@, f@)->Some_0,
    {
        let ghost before = self@;
        if f.tag == 1 {
            match varint_of(f) {
                Some(v) => {
                    self.version = v as u32;
                    true
                },
                None => false,
            }
        } else if f.tag == 2 {
            match varint_of(f) {
                Some(v) => {
                    self.algorithm = v as i32;
                    true
                },
                None => false,
            }
        } else if f.tag == 3 {
            match string_of(f) {
                Some(s) => {
                    self.scope = s;
                    true
                },
                None => false,
            }
        } else if f.tag == 4 {
            match bytes_of(f) {
                Some(b) => {
                    self.ephemeral_x25519_public = b;
                    true
                },
                None => false,
            }
        } else if f.tag == 5 {
            match bytes_of(f) {
                Some(b) => {
                    self.ephemeral_mlkem_ciphertext = b;
                    true
                },
                None => false,
            }
        } else if f.tag == 6 {
            match bytes_of(f) {
                Some(b) => match AccessEntry::decode(b.as_slice()) {
                    Some(e) => {
                        let ghost old_entries = self.access_entries@;
                        self.access_entries.push(e);
                        assert(entry_msg_views(self.access_entries@) =~= entry_msg_views(
                            old_entries,
                        ).push(e@));
                        true
                    },
                    None => false,
                },
                None => false,
            }
        } else if f.tag == 7 {
            match bytes_of(f) {
                Some(b) => {
                    self.nonce = b;
                    true
                },
                None => false,
            }
        } else if f.tag == 8 {
            match bytes_of(f) {
                Some(b) => {
                    self.ciphertext = b;
                    true
                },
                None => false,
            }
        } else if f.tag == 9 {
            match bytes_of(f) {
                Some(b) => {
                    self.tag = b;
                    true
                },
                None => false,
            }
        } else if f.tag == 10 {
            match bytes_of(f) {
                Some(b) => {
                    self.spend_public_key = b;
                    true
                },
                None => false,
            }
        } else if f.tag == 11 {
            match bytes_of(f) {
                Some(b) => {
                    self.signature = b;
                    true
                },
                None => false,
            }
        } else if f.tag == 12 {
            match varint_of(f) {
                Some(v) => {
                    self.access_mode = v as i32;
                    true
                },
                None => false,
            }
        } else {
            true
        }
    }

    /// Decodes bytes onto a starting message, as a later occurrence of an embedded message
    /// merges into an earlier one; `None` where the bytes are no such message.
    pub fn decode_onto(data: &[u8], start: EncryptedEnvelope) -> (r: Option<EncryptedEnvelope>)
        ensures
            match decode_envelope_msg_onto(data@, start@) {
                Some(e) => r matches Some(v) && v@ == e,
                None => r is None,
            },
    {
        let fields = match read_fields_exec(data) {
            None => return None,
            Some(fs) => fs,
        };
        let ghost fs = field_views(fields@);
        let mut acc = start;
        assert(fs.skip(0) =~= fs);
        let mut i: usize = 0;
        while i < fields.len()
            invariant
                i <= fields@.len(),
                fs == field_views(fields@),
                read_fields(data@, 0) == Some(fs),
                fold_fields(fs, start@, envelope_stepper()) == fold_fields(
                    fs.skip(i as int),
                    acc@,
                    envelope_stepper(),
                ),
            decreases fields@.len() - i,
        {
            let ghost before = acc@;
            assert(fs.skip(i as int)[0] == fields@[i as int]@);
            assert(fs.skip(i as int).drop_first() =~= fs.skip(i + 1));
            assert(envelope_stepper()(before, fields@[i as int]@) == envelope_step(
                before,
                fields@[i as int]@,
            ));
            if !acc.apply(&fields[i]) {
                assert(fold_fields(fs.skip(i as int), before, envelope_stepper()) is None);
                return None;
            }
            i = i + 1;
        }
        assert(fs.skip(i as int) =~= Seq::<WireFieldView>::empty());
        Some(acc)
    }

    /// Decodes the message from bytes; `None` where they are no such message.
    pub fn decode(data: &[u8]) -> (r: Option<EncryptedEnvelope>)
        ensures
            match decode_envelope_msg(data@) {
                Some(e) => r matches Some(v) && v@ == e,
                None => r is None,
            },
    {
        EncryptedEnvelope::decode_onto(data, EncryptedEnvelope::default())
    }
}

// ---------------------------------------------------------------------------
// SectionedSection and SectionedEnvelope
// ---------------------------------------------------------------------------

/// A section on the wire: name (1), envelope (2).
#[derive(Debug, Clone)]
pub struct SectionedSection {
    pub name: String,
    pub envelope: Option<EncryptedEnvelope>,
}

/// The mathematical content of a section message.
pub struct SectionMsg {
    pub name: Seq<char>,
    pub envelope: Option<EnvelopeMsg>,
}

impl View for SectionedSection {
    type V = SectionMsg;

    open spec fn view(&self) -> SectionMsg {
        SectionMsg {
            name: self.name@,
            envelope: match self.envelope {
                Some(e) => Some(e@),
                None => None,
            },
        }
    }
}

/// The views of a sequence of section messages.
pub open spec fn section_msg_views(v: Seq<SectionedSection>) -> Seq<SectionMsg> {
    v.map_values(|s: SectionedSection| s@)
}

/// The fields that encode a section.
pub open spec fn section_fields(s: SectionMsg) -> Seq<WireFieldView> {
    string_field_if(1, s.name) + match s.envelope {
        Some(e) => seq![len_field(2, envelope_msg_bytes(e))],
        None => seq![],
    }
}

/// The encoding of a section.
pub open spec fn section_msg_bytes(s: SectionMsg) -> Seq<u8> {
    fields_bytes(section_fields(s))
}

/// What one field does to a section being decoded: a second envelope field merges into
/// the first.
pub open spec fn section_step(acc: SectionMsg, f: WireFieldView) -> Option<SectionMsg> {
    if f.tag == 1 {
        match string_value(f) {
            Some(n) => Some(SectionMsg { name: n, ..acc }),
            None => None,
        }
    } else if f.tag == 2 {
        match bytes_value(f) {
            Some(b) => match decode_envelope_msg_onto(
                b,
                match acc.envelope {
                    Some(e) => e,
                    None => empty_envelope_msg(),
                },
            ) {
                Some(e) => Some(SectionMsg { envelope: Some(e), ..acc }),
                None => None,
            },
            None => None,
        }
    } else {
        Some(acc)
    }
}

/// `section_step` as a function value.
pub open spec fn section_stepper() -> spec_fn(SectionMsg, WireFieldView) -> Option<SectionMsg> {
    |a: SectionMsg, f: WireFieldView| section_step(a, f)
}

/// The section message with every field at its default.
pub open spec fn empty_section_msg() -> SectionMsg {
    SectionMsg { name: seq![], envelope: None }
}

/// What decoding reads from bytes: a section message, or nothing.
pub open spec fn decode_section_msg(d: Seq<u8>) -> Option<SectionMsg> {
    match read_fields(d, 0) {
        None => None,
        Some(fs) => fold_fields(fs, empty_section_msg(), section_stepper()),
    }
}

/// A sectioned envelope on the wire: version (1), sections (2).
#[derive(Debug, Clone)]
pub struct SectionedEnvelope {
    pub version: u32,
    pub sections: Vec<SectionedSection>,
}

/// The mathematical content of a sectioned envelope message.
pub struct SectionedMsg {
    pub version: u32,
    pub sections: Seq<SectionMsg>,
}

impl View for SectionedEnvelope {
    type V = SectionedMsg;

    open spec fn view(&self) -> SectionedMsg {
        SectionedMsg { version: self.version, sections: section_msg_views(self.sections@) }
    }
}

/// One field per section, in order.
pub open spec fn section_list_fields(ss: Seq<SectionMsg>) -> Seq<WireFieldView>
    decreases ss.len(),
{
    if ss.len() == 0 {
        seq![]
    } else {
        section_list_fields(ss.drop_last()) + seq![len_field(2, section_msg_bytes(ss.last()))]
    }
}

/// The fields that encode a sectioned envelope.
pub open spec fn sectioned_fields(m: SectionedMsg) -> Seq<WireFieldView> {
    field_if(m.version != 0, varint_field(1, m.version as u64)) + section_list_fields(m.sections)
}

/// The encoding of a sectioned envelope.
pub open spec fn sectioned_msg_bytes(m: SectionedMsg) -> Seq<u8> {
    fields_bytes(sectioned_fields(m))
}

/// What one field does to a sectioned envelope being decoded.
pub open spec fn sectioned_step(acc: SectionedMsg, f: WireFieldView) -> Option<SectionedMsg> {
    if f.tag == 1 {
        match varint_value(f) {
            Some(v) => Some(SectionedMsg { version: v as u32, ..acc }),
            None => None,
        }
    } else if f.tag == 2 {
        match bytes_value(f) {
            Some(b) => match decode_section_msg(b) {
                Some(s) => Some(SectionedMsg { sections: acc.sections.push(s), ..acc }),
                None => None,
            },
            None => None,
        }
    } else {
        Some(acc)
    }
}

/// `sectioned_step` as a function value.
pub open spec fn sectioned_stepper() -> spec_fn(SectionedMsg, WireFieldView) -> Option<
    SectionedMsg,
> {
    |a: SectionedMsg, f: WireFieldView| sectioned_step(a, f)
}

/// The sectioned envelope message with every field at its default.
pub open spec fn empty_sectioned_msg() -> SectionedMsg {
    SectionedMsg { version: 0, sections: seq![] }
}

/// What decoding reads from bytes: a sectioned envelope message, or nothing.
pub open spec fn decode_sectioned_msg(d: Seq<u8>) -> Option<SectionedMsg> {
    match read_fields(d, 0) {
        None => None,
        Some(fs) => fold_fields(fs, empty_sectioned_msg(), sectioned_stepper()),
    }
}

proof fn lemma_fold_one<A>(f: WireFieldView, acc: A, step: spec_fn(A, WireFieldView) -> Option<A>)
    ensures
        fold_fields(seq![f], acc, step) == step(acc, f),
{
    lemma_fold_field_if(true, f, acc, step);
}

/// Decoding an encoded section gives it back.
pub proof fn lemma_section_msg_roundtrip(s: SectionMsg)
    requires
        section_msg_bytes(s).len() <= u64::MAX,
    ensures
        decode_section_msg(section_msg_bytes(s)) == Some(s),
{
    let a = string_field_if(1, s.name);
    let b: Seq<WireFieldView> = match s.envelope {
        Some(e) => seq![len_field(2, envelope_msg_bytes(e))],
        None => seq![],
    };
    let fs = section_fields(s);
    lemma_tags_valid_append(a, b);
    lemma_fields_encodable(fs);
    lemma_fields_roundtrip(Seq::<u8>::empty(), fs);
    assert(Seq::<u8>::empty() + fields_bytes(fs) =~= fields_bytes(fs));
    let st = section_stepper();
    let e0 = empty_section_msg();
    lemma_fold_append(a, b, e0, st);
    lemma_string_value(1, s.name);
    lemma_fold_field_if(s.name.len() > 0, len_field(1, encode_utf8(s.name)), e0, st);
    assert(s.name.len() == 0 ==> s.name =~= e0.name);
    let a1 = SectionMsg { name: s.name, ..e0 };
    match s.envelope {
        Some(e) => {
            lemma_fields_encodable_split(a, b);
            assert(crate::proto::wire::field_encodable(b[0]));
            lemma_fold_one(len_field(2, envelope_msg_bytes(e)), a1, st);
            lemma_envelope_msg_roundtrip(e);
        },
        None => {
            assert(fold_fields(b, a1, st) == Some(a1));
        },
    }
}

proof fn lemma_section_list_tags(ss: Seq<SectionMsg>)
    ensures
        tags_valid(section_list_fields(ss)),
    decreases ss.len(),
{
    if ss.len() > 0 {
        lemma_section_list_tags(ss.drop_last());
        lemma_tags_valid_append(
            section_list_fields(ss.drop_last()),
            seq![len_field(2, section_msg_bytes(ss.last()))],
        );
    }
}

proof fn lemma_fold_section_list(ss: Seq<SectionMsg>, acc: SectionedMsg)
    requires
        fields_encodable(section_list_fields(ss)),
    ensures
        fold_fields(section_list_fields(ss), acc, sectioned_stepper()) == Some(
            SectionedMsg { sections: acc.sections + ss, ..acc },
        ),
    decreases ss.len(),
{
    let st = sectioned_stepper();
    if ss.len() == 0 {
        assert(acc.sections + ss =~= acc.sections);
    } else {
        let init = ss.drop_last();
        let f = len_field(2, section_msg_bytes(ss.last()));
        lemma_fields_encodable_split(section_list_fields(init), seq![f]);
        assert(crate::proto::wire::field_encodable(seq![f][0]));
        lemma_fold_section_list(init, acc);
        lemma_fold_append(section_list_fields(init), seq![f], acc, st);
        let mid = SectionedMsg { sections: acc.sections + init, ..acc };
        lemma_fold_one(f, mid, st);
        lemma_section_msg_roundtrip(ss.last());
        assert((acc.sections + init).push(ss.last()) =~= acc.sections + ss);
    }
}

/// Decoding an encoded sectioned envelope gives it back.
pub proof fn lemma_sectioned_msg_roundtrip(m: SectionedMsg)
    requires
        sectioned_msg_bytes(m).len() <= u64::MAX,
    ensures
        decode_sectioned_msg(sectioned_msg_bytes(m)) == Some(m),
{
    let a = field_if(m.version != 0, varint_field(1, m.version as u64));
    let b = section_list_fields(m.sections);
    let fs = sectioned_fields(m);
    lemma_section_list_tags(m.sections);
    lemma_tags_valid_append(a, b);
    lemma_fields_encodable(fs);
    lemma_fields_encodable_split(a, b);
    lemma_fields_roundtrip(Seq::<u8>::empty(), fs);
    assert(Seq::<u8>::empty() + fields_bytes(fs) =~= fields_bytes(fs));
    let st = sectioned_stepper();
    let e0 = empty_sectioned_msg();
    lemma_fold_append(a, b, e0, st);
    lemma_u32_varint(m.version);
    lemma_fold_field_if(m.version != 0, varint_field(1, m.version as u64), e0, st);
    let a1 = SectionedMsg { version: m.version, ..e0 };
    lemma_fold_section_list(m.sections, a1);
    assert(a1.sections + m.sections =~= m.sections);
}

impl Default for SectionedEnvelope {
    fn default() -> (r: SectionedEnvelope)
        ensures
            r@ == empty_sectioned_msg(),
    {
        let r = SectionedEnvelope { version: 0, sections: Vec::new() };
        assert(r@.sections =~= Seq::<SectionMsg>::empty());
        assert(r@ =~= empty_sectioned_msg());
        r
    }
}

impl SectionedSection {
    /// Appends the encoding of the message.
    pub fn encode_into(&self, buf: &mut Vec<u8>)
        ensures
            final(buf)@ == old(buf)@ + section_msg_bytes(self@),
    {
        let ghost s = self@;
        let ghost a = string_field_if(1, s.name);
        let ghost b0 = buf@;
        push_string_field(buf, 1, self.name.as_str());
        let ghost b1 = buf@;
        match &self.envelope {
            Some(e) => {
                let eb = e.encode_to_vec();
                push_len_field(buf, 2, eb.as_slice());
                proof {
                    lemma_fields_bytes_field_if(true, len_field(2, eb@));
                    lemma_fields_bytes_append(a, seq![len_field(2, eb@)]);
                }
            },
            None => {
                proof {
                    lemma_fields_bytes_append(a, Seq::<WireFieldView>::empty());
                    assert(a + Seq::<WireFieldView>::empty() =~= a);
                    assert(fields_bytes(Seq::<WireFieldView>::empty()) =~= Seq::<u8>::empty());
                }
            },
        }
        assert(buf@ =~= old(buf)@ + section_msg_bytes(s));
    }

    /// The encoding of the message.
    pub fn encode_to_vec(&self) -> (r: Vec<u8>)
        ensures
            r@ == section_msg_bytes(self@),
    {
        let mut buf: Vec<u8> = Vec::new();
        self.encode_into(&mut buf);
        assert(buf@ =~= section_msg_bytes(self@));
        buf
    }

    fn apply(&mut self, f: &WireField) -> (ok: bool)
        ensures
            ok == section_step(old(self)@, f@) is Some,
            ok ==> final(self)@ == section_step(old(self)@, f@)->Some_0,
    {
        if f.tag == 1 {
            match string_of(f) {
                Some(n) => {
                    self.name = n;
                    true
                },
                None => false,
            }
        } else if f.tag == 2 {
            match bytes_of(f) {
                Some(b) => {
                    let start = match self.envelope.take() {
                        Some(e) => e,
                        None => EncryptedEnvelope::default(),
                    };
                    match EncryptedEnvelope::decode_onto(b.as_slice(), start) {
                        Some(e) => {
                            self.envelope = Some(e);
                            true
                        },
                        None => false,
                    }
                },
                None => false,
            }
        } else {
            true
        }
    }

    /// Decodes the message from bytes; `None` where they are no such message.
    pub fn decode(data: &[u8]) -> (r: Option<SectionedSection>)
        ensures
            match decode_section_msg(data@) {
                Some(s) => r matches Some(v) && v@ == s,
                None => r is None,
            },
    {
        let fields = match read_fields_exec(data) {
            None => return None,
            Some(fs) => fs,
        };
        let ghost fs = field_views(fields@);
        let mut acc = SectionedSection { name: String::new(), envelope: None };
        assert(acc@ =~= empty_section_msg());
        assert(fs.skip(0) =~= fs);
        let mut i: usize = 0;
        while i < fields.len()
            invariant
                i <= fields@.len(),
                fs == field_views(fields@),
                read_fields(data@, 0) == Some(fs),
                fold_fields(fs, empty_section_msg(), section_stepper()) == fold_fields(
                    fs.skip(i as int),
                    acc@,
                    section_stepper(),
                ),
            decreases fields@.len() - i,
        {
            let ghost before = acc@;
            assert(fs.skip(i as int)[0] == fields@[i as int]@);
            assert(fs.skip(i as int).drop_first() =~= fs.skip(i + 1));
            assert(section_stepper()(before, fields@[i as int]@) == section_step(
                before,
                fields@[i as int]@,
            ));
            if !acc.apply(&fields[i]) {
                assert(fold_fields(fs.skip(i as int), before, section_stepper()) is None);
                return None;
            }
            i = i + 1;
        }
        assert(fs.skip(i as int) =~= Seq::<WireFieldView>::empty());
        Some(acc)
    }
}

impl SectionedEnvelope {
    /// The encoding of the message.
    pub fn encode_to_vec(&self) -> (r: Vec<u8>)
        ensures
            r@ == sectioned_msg_bytes(self@),
    {
        let ghost m = self@;
        let ghost a = field_if(m.version != 0, varint_field(1, m.version as u64));
        let mut buf: Vec<u8> = Vec::new();
        push_nonzero_varint_field(&mut buf, 1, self.version as u64);
        let ghost head = buf@;
        let mut i: usize = 0;
        assert(section_msg_views(self.sections@.subrange(0, 0)) =~= Seq::<SectionMsg>::empty());
        assert(fields_bytes(Seq::<WireFieldView>::empty()) =~= Seq::<u8>::empty());
        assert(buf@ =~= head + Seq::<u8>::empty());
        while i < self.sections.len()
            invariant
                i <= self.sections@.len(),
                buf@ == head + fields_bytes(
                    section_list_fields(section_msg_views(self.sections@.subrange(0, i as int))),
                ),
            decreases self.sections@.len() - i,
        {
            let ghost before = section_msg_views(self.sections@.subrange(0, i as int));
            let sb = self.sections[i].encode_to_vec();
            push_len_field(&mut buf, 2, sb.as_slice());
            i = i + 1;
            proof {
                let after = section_msg_views(self.sections@.subrange(0, i as int));
                assert(after.drop_last() =~= before);
                assert(after.last() == self.sections@[i - 1]@);
                let f = len_field(2, section_msg_bytes(self.sections@[i - 1]@));
                lemma_fields_bytes_append(section_list_fields(before), seq![f]);
                lemma_fields_bytes_field_if(true, f);
                assert(buf@ =~= head + fields_bytes(section_list_fields(after)));
            }
        }
        proof {
            assert(self.sections@.subrange(0, self.sections@.len() as int) =~= self.sections@);
            lemma_fields_bytes_append(a, section_list_fields(m.sections));
            assert(buf@ =~= sectioned_msg_bytes(m));
        }
        buf
    }

    fn apply(&mut self, f: &WireField) -> (ok: bool)
        ensures
            ok == sectioned_step(old(self)@, f@) is Some,
            ok ==> final(self)@ == sectioned_step(old(self)@, f@)->Some_0,
    {
        if f.tag == 1 {
            match varint_of(f) {
                Some(v) => {
                    self.version = v as u32;
                    true
                },
                None => false,
            }
        } else if f.tag == 2 {
            match bytes_of(f) {
                Some(b) => match SectionedSection::decode(b.as_slice()) {
                    Some(s) => {
                        let ghost old_sections = self.sections@;
                        self.sections.push(s);
                        assert(section_msg_views(self.sections@) =~= section_msg_views(
                            old_sections,
                        ).push(s@));
                        true
                    },
                    None => false,
                },
                None => false,
            }
        } else {
            true
        }
    }

    /// Decodes the message from bytes; `None` where they are no such message.
    pub fn decode(data: &[u8]) -> (r: Option<SectionedEnvelope>)
        ensures
            match decode_sectioned_msg(data@) {
                Some(m) => r matches Some(v) && v@ == m,
                None => r is None,
            },
    {
        let fields = match read_fields_exec(data) {
            None => return None,
            Some(fs) => fs,
        };
        let ghost fs = field_views(fields@);
        let mut acc = SectionedEnvelope::default();
        assert(fs.skip(0) =~= fs);
        let mut i: usize = 0;
        while i < fields.len()
            invariant
                i <= fields@.len(),
                fs == field_views(fields@),
                read_fields(data@, 0) == Some(fs),
                fold_fields(fs, empty_sectioned_msg(), sectioned_stepper()) == fold_fields(
                    fs.skip(i as int),
                    acc@,
                    sectioned_stepper(),
                ),
            decreases fields@.len() - i,
        {
            let ghost before = acc@;
            assert(fs.skip(i as int)[0] == fields@[i as int]@);
            assert(fs.skip(i as int).drop_first() =~= fs.skip(i + 1));
            assert(sectioned_stepper()(before, fields@[i as int]@) == sectioned_step(
                before,
                fields@[i as int]@,
            ));
            if !acc.apply(&fields[i]) {
                assert(fold_fields(fs.skip(i as int), before, sectioned_stepper()) is None);
                return None;
            }
            i = i + 1;
        }
        assert(fs.skip(i as int) =~= Seq::<WireFieldView>::empty());
        Some(acc)
    }
}

// ---------------------------------------------------------------------------
// Repeated length-delimited fields
// ---------------------------------------------------------------------------

/// One length-delimited field per payload, in order, all with the same number.
pub open spec fn len_list_fields(tag: u32, bs: Seq<Seq<u8>>) -> Seq<WireFieldView>
    decreases bs.len(),
{
    if bs.len() == 0 {
        seq![]
    } else {
        len_list_fields(tag, bs.drop_last()) + seq![len_field(tag, bs.last())]
    }
}

/// The contents of a sequence of byte vectors.
pub open spec fn byte_vec_views(v: Seq<Vec<u8>>) -> Seq<Seq<u8>> {
    v.map_values(|b: Vec<u8>| b@)
}

proof fn lemma_len_list_tags(tag: u32, bs: Seq<Seq<u8>>)
    requires
        1 <= tag < 0x2000_0000,
    ensures
        tags_valid(len_list_fields(tag, bs)),
    decreases bs.len(),
{
    if bs.len() > 0 {
        lemma_len_list_tags(tag, bs.drop_last());
        lemma_tags_valid_append(len_list_fields(tag, bs.drop_last()), seq![len_field(tag, bs.last())]);
    }
}

/// The payloads of an encodable list of fields fit in 64 bits.
proof fn lemma_len_list_encodable(tag: u32, bs: Seq<Seq<u8>>, i: int)
    requires
        fields_encodable(len_list_fields(tag, bs)),
        0 <= i < bs.len(),
    ensures
        bs[i].len() <= u64::MAX,
    decreases bs.len(),
{
    let init = bs.drop_last();
    let f = len_field(tag, bs.last());
    lemma_fields_encodable_split(len_list_fields(tag, init), seq![f]);
    if i < bs.len() - 1 {
        lemma_len_list_encodable(tag, init, i);
    } else {
        assert(crate::proto::wire::field_encodable(seq![f][0]));
    }
}

/// Appends one length-delimited field per item.
fn push_len_list(buf: &mut Vec<u8>, tag: u32, items: &Vec<Vec<u8>>)
    requires
        1 <= tag < 0x2000_0000,
    ensures
        final(buf)@ == old(buf)@ + fields_bytes(len_list_fields(tag, byte_vec_views(items@))),
{
    let mut i: usize = 0;
    assert(byte_vec_views(items@.subrange(0, 0)) =~= Seq::<Seq<u8>>::empty());
    assert(fields_bytes(Seq::<WireFieldView>::empty()) =~= Seq::<u8>::empty());
    assert(buf@ =~= old(buf)@ + Seq::<u8>::empty());
    while i < items.len()
        invariant
            1 <= tag < 0x2000_0000,
            i <= items@.len(),
            buf@ == old(buf)@ + fields_bytes(
                len_list_fields(tag, byte_vec_views(items@.subrange(0, i as int))),
            ),
        decreases items@.len() - i,
    {
        let ghost before = byte_vec_views(items@.subrange(0, i as int));
        push_len_field(buf, tag, items[i].as_slice());
        i = i + 1;
        proof {
            let after = byte_vec_views(items@.subrange(0, i as int));
            assert(after.drop_last() =~= before);
            assert(after.last() == items@[i - 1]@);
            let f = len_field(tag, items@[i - 1]@);
            lemma_fields_bytes_append(len_list_fields(tag, before), seq![f]);
            lemma_fields_bytes_field_if(true, f);
            assert(buf@ =~= old(buf)@ + fields_bytes(len_list_fields(tag, after)));
        }
    }
    assert(items@.subrange(0, items@.len() as int) =~= items@);
}

// ---------------------------------------------------------------------------
// AccessRule and AccessPolicy
// ---------------------------------------------------------------------------

/// An access rule on the wire: scope (1), recipient key IDs (2, repeated), expiry (3, zero
/// for none).
#[derive(Debug, Clone)]
pub struct AccessRule {
    pub scope: String,
    pub recipient_key_ids: Vec<Vec<u8>>,
    pub expires_at: u64,
}

/// The mathematical content of an access rule message.
pub struct RuleMsg {
    pub scope: Seq<char>,
    pub recipient_key_ids: Seq<Seq<u8>>,
    pub expires_at: u64,
}

impl View for AccessRule {
    type V = RuleMsg;

    open spec fn view(&self) -> RuleMsg {
        RuleMsg {
            scope: self.scope@,
            recipient_key_ids: byte_vec_views(self.recipient_key_ids@),
            expires_at: self.expires_at,
        }
    }
}

/// The views of a sequence of access rule messages.
pub open spec fn rule_msg_views(v: Seq<AccessRule>) -> Seq<RuleMsg> {
    v.map_values(|r: AccessRule| r@)
}

/// The fields that encode an access rule.
pub open spec fn rule_fields(r: RuleMsg) -> Seq<WireFieldView> {
    string_field_if(1, r.scope) + len_list_fields(2, r.recipient_key_ids) + field_if(
        r.expires_at != 0,
        varint_field(3, r.expires_at),
    )
}

/// The encoding of an access rule.
pub open spec fn rule_msg_bytes(r: RuleMsg) -> Seq<u8> {
    fields_bytes(rule_fields(r))
}

/// What one field does to an access rule being decoded.
pub open spec fn rule_step(acc: RuleMsg, f: WireFieldView) -> Option<RuleMsg> {
    if f.tag == 1 {
        match string_value(f) {
            Some(s) => Some(RuleMsg { scope: s, ..acc }),
            None => None,
        }
    } else if f.tag == 2 {
        match bytes_value(f) {
            Some(b) => Some(RuleMsg { recipient_key_ids: acc.recipient_key_ids.push(b), ..acc }),
            None => None,
        }
    } else if f.tag == 3 {
        match varint_value(f) {
            Some(v) => Some(RuleMsg { expires_at: v, ..acc }),
            None => None,
        }
    } else {
        Some(acc)
    }
}

/// `rule_step` as a function value.
pub open spec fn rule_stepper() -> spec_fn(RuleMsg, WireFieldView) -> Option<RuleMsg> {
    |a: RuleMsg, f: WireFieldView| rule_step(a, f)
}

/// The access rule message with every field at its default.
pub open spec fn empty_rule_msg() -> RuleMsg {
    RuleMsg { scope: seq![], recipient_key_ids: seq![], expires_at: 0 }
}

/// What decoding reads from bytes: an access rule message, or nothing.
pub open spec fn decode_rule_msg(d: Seq<u8>) -> Option<RuleMsg> {
    match read_fields(d, 0) {
        None => None,
        Some(fs) => fold_fields(fs, empty_rule_msg(), rule_stepper()),
    }
}

proof fn lemma_fold_key_ids(bs: Seq<Seq<u8>>, acc: RuleMsg)
    ensures
        fold_fields(len_list_fields(2, bs), acc, rule_stepper()) == Some(
            RuleMsg { recipient_key_ids: acc.recipient_key_ids + bs, ..acc },
        ),
    decreases bs.len(),
{
    let st = rule_stepper();
    if bs.len() == 0 {
        assert(acc.recipient_key_ids + bs =~= acc.recipient_key_ids);
    } else {
        let init = bs.drop_last();
        let f = len_field(2, bs.last());
        lemma_fold_key_ids(init, acc);
        lemma_fold_append(len_list_fields(2, init), seq![f], acc, st);
        let mid = RuleMsg { recipient_key_ids: acc.recipient_key_ids + init, ..acc };
        lemma_fold_one(f, mid, st);
        assert((acc.recipient_key_ids + init).push(bs.last()) =~= acc.recipient_key_ids + bs);
    }
}

/// Decoding an encoded access rule gives it back.
pub proof fn lemma_rule_msg_roundtrip(r: RuleMsg)
    requires
        rule_msg_bytes(r).len() <= u64::MAX,
    ensures
        decode_rule_msg(rule_msg_bytes(r)) == Some(r),
{
    let a = string_field_if(1, r.scope);
    let b = len_list_fields(2, r.recipient_key_ids);
    let c = field_if(r.expires_at != 0, varint_field(3, r.expires_at));
    let fs = rule_fields(r);
    lemma_len_list_tags(2, r.recipient_key_ids);
    lemma_tags_valid_append(a, b);
    lemma_tags_valid_append(a + b, c);
    lemma_fields_encodable(fs);
    lemma_fields_roundtrip(Seq::<u8>::empty(), fs);
    assert(Seq::<u8>::empty() + fields_bytes(fs) =~= fields_bytes(fs));
    let st = rule_stepper();
    let e0 = empty_rule_msg();
    lemma_fold_append(a + b, c, e0, st);
    lemma_fold_append(a, b, e0, st);
    lemma_string_value(1, r.scope);
    lemma_fold_field_if(r.scope.len() > 0, len_field(1, encode_utf8(r.scope)), e0, st);
    assert(r.scope.len() == 0 ==> r.scope =~= e0.scope);
    let a1 = RuleMsg { scope: r.scope, ..e0 };
    lemma_fold_key_ids(r.recipient_key_ids, a1);
    assert(a1.recipient_key_ids + r.recipient_key_ids =~= r.recipient_key_ids);
    let a2 = RuleMsg { recipient_key_ids: r.recipient_key_ids, ..a1 };
    lemma_fold_field_if(r.expires_at != 0, varint_field(3, r.expires_at), a2, st);
}

/// An access policy on the wire: its rules (1, repeated).
#[derive(Debug, Clone)]
pub struct AccessPolicy {
    pub rules: Vec<AccessRule>,
}

impl View for AccessPolicy {
    type V = Seq<RuleMsg>;

    open spec fn view(&self) -> Seq<RuleMsg> {
        rule_msg_views(self.rules@)
    }
}

/// The encoding of an access policy.
pub open spec fn policy_msg_bytes(rules: Seq<RuleMsg>) -> Seq<u8> {
    fields_bytes(len_list_fields(1, rules.map_values(|r: RuleMsg| rule_msg_bytes(r))))
}

/// What one field does to an access policy being decoded.
pub open spec fn policy_step(acc: Seq<RuleMsg>, f: WireFieldView) -> Option<Seq<RuleMsg>> {
    if f.tag == 1 {
        match bytes_value(f) {
            Some(b) => match decode_rule_msg(b) {
                Some(r) => Some(acc.push(r)),
                None => None,
            },
            None => None,
        }
    } else {
        Some(acc)
    }
}

/// `policy_step` as a function value.
pub open spec fn policy_stepper() -> spec_fn(Seq<RuleMsg>, WireFieldView) -> Option<Seq<RuleMsg>> {
    |a: Seq<RuleMsg>, f: WireFieldView| policy_step(a, f)
}

/// What decoding reads from bytes: the rules of an access policy message, or nothing.
pub open spec fn decode_policy_msg(d: Seq<u8>) -> Option<Seq<RuleMsg>> {
    match read_fields(d, 0) {
        None => None,
        Some(fs) => fold_fields(fs, Seq::<RuleMsg>::empty(), policy_stepper()),
    }
}

proof fn lemma_fold_rules(rs: Seq<RuleMsg>, acc: Seq<RuleMsg>)
    requires
        fields_encodable(len_list_fields(1, rs.map_values(|r: RuleMsg| rule_msg_bytes(r)))),
    ensures
        fold_fields(
            len_list_fields(1, rs.map_values(|r: RuleMsg| rule_msg_bytes(r))),
            acc,
            policy_stepper(),
        ) == Some(acc + rs),
    decreases rs.len(),
{
    let st = policy_stepper();
    let bs = rs.map_values(|r: RuleMsg| rule_msg_bytes(r));
    if rs.len() == 0 {
        assert(acc + rs =~= acc);
        assert(bs =~= Seq::<Seq<u8>>::empty());
    } else {
        let init = rs.drop_last();
        assert(bs.drop_last() =~= init.map_values(|r: RuleMsg| rule_msg_bytes(r)));
        let f = len_field(1, bs.last());
        lemma_fields_encodable_split(len_list_fields(1, bs.drop_last()), seq![f]);
        assert(crate::proto::wire::field_encodable(seq![f][0]));
        lemma_fold_rules(init, acc);
        lemma_fold_append(len_list_fields(1, bs.drop_last()), seq![f], acc, st);
        lemma_fold_one(f, acc + init, st);
        lemma_rule_msg_roundtrip(rs.last());
        assert((acc + init).push(rs.last()) =~= acc + rs);
    }
}

/// Decoding an encoded access policy gives its rules back.
pub proof fn lemma_policy_msg_roundtrip(rs: Seq<RuleMsg>)
    requires
        policy_msg_bytes(rs).len() <= u64::MAX,
    ensures
        decode_policy_msg(policy_msg_bytes(rs)) == Some(rs),
{
    let bs = rs.map_values(|r: RuleMsg| rule_msg_bytes(r));
    let fs = len_list_fields(1, bs);
    lemma_len_list_tags(1, bs);
    lemma_fields_encodable(fs);
    lemma_fields_roundtrip(Seq::<u8>::empty(), fs);
    assert(Seq::<u8>::empty() + fields_bytes(fs) =~= fields_bytes(fs));
    lemma_fold_rules(rs, Seq::<RuleMsg>::empty());
    assert(Seq::<RuleMsg>::empty() + rs =~= rs);
}

impl AccessRule {
    /// The encoding of the message.
    pub fn encode_to_vec(&self) -> (r: Vec<u8>)
        ensures
            r@ == rule_msg_bytes(self@),
    {
        let ghost m = self@;
        let ghost a = string_field_if(1, m.scope);
        let ghost b = len_list_fields(2, m.recipient_key_ids);
        let ghost c = field_if(m.expires_at != 0, varint_field(3, m.expires_at));
        let mut buf: Vec<u8> = Vec::new();
        push_string_field(&mut buf, 1, self.scope.as_str());
        push_len_list(&mut buf, 2, &self.recipient_key_ids);
        push_nonzero_varint_field(&mut buf, 3, self.expires_at);
        proof {
            lemma_fields_bytes_append(a, b);
            lemma_fields_bytes_append(a + b, c);
            assert(buf@ =~= rule_msg_bytes(m));
        }
        buf
    }

    fn apply(&mut self, f: &WireField) -> (ok: bool)
        ensures
            ok == rule_step(old(self)@, f@) is Some,
            ok ==> final(self)@ == rule_step(old(self)@, f@)->Some_0,
    {
        if f.tag == 1 {
            match string_of(f) {
                Some(s) => {
                    self.scope = s;
                    true
                },
                None => false,
            }
        } else if f.tag == 2 {
            match bytes_of(f) {
                Some(b) => {
                    let ghost before = self.recipient_key_ids@;
                    self.recipient_key_ids.push(b);
                    assert(byte_vec_views(self.recipient_key_ids@) =~= byte_vec_views(before).push(
                        b@,
                    ));
                    true
                },
                None => false,
            }
        } else if f.tag == 3 {
            match varint_of(f) {
                Some(v) => {
                    self.expires_at = v;
                    true
                },
                None => false,
            }
        } else {
            true
        }
    }

    /// Decodes the message from bytes; `None` where they are no such message.
    pub fn decode(data: &[u8]) -> (r: Option<AccessRule>)
        ensures
            match decode_rule_msg(data@) {
                Some(m) => r matches Some(v) && v@ == m,
                None => r is None,
            },
    {
        let fields = match read_fields_exec(data) {
            None => return None,
            Some(fs) => fs,
        };
        let ghost fs = field_views(fields@);
        let mut acc = AccessRule { scope: String::new(), recipient_key_ids: Vec::new(), expires_at: 0 };
        assert(acc@.recipient_key_ids =~= Seq::<Seq<u8>>::empty());
        assert(acc@ =~= empty_rule_msg());
        assert(fs.skip(0) =~= fs);
        let mut i: usize = 0;
        while i < fields.len()
            invariant
                i <= fields@.len(),
                fs == field_views(fields@),
                read_fields(data@, 0) == Some(fs),
                fold_fields(fs, empty_rule_msg(), rule_stepper()) == fold_fields(
                    fs.skip(i as int),
                    acc@,
                    rule_stepper(),
                ),
            decreases fields@.len() - i,
        {
            let ghost before = acc@;
            assert(fs.skip(i as int)[0] == fields@[i as int]@);
            assert(fs.skip(i as int).drop_first() =~= fs.skip(i + 1));
            assert(rule_stepper()(before, fields@[i as int]@) == rule_step(before, fields@[i as int]@));
            if !acc.apply(&fields[i]) {
                assert(fold_fields(fs.skip(i as int), before, rule_stepper()) is None);
                return None;
            }
            i = i + 1;
        }
        assert(fs.skip(i as int) =~= Seq::<WireFieldView>::empty());
        Some(acc)
    }
}

impl AccessPolicy {
    /// Encode to protobuf bytes.
    pub fn to_proto_bytes(&self) -> (r: Vec<u8>)
        ensures
            r@ == policy_msg_bytes(self@),
            decode_policy_msg(r@) == Some(self@),
    {
        let mut items: Vec<Vec<u8>> = Vec::new();
        let mut i: usize = 0;
        while i < self.rules.len()
            invariant
                i <= self.rules@.len(),
                items@.len() == i,
                forall|k: int| 0 <= k < i ==> (#[trigger] items@[k])@ == rule_msg_bytes(self.rules@[k]@),
            decreases self.rules@.len() - i,
        {
            items.push(self.rules[i].encode_to_vec());
            i = i + 1;
        }
        let mut buf: Vec<u8> = Vec::new();
        push_len_list(&mut buf, 1, &items);
        proof {
            assert(byte_vec_views(items@) =~= self@.map_values(|r: RuleMsg| rule_msg_bytes(r)));
            assert(buf@ =~= policy_msg_bytes(self@));
            assert(buf@.len() == buf.len());
            lemma_policy_msg_roundtrip(self@);
        }
        buf
    }

    /// Decode from protobuf bytes.
    pub fn from_proto_bytes(data: &[u8]) -> (r: crate::error::Result<AccessPolicy>)
        ensures
            match decode_policy_msg(data@) {
                Some(rs) => r matches Ok(p) && p@ == rs,
                None => r matches Err(e) && e is SerializationError,
            },
    {
        let fields = match read_fields_exec(data) {
            None => return Err(crate::error::RokError::SerializationError(String::from_str("protobuf decode: failed to decode Protobuf message"))),
            Some(fs) => fs,
        };
        let ghost fs = field_views(fields@);
        let mut rules: Vec<AccessRule> = Vec::new();
        assert(rule_msg_views(rules@) =~= Seq::<RuleMsg>::empty());
        assert(fs.skip(0) =~= fs);
        let mut i: usize = 0;
        while i < fields.len()
            invariant
                i <= fields@.len(),
                fs == field_views(fields@),
                read_fields(data@, 0) == Some(fs),
                fold_fields(fs, Seq::<RuleMsg>::empty(), policy_stepper()) == fold_fields(
                    fs.skip(i as int),
                    rule_msg_views(rules@),
                    policy_stepper(),
                ),
            decreases fields@.len() - i,
        {
            let ghost before = rule_msg_views(rules@);
            let f = &fields[i];
            assert(fs.skip(i as int)[0] == f@);
            assert(fs.skip(i as int).drop_first() =~= fs.skip(i + 1));
            assert(policy_stepper()(before, f@) == policy_step(before, f@));
            if f.tag == 1 {
                let rule = match bytes_of(f) {
                    None => None,
                    Some(b) => AccessRule::decode(b.as_slice()),
                };
                match rule {
                    Some(r) => {
                        rules.push(r);
                        assert(rule_msg_views(rules@) =~= before.push(r@));
                    },
                    None => {
                        assert(fold_fields(fs.skip(i as int), before, policy_stepper()) is None);
                        return Err(crate::error::RokError::SerializationError(String::from_str("protobuf decode: failed to decode Protobuf message")));
                    },
                }
            }
            i = i + 1;
        }
        assert(fs.skip(i as int) =~= Seq::<WireFieldView>::empty());
        Ok(AccessPolicy { rules })
    }
}

// ---------------------------------------------------------------------------
// RevocationEntry and RevocationList
// ---------------------------------------------------------------------------

/// A revocation on the wire: key ID (1), time of revocation (2), reason (3).
#[derive(Debug, Clone)]
pub struct RevocationEntry {
    pub key_id: Vec<u8>,
    pub revoked_at: u64,
    pub reason: String,
}

/// The mathematical content of a revocation message.
pub struct RevocationMsg {
    pub key_id: Seq<u8>,
    pub revoked_at: u64,
    pub reason: Seq<char>,
}

impl View for RevocationEntry {
    type V = RevocationMsg;

    open spec fn view(&self) -> RevocationMsg {
        RevocationMsg { key_id: self.key_id@, revoked_at: self.revoked_at, reason: self.reason@ }
    }
}

/// The views of a sequence of revocation messages.
pub open spec fn revocation_msg_views(v: Seq<RevocationEntry>) -> Seq<RevocationMsg> {
    v.map_values(|e: RevocationEntry| e@)
}

/// The fields that encode a revocation.
pub open spec fn revocation_fields(e: RevocationMsg) -> Seq<WireFieldView> {
    field_if(e.key_id.len() > 0, len_field(1, e.key_id)) + field_if(
        e.revoked_at != 0,
        varint_field(2, e.revoked_at),
    ) + string_field_if(3, e.reason)
}

/// The encoding of a revocation.
pub open spec fn revocation_msg_bytes(e: RevocationMsg) -> Seq<u8> {
    fields_bytes(revocation_fields(e))
}

/// What one field does to a revocation being decoded.
pub open spec fn revocation_step(acc: RevocationMsg, f: WireFieldView) -> Option<RevocationMsg> {
    if f.tag == 1 {
        match bytes_value(f) {
            Some(b) => Some(RevocationMsg { key_id: b, ..acc }),
            None => None,
        }
    } else if f.tag == 2 {
        match varint_value(f) {
            Some(v) => Some(RevocationMsg { revoked_at: v, ..acc }),
            None => None,
        }
    } else if f.tag == 3 {
        match string_value(f) {
            Some(s) => Some(RevocationMsg { reason: s, ..acc }),
            None => None,
        }
    } else {
        Some(acc)
    }
}

/// `revocation_step` as a function value.
pub open spec fn revocation_stepper() -> spec_fn(RevocationMsg, WireFieldView) -> Option<RevocationMsg> {
    |a: RevocationMsg, f: WireFieldView| revocation_step(a, f)
}

/// The revocation message with every field at its default.
pub open spec fn empty_revocation_msg() -> RevocationMsg {
    RevocationMsg { key_id: seq![], revoked_at: 0, reason: seq![] }
}

/// What decoding reads from bytes: a revocation message, or nothing.
pub open spec fn decode_revocation_msg(d: Seq<u8>) -> Option<RevocationMsg> {
    match read_fields(d, 0) {
        None => None,
        Some(fs) => fold_fields(fs, empty_revocation_msg(), revocation_stepper()),
    }
}

/// Decoding an encoded revocation gives it back.
pub proof fn lemma_revocation_msg_roundtrip(e: RevocationMsg)
    requires
        revocation_msg_bytes(e).len() <= u64::MAX,
    ensures
        decode_revocation_msg(revocation_msg_bytes(e)) == Some(e),
{
    let a = field_if(e.key_id.len() > 0, len_field(1, e.key_id));
    let b = field_if(e.revoked_at != 0, varint_field(2, e.revoked_at));
    let c = string_field_if(3, e.reason);
    let fs = revocation_fields(e);
    lemma_tags_valid_append(a, b);
    lemma_tags_valid_append(a + b, c);
    lemma_fields_encodable(fs);
    lemma_fields_roundtrip(Seq::<u8>::empty(), fs);
    assert(Seq::<u8>::empty() + fields_bytes(fs) =~= fields_bytes(fs));
    let st = revocation_stepper();
    let e0 = empty_revocation_msg();
    lemma_fold_append(a + b, c, e0, st);
    lemma_fold_append(a, b, e0, st);
    lemma_fold_field_if(e.key_id.len() > 0, len_field(1, e.key_id), e0, st);
    assert(e.key_id.len() == 0 ==> e.key_id =~= e0.key_id);
    let a1 = RevocationMsg { key_id: e.key_id, ..e0 };
    lemma_fold_field_if(e.revoked_at != 0, varint_field(2, e.revoked_at), a1, st);
    let a2 = RevocationMsg { revoked_at: e.revoked_at, ..a1 };
    lemma_string_value(3, e.reason);
    lemma_fold_field_if(e.reason.len() > 0, len_field(3, encode_utf8(e.reason)), a2, st);
    assert(e.reason.len() == 0 ==> e.reason =~= e0.reason);
}

/// A list of revocations on the wire: its entries (1, repeated).
#[derive(Debug, Clone)]
pub struct RevocationList {
    pub entries: Vec<RevocationEntry>,
}

impl View for RevocationList {
    type V = Seq<RevocationMsg>;

    open spec fn view(&self) -> Seq<RevocationMsg> {
        revocation_msg_views(self.entries@)
    }
}

/// The encoding of a revocation list.
pub open spec fn revocation_list_bytes(es: Seq<RevocationMsg>) -> Seq<u8> {
    fields_bytes(len_list_fields(1, es.map_values(|e: RevocationMsg| revocation_msg_bytes(e))))
}

/// What one field does to a revocation list being decoded.
pub open spec fn revocation_list_step(acc: Seq<RevocationMsg>, f: WireFieldView) -> Option<Seq<RevocationMsg>> {
    if f.tag == 1 {
        match bytes_value(f) {
            Some(b) => match decode_revocation_msg(b) {
                Some(e) => Some(acc.push(e)),
                None => None,
            },
            None => None,
        }
    } else {
        Some(acc)
    }
}

/// `revocation_list_step` as a function value.
pub open spec fn revocation_list_stepper() -> spec_fn(Seq<RevocationMsg>, WireFieldView) -> Option<Seq<RevocationMsg>> {
    |a: Seq<RevocationMsg>, f: WireFieldView| revocation_list_step(a, f)
}

/// What decoding reads from bytes: the entries of a revocation list message, or nothing.
pub open spec fn decode_revocation_list(d: Seq<u8>) -> Option<Seq<RevocationMsg>> {
    match read_fields(d, 0) {
        None => None,
        Some(fs) => fold_fields(fs, Seq::<RevocationMsg>::empty(), revocation_list_stepper()),
    }
}

proof fn lemma_fold_revocations(es: Seq<RevocationMsg>, acc: Seq<RevocationMsg>)
    requires
        fields_encodable(len_list_fields(1, es.map_values(|e: RevocationMsg| revocation_msg_bytes(e)))),
    ensures
        fold_fields(
            len_list_fields(1, es.map_values(|e: RevocationMsg| revocation_msg_bytes(e))),
            acc,
            revocation_list_stepper(),
        ) == Some(acc + es),
    decreases es.len(),
{
    let st = revocation_list_stepper();
    let bs = es.map_values(|e: RevocationMsg| revocation_msg_bytes(e));
    if es.len() == 0 {
        assert(acc + es =~= acc);
        assert(bs =~= Seq::<Seq<u8>>::empty());
    } else {
        let init = es.drop_last();
        assert(bs.drop_last() =~= init.map_values(|e: RevocationMsg| revocation_msg_bytes(e)));
        let f = len_field(1, bs.last());
        lemma_fields_encodable_split(len_list_fields(1, bs.drop_last()), seq![f]);
        assert(crate::proto::wire::field_encodable(seq![f][0]));
        lemma_fold_revocations(init, acc);
        lemma_fold_append(len_list_fields(1, bs.drop_last()), seq![f], acc, st);
        lemma_fold_one(f, acc + init, st);
        lemma_revocation_msg_roundtrip(es.last());
        assert((acc + init).push(es.last()) =~= acc + es);
    }
}

/// Decoding an encoded revocation list gives its entries back.
pub proof fn lemma_revocation_list_roundtrip(es: Seq<RevocationMsg>)
    requires
        revocation_list_bytes(es).len() <= u64::MAX,
    ensures
        decode_revocation_list(revocation_list_bytes(es)) == Some(es),
{
    let bs = es.map_values(|e: RevocationMsg| revocation_msg_bytes(e));
    let fs = len_list_fields(1, bs);
    lemma_len_list_tags(1, bs);
    lemma_fields_encodable(fs);
    lemma_fields_roundtrip(Seq::<u8>::empty(), fs);
    assert(Seq::<u8>::empty() + fields_bytes(fs) =~= fields_bytes(fs));
    lemma_fold_revocations(es, Seq::<RevocationMsg>::empty());
    assert(Seq::<RevocationMsg>::empty() + es =~= es);
}

impl RevocationEntry {
    /// The encoding of the message.
    pub fn encode_to_vec(&self) -> (r: Vec<u8>)
        ensures
            r@ == revocation_msg_bytes(self@),
    {
        let ghost m = self@;
        let ghost a = field_if(m.key_id.len() > 0, len_field(1, m.key_id));
        let ghost b = field_if(m.revoked_at != 0, varint_field(2, m.revoked_at));
        let ghost c = string_field_if(3, m.reason);
        let mut buf: Vec<u8> = Vec::new();
        push_bytes_field(&mut buf, 1, self.key_id.as_slice());
        push_nonzero_varint_field(&mut buf, 2, self.revoked_at);
        push_string_field(&mut buf, 3, self.reason.as_str());
        proof {
            lemma_fields_bytes_append(a, b);
            lemma_fields_bytes_append(a + b, c);
            assert(buf@ =~= revocation_msg_bytes(m));
        }
        buf
    }

    fn apply(&mut self, f: &WireField) -> (ok: bool)
        ensures
            ok == revocation_step(old(self)@, f@) is Some,
            ok ==> final(self)@ == revocation_step(old(self)@, f@)->Some_0,
    {
        if f.tag == 1 {
            match bytes_of(f) {
                Some(b) => {
                    self.key_id = b;
                    true
                },
                None => false,
            }
        } else if f.tag == 2 {
            match varint_of(f) {
                Some(v) => {
                    self.revoked_at = v;
                    true
                },
                None => false,
            }
        } else if f.tag == 3 {
            match string_of(f) {
                Some(s) => {
                    self.reason = s;
                    true
                },
                None => false,
            }
        } else {
            true
        }
    }

    /// Decodes the message from bytes; `None` where they are no such message.
    pub fn decode(data: &[u8]) -> (r: Option<RevocationEntry>)
        ensures
            match decode_revocation_msg(data@) {
                Some(m) => r matches Some(v) && v@ == m,
                None => r is None,
            },
    {
        let fields = match read_fields_exec(data) {
            None => return None,
            Some(fs) => fs,
        };
        let ghost fs = field_views(fields@);
        let mut acc = RevocationEntry { key_id: Vec::new(), revoked_at: 0, reason: String::new() };
        assert(acc@ =~= empty_revocation_msg());
        assert(fs.skip(0) =~= fs);
        let mut i: usize = 0;
        while i < fields.len()
            invariant
                i <= fields@.len(),
                fs == field_views(fields@),
                read_fields(data@, 0) == Some(fs),
                fold_fields(fs, empty_revocation_msg(), revocation_stepper()) == fold_fields(
                    fs.skip(i as int),
                    acc@,
                    revocation_stepper(),
                ),
            decreases fields@.len() - i,
        {
            let ghost before = acc@;
            assert(fs.skip(i as int)[0] == fields@[i as int]@);
            assert(fs.skip(i as int).drop_first() =~= fs.skip(i + 1));
            assert(revocation_stepper()(before, fields@[i as int]@) == revocation_step(before, fields@[i as int]@));
            if !acc.apply(&fields[i]) {
                assert(fold_fields(fs.skip(i as int), before, revocation_stepper()) is None);
                return None;
            }
            i = i + 1;
        }
        assert(fs.skip(i as int) =~= Seq::<WireFieldView>::empty());
        Some(acc)
    }
}

impl RevocationList {
    /// Encode to protobuf bytes.
    pub fn to_proto_bytes(&self) -> (r: Vec<u8>)
        ensures
            r@ == revocation_list_bytes(self@),
            decode_revocation_list(r@) == Some(self@),
    {
        let mut items: Vec<Vec<u8>> = Vec::new();
        let mut i: usize = 0;
        while i < self.entries.len()
            invariant
                i <= self.entries@.len(),
                items@.len() == i,
                forall|k: int| 0 <= k < i ==> (#[trigger] items@[k])@ == revocation_msg_bytes(self.entries@[k]@),
            decreases self.entries@.len() - i,
        {
            items.push(self.entries[i].encode_to_vec());
            i = i + 1;
        }
        let mut buf: Vec<u8> = Vec::new();
        push_len_list(&mut buf, 1, &items);
        proof {
            assert(byte_vec_views(items@) =~= self@.map_values(|e: RevocationMsg| revocation_msg_bytes(e)));
            assert(buf@ =~= revocation_list_bytes(self@));
            assert(buf@.len() == buf.len());
            lemma_revocation_list_roundtrip(self@);
        }
        buf
    }

    /// Decode from protobuf bytes.
    pub fn from_proto_bytes(data: &[u8]) -> (r: crate::error::Result<RevocationList>)
        ensures
            match decode_revocation_list(data@) {
                Some(es) => r matches Ok(l) && l@ == es,
                None => r matches Err(e) && e is SerializationError,
            },
    {
        let fields = match read_fields_exec(data) {
            None => return Err(crate::error::RokError::SerializationError(String::from_str("protobuf decode: failed to decode Protobuf message"))),
            Some(fs) => fs,
        };
        let ghost fs = field_views(fields@);
        let mut entries: Vec<RevocationEntry> = Vec::new();
        assert(revocation_msg_views(entries@) =~= Seq::<RevocationMsg>::empty());
        assert(fs.skip(0) =~= fs);
        let mut i: usize = 0;
        while i < fields.len()
            invariant
                i <= fields@.len(),
                fs == field_views(fields@),
                read_fields(data@, 0) == Some(fs),
                fold_fields(fs, Seq::<RevocationMsg>::empty(), revocation_list_stepper()) == fold_fields(
                    fs.skip(i as int),
                    revocation_msg_views(entries@),
                    revocation_list_stepper(),
                ),
            decreases fields@.len() - i,
        {
            let ghost before = revocation_msg_views(entries@);
            let f = &fields[i];
            assert(fs.skip(i as int)[0] == f@);
            assert(fs.skip(i as int).drop_first() =~= fs.skip(i + 1));
            assert(revocation_list_stepper()(before, f@) == revocation_list_step(before, f@));
            if f.tag == 1 {
                let entry = match bytes_of(f) {
                    None => None,
                    Some(b) => RevocationEntry::decode(b.as_slice()),
                };
                match entry {
                    Some(e) => {
                        entries.push(e);
                        assert(revocation_msg_views(entries@) =~= before.push(e@));
                    },
                    None => {
                        assert(fold_fields(fs.skip(i as int), before, revocation_list_stepper()) is None);
                        return Err(crate::error::RokError::SerializationError(String::from_str("protobuf decode: failed to decode Protobuf message")));
                    },
                }
            }
            i = i + 1;
        }
        assert(fs.skip(i as int) =~= Seq::<WireFieldView>::empty());
        Ok(RevocationList { entries })
    }
}

// ---------------------------------------------------------------------------
// Key messages
// ---------------------------------------------------------------------------

/// A spend public key on the wire: the key (1) and its key ID (2).
#[derive(Debug, Clone)]
pub struct SpendPublicKey {
    pub key_bytes: Vec<u8>,
    pub key_id: Vec<u8>,
}

/// A read public key on the wire: the key (1), its scope (2), its key ID (3) and its
/// parent's key ID (4, empty for none).
#[derive(Debug, Clone)]
pub struct ReadPublicKey {
    pub key_bytes: Vec<u8>,
    pub scope: String,
    pub key_id: Vec<u8>,
    pub parent_key_id: Vec<u8>,
}

/// An exported read key on the wire: secret (1), public key (2), scope (3) and parent key
/// ID (4, empty for none).
#[derive(Debug, Clone)]
pub struct ExportedReadKey {
    pub secret_bytes: Vec<u8>,
    pub public_bytes: Vec<u8>,
    pub scope: String,
    pub parent_key_id: Vec<u8>,
}

} // verus!
