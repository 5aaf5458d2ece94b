//! Protobuf messages of the library and their conversions to and from the native types.
pub mod wire;
pub mod rok;

use vstd::prelude::*;
use crate::bytes::{array12, array16, array32, array64, array8, push_bytes};
use crate::encrypt::{
    access_mode_code, algorithm_code, AccessMode as NativeAccessMode,
    Algorithm as NativeAlgorithm,
};
use crate::envelope::{
    entry_views, AccessEntry as NativeAccessEntry, AccessEntryView,
    EncryptedEnvelope as NativeEnvelope, EnvelopeView,
};
use crate::error::{Result, RokError};
use crate::crypto::{ed25519_key_decodes, ed25519_key_is_valid};
use crate::keys::key_id::{key_id_of, lemma_key_id_len, KeyId};
use crate::keys::read::{opt_key_id_view, ExportedReadKey as NativeExportedReadKey, ExportedReadKeyView};
use crate::keys::scope::{valid_scope, Scope};
use crate::proto::rok::{
    access_mode_number, algorithm_number, decode_envelope_msg, decode_sectioned_msg,
    entry_msg_views, envelope_msg_bytes, lemma_envelope_msg_roundtrip,
    lemma_sectioned_msg_roundtrip, section_msg_views, sectioned_msg_bytes, EntryMsg, EnvelopeMsg,
    SectionMsg, SectionedMsg,
};
use crate::sectioned::{
    section_views, Section as NativeSection, SectionView,
    SectionedEnvelope as NativeSectionedEnvelope, SectionedView,
};

verus! {

/// Why a decoded message is no native value.
pub enum ProtoFault {
    /// The bytes are no message of the expected kind.
    Malformed,
    /// The algorithm number is unspecified or unknown.
    UnknownAlgorithm,
    /// The scope is no valid scope path.
    InvalidScope,
    /// A key, nonce, tag, signature or identifier has the wrong length.
    BadLength,
    /// The access mode number is unknown.
    UnknownAccessMode,
    /// A section carries no envelope.
    MissingEnvelope,
}

/// The outcome of turning a message into a native value.
pub type ProtoParsed<T> = core::result::Result<T, ProtoFault>;

/// The error that reports a fault: `InvalidScope` for an invalid scope path, a
/// serialization error otherwise.
pub open spec fn reports_proto_fault(f: ProtoFault, e: RokError) -> bool {
    match f {
        ProtoFault::InvalidScope => e is InvalidScope,
        _ => e is SerializationError,
    }
}

fn serialization_error(text: &str) -> (e: RokError)
    ensures
        e is SerializationError,
{
    RokError::SerializationError(String::from_str(text))
}

fn malformed() -> (e: RokError)
    ensures
        e is SerializationError,
{
    serialization_error("protobuf decode: failed to decode Protobuf message")
}

fn bytes_to_vec(b: &[u8]) -> (r: Vec<u8>)
    ensures
        r@ == b@,
{
    let mut r: Vec<u8> = Vec::new();
    push_bytes(&mut r, b);
    assert(r@ =~= b@);
    r
}

// ---------------------------------------------------------------------------
// Algorithm and access mode
// ---------------------------------------------------------------------------

/// The wire algorithm of a native algorithm.
pub open spec fn algorithm_to_wire(a: NativeAlgorithm) -> rok::Algorithm {
    match a {
        NativeAlgorithm::EciesX25519ChaCha20 => rok::Algorithm::EciesX25519Chacha20,
        NativeAlgorithm::HybridX25519MlKemChaCha20 => rok::Algorithm::HybridX25519MlkemChacha20,
    }
}

/// The native algorithm that a wire number stands for, if any.
pub open spec fn native_algorithm_of(v: i32) -> Option<NativeAlgorithm> {
    if v == 1 {
        Some(NativeAlgorithm::EciesX25519ChaCha20)
    } else if v == 2 {
        Some(NativeAlgorithm::HybridX25519MlKemChaCha20)
    } else {
        None
    }
}

/// The wire access mode of a native access mode.
pub open spec fn access_mode_to_wire(m: NativeAccessMode) -> rok::AccessMode {
    match m {
        NativeAccessMode::Recipient => rok::AccessMode::Recipient,
        NativeAccessMode::ScopeBased => rok::AccessMode::ScopeBased,
    }
}

/// The native access mode that a wire number stands for, if any.
pub open spec fn native_access_mode_of(v: i32) -> Option<NativeAccessMode> {
    if v == 0 {
        Some(NativeAccessMode::Recipient)
    } else if v == 1 {
        Some(NativeAccessMode::ScopeBased)
    } else {
        None
    }
}

impl rok::Algorithm {
    /// The wire algorithm of a native algorithm.
    pub fn from_native(a: NativeAlgorithm) -> (r: rok::Algorithm)
        ensures
            r == algorithm_to_wire(a),
    {
        match a {
            NativeAlgorithm::EciesX25519ChaCha20 => rok::Algorithm::EciesX25519Chacha20,
            NativeAlgorithm::HybridX25519MlKemChaCha20 => rok::Algorithm::HybridX25519MlkemChacha20,
        }
    }

    /// The native algorithm; a serialization error for `Unspecified`.
    pub fn to_native(self) -> (r: Result<NativeAlgorithm>)
        ensures
            match native_algorithm_of(algorithm_number(self)) {
                Some(a) => r matches Ok(b) && b == a,
                None => r matches Err(e) && e is SerializationError,
            },
    {
        match self {
            rok::Algorithm::EciesX25519Chacha20 => Ok(NativeAlgorithm::EciesX25519ChaCha20),
            rok::Algorithm::HybridX25519MlkemChacha20 => Ok(
                NativeAlgorithm::HybridX25519MlKemChaCha20,
            ),
            rok::Algorithm::Unspecified => Err(serialization_error("unspecified algorithm")),
        }
    }
}

impl rok::AccessMode {
    /// The wire access mode of a native access mode.
    pub fn from_native(m: NativeAccessMode) -> (r: rok::AccessMode)
        ensures
            r == access_mode_to_wire(m),
    {
        match m {
            NativeAccessMode::Recipient => rok::AccessMode::Recipient,
            NativeAccessMode::ScopeBased => rok::AccessMode::ScopeBased,
        }
    }

    /// The native access mode.
    pub fn to_native(self) -> (r: NativeAccessMode)
        ensures
            native_access_mode_of(access_mode_number(self)) == Some(r),
    {
        match self {
            rok::AccessMode::Recipient => NativeAccessMode::Recipient,
            rok::AccessMode::ScopeBased => NativeAccessMode::ScopeBased,
        }
    }
}

// ---------------------------------------------------------------------------
// Access entries
// ---------------------------------------------------------------------------

/// The message of a native access entry.
pub open spec fn entry_message_of(e: AccessEntryView) -> EntryMsg {
    EntryMsg {
        read_key_id: e.read_key_id,
        wrapped_data_key: e.wrapped_data_key,
        wrap_nonce: e.wrap_nonce,
    }
}

/// The native access entry of a message, where the key ID has 8 bytes and the wrap nonce
/// 12.
pub open spec fn native_entry_of(e: EntryMsg) -> Option<AccessEntryView> {
    if e.read_key_id.len() == 8 && e.wrap_nonce.len() == 12 {
        Some(
            AccessEntryView {
                read_key_id: e.read_key_id,
                wrapped_data_key: e.wrapped_data_key,
                wrap_nonce: e.wrap_nonce,
            },
        )
    } else {
        None
    }
}

/// Every entry of the sequence has a native access entry.
pub open spec fn entries_convertible(es: Seq<EntryMsg>) -> bool {
    forall|i: int| 0 <= i < es.len() ==> #[trigger] native_entry_of(es[i]) is Some
}

impl rok::AccessEntry {
    /// The message of a native access entry.
    pub fn from_native(entry: &NativeAccessEntry) -> (r: rok::AccessEntry)
        ensures
            r@ == entry_message_of(entry@),
    {
        rok::AccessEntry {
            read_key_id: bytes_to_vec(entry.read_key_id.as_bytes()),
            wrapped_data_key: entry.wrapped_data_key.clone(),
            wrap_nonce: bytes_to_vec(&entry.wrap_nonce),
        }
    }

    /// The native access entry; a serialization error for a key ID of other than 8 bytes
    /// or a wrap nonce of other than 12.
    pub fn to_native(&self) -> (r: Result<NativeAccessEntry>)
        ensures
            match native_entry_of(self@) {
                Some(v) => r matches Ok(e) && e@ == v,
                None => r matches Err(e) && e is SerializationError,
            },
    {
        if self.read_key_id.len() != 8 {
            return Err(serialization_error("expected 8-byte key_id"));
        }
        if self.wrap_nonce.len() != 12 {
            return Err(serialization_error("expected 12-byte wrap_nonce"));
        }
        let id = array8(self.read_key_id.as_slice(), 0);
        let nonce = array12(self.wrap_nonce.as_slice(), 0);
        assert(self.read_key_id@.subrange(0, 8) =~= self.read_key_id@);
        assert(self.wrap_nonce@.subrange(0, 12) =~= self.wrap_nonce@);
        Ok(
            NativeAccessEntry {
                read_key_id: KeyId::from_bytes(id),
                wrapped_data_key: self.wrapped_data_key.clone(),
                wrap_nonce: nonce,
            },
        )
    }
}

// ---------------------------------------------------------------------------
// Envelopes
// ---------------------------------------------------------------------------

/// The message of a native envelope. An absent ML-KEM ciphertext is an empty one.
pub open spec fn envelope_message_of(v: EnvelopeView) -> EnvelopeMsg {
    EnvelopeMsg {
        version: v.version,
        algorithm: algorithm_code(v.algorithm) as i32,
        scope: v.scope,
        ephemeral_x25519_public: v.ephemeral_x25519_public,
        ephemeral_mlkem_ciphertext: match v.ephemeral_mlkem_ciphertext {
            Some(c) => c,
            None => seq![],
        },
        access_entries: v.access_entries.map_values(|e: AccessEntryView| entry_message_of(e)),
        nonce: v.nonce,
        ciphertext: v.ciphertext,
        tag: v.tag,
        spend_public_key: v.spend_public_key,
        signature: v.signature,
        access_mode: access_mode_code(v.access_mode) as i32,
    }
}

/// The native envelope of a message, or why there is none. The checks come in this
/// order: the algorithm, the scope, the lengths of the keys, access entries, nonce, tag
/// and signature, and last the access mode. An empty ML-KEM ciphertext is an absent one.
pub open spec fn native_envelope_of(m: EnvelopeMsg) -> ProtoParsed<EnvelopeView> {
    match native_algorithm_of(m.algorithm) {
        None => Err(ProtoFault::UnknownAlgorithm),
        Some(algorithm) => if !valid_scope(m.scope) {
            Err(ProtoFault::InvalidScope)
        } else if m.ephemeral_x25519_public.len() != 32 || !entries_convertible(m.access_entries)
            || m.nonce.len() != 12 || m.tag.len() != 16 || m.spend_public_key.len() != 32
            || m.signature.len() != 64 {
            Err(ProtoFault::BadLength)
        } else {
            match native_access_mode_of(m.access_mode) {
                None => Err(ProtoFault::UnknownAccessMode),
                Some(access_mode) => Ok(
                    EnvelopeView {
                        version: m.version,
                        algorithm,
                        scope: m.scope,
                        ephemeral_x25519_public: m.ephemeral_x25519_public,
                        ephemeral_mlkem_ciphertext: if m.ephemeral_mlkem_ciphertext.len() == 0 {
                            None
                        } else {
                            Some(m.ephemeral_mlkem_ciphertext)
                        },
                        access_entries: m.access_entries.map_values(
                            |e: EntryMsg| native_entry_of(e)->Some_0,
                        ),
                        nonce: m.nonce,
                        ciphertext: m.ciphertext,
                        tag: m.tag,
                        spend_public_key: m.spend_public_key,
                        signature: m.signature,
                        access_mode,
                    },
                ),
            }
        },
    }
}

/// What the protobuf form of an envelope reads as: a native envelope, or why there is
/// none.
pub open spec fn envelope_from_proto(d: Seq<u8>) -> ProtoParsed<EnvelopeView> {
    match decode_envelope_msg(d) {
        None => Err(ProtoFault::Malformed),
        Some(m) => native_envelope_of(m),
    }
}

/// An envelope that its protobuf form carries unchanged: one whose ML-KEM ciphertext, if
/// present, is not empty (an empty one reads back as absent).
pub open spec fn proto_carries(v: EnvelopeView) -> bool {
    v.ephemeral_mlkem_ciphertext matches Some(c) ==> c.len() > 0
}

/// What every native envelope has: a valid scope, and keys, key IDs, nonces, tag and
/// signature of their fixed lengths.
pub open spec fn envelope_fits(v: EnvelopeView) -> bool {
    &&& valid_scope(v.scope)
    &&& v.ephemeral_x25519_public.len() == 32
    &&& forall|i: int|
        0 <= i < v.access_entries.len() ==> (#[trigger] v.access_entries[i]).read_key_id.len()
            == 8 && v.access_entries[i].wrap_nonce.len() == 12
    &&& v.nonce.len() == 12
    &&& v.tag.len() == 16
    &&& v.spend_public_key.len() == 32
    &&& v.signature.len() == 64
}

/// Turning a native envelope into its message and back gives the envelope again.
pub proof fn lemma_envelope_message_roundtrip(v: EnvelopeView)
    requires
        envelope_fits(v),
        proto_carries(v),
    ensures
        native_envelope_of(envelope_message_of(v)) == ProtoParsed::Ok(v),
{
    let m = envelope_message_of(v);
    assert forall|i: int| 0 <= i < m.access_entries.len() implies #[trigger] native_entry_of(
        m.access_entries[i],
    ) is Some by {
        assert(v.access_entries[i].read_key_id.len() == 8);
    }
    let back = m.access_entries.map_values(|e: EntryMsg| native_entry_of(e)->Some_0);
    assert(back =~= v.access_entries) by {
        assert forall|i: int| 0 <= i < back.len() implies back[i] == v.access_entries[i] by {
            assert(v.access_entries[i].read_key_id.len() == 8);
        }
    }
    match v.ephemeral_mlkem_ciphertext {
        Some(c) => {},
        None => {
            assert(m.ephemeral_mlkem_ciphertext.len() == 0);
        },
    }
    assert((algorithm_code(v.algorithm) as i32) == 1 || (algorithm_code(v.algorithm) as i32) == 2);
}

proof fn lemma_entries_not_convertible(es: Seq<EntryMsg>, i: int)
    requires
        0 <= i < es.len(),
        native_entry_of(es[i]) is None,
    ensures
        !entries_convertible(es),
{
}

impl rok::EncryptedEnvelope {
    /// The message of a native envelope.
    pub fn from_native(env: &NativeEnvelope) -> (r: rok::EncryptedEnvelope)
        ensures
            r@ == envelope_message_of(env@),
            envelope_fits(env@),
    {
        proof {
            use_type_invariant(&env.scope);
            assert forall|i: int| 0 <= i < env@.access_entries.len() implies (
            #[trigger] env@.access_entries[i]).read_key_id.len() == 8
                && env@.access_entries[i].wrap_nonce.len() == 12 by {
                lemma_key_id_len(env.access_entries@[i].read_key_id);
            }
        }
        let mut entries: Vec<rok::AccessEntry> = Vec::new();
        let mut i: usize = 0;
        while i < env.access_entries.len()
            invariant
                i <= env.access_entries@.len(),
                entries@.len() == i,
                forall|k: int|
                    0 <= k < i ==> #[trigger] entries@[k]@ == entry_message_of(
                        env.access_entries@[k]@,
                    ),
            decreases env.access_entries@.len() - i,
        {
            entries.push(rok::AccessEntry::from_native(&env.access_entries[i]));
            i = i + 1;
        }
        let mlkem = match &env.ephemeral_mlkem_ciphertext {
            Some(c) => c.clone(),
            None => Vec::new(),
        };
        let r = rok::EncryptedEnvelope {
            version: env.version,
            algorithm: rok::Algorithm::from_native(env.algorithm).as_i32(),
            scope: String::from_str(env.scope.as_str()),
            ephemeral_x25519_public: bytes_to_vec(&env.ephemeral_x25519_public),
            ephemeral_mlkem_ciphertext: mlkem,
            access_entries: entries,
            nonce: bytes_to_vec(&env.nonce),
            ciphertext: env.ciphertext.clone(),
            tag: bytes_to_vec(&env.tag),
            spend_public_key: bytes_to_vec(&env.spend_public_key),
            signature: bytes_to_vec(&env.signature),
            access_mode: rok::AccessMode::from_native(env.access_mode).as_i32(),
        };
        proof {
            assert(entry_msg_views(entries@) =~= entry_views(env.access_entries@).map_values(
                |e: AccessEntryView| entry_message_of(e),
            ));
            assert(r@ =~= envelope_message_of(env@));
        }
        r
    }

    /// The native envelope of the message; see `native_envelope_of` for when it fails.
    pub fn to_native(&self) -> (r: Result<NativeEnvelope>)
        ensures
            match native_envelope_of(self@) {
                Ok(v) => r matches Ok(e) && e@ == v,
                Err(f) => r matches Err(e) && reports_proto_fault(f, e),
            },
    {
        let algorithm = match rok::Algorithm::from_i32(self.algorithm) {
            None => return Err(serialization_error("unknown algorithm value")),
            Some(a) => a.to_native()?,
        };
        let scope = Scope::new(self.scope.as_str())?;
        if self.ephemeral_x25519_public.len() != 32 {
            return Err(serialization_error("ephemeral X25519 public key must be 32 bytes"));
        }
        let ephemeral_x25519_public = array32(self.ephemeral_x25519_public.as_slice(), 0);
        let ephemeral_mlkem_ciphertext = if self.ephemeral_mlkem_ciphertext.len() == 0 {
            None
        } else {
            Some(self.ephemeral_mlkem_ciphertext.clone())
        };
        let mut access_entries: Vec<NativeAccessEntry> = Vec::new();
        let mut i: usize = 0;
        while i < self.access_entries.len()
            invariant
                i <= self.access_entries@.len(),
                access_entries@.len() == i,
                native_algorithm_of(self.algorithm) == Some(algorithm),
                valid_scope(self.scope@),
                self.ephemeral_x25519_public@.len() == 32,
                forall|k: int|
                    0 <= k < i ==> native_entry_of(#[trigger] self.access_entries@[k]@)
                        == Some(access_entries@[k]@),
            decreases self.access_entries@.len() - i,
        {
            match self.access_entries[i].to_native() {
                Ok(e) => {
                    access_entries.push(e);
                },
                Err(e) => {
                    proof {
                        assert(entry_msg_views(self.access_entries@)[i as int]
                            == self.access_entries@[i as int]@);
                        lemma_entries_not_convertible(
                            entry_msg_views(self.access_entries@),
                            i as int,
                        );
                    }
                    return Err(e);
                },
            }
            i = i + 1;
        }
        proof {
            assert forall|k: int| 0 <= k < self@.access_entries.len() implies #[trigger]
                native_entry_of(self@.access_entries[k]) is Some by {
                assert(self@.access_entries[k] == self.access_entries@[k]@);
            }
        }
        if self.nonce.len() != 12 {
            return Err(serialization_error("nonce must be 12 bytes"));
        }
        if self.tag.len() != 16 {
            return Err(serialization_error("tag must be 16 bytes"));
        }
        if self.spend_public_key.len() != 32 {
            return Err(serialization_error("spend public key must be 32 bytes"));
        }
        if self.signature.len() != 64 {
            return Err(serialization_error("signature must be 64 bytes"));
        }
        let access_mode = match rok::AccessMode::from_i32(self.access_mode) {
            None => return Err(serialization_error("unknown access mode value")),
            Some(m) => m.to_native(),
        };
        let nonce = array12(self.nonce.as_slice(), 0);
        let tag = array16(self.tag.as_slice(), 0);
        let spend_public_key = array32(self.spend_public_key.as_slice(), 0);
        let signature = array64(self.signature.as_slice(), 0);
        let e = NativeEnvelope {
            version: self.version,
            algorithm,
            scope,
            ephemeral_x25519_public,
            ephemeral_mlkem_ciphertext,
            access_entries,
            nonce,
            ciphertext: self.ciphertext.clone(),
            tag,
            signature,
            spend_public_key,
            access_mode,
        };
        proof {
            assert(self.ephemeral_x25519_public@.subrange(0, 32) =~= self.ephemeral_x25519_public@);
            assert(self.nonce@.subrange(0, 12) =~= self.nonce@);
            assert(self.tag@.subrange(0, 16) =~= self.tag@);
            assert(self.spend_public_key@.subrange(0, 32) =~= self.spend_public_key@);
            assert(self.signature@.subrange(0, 64) =~= self.signature@);
            let v = native_envelope_of(self@)->Ok_0;
            assert(entry_views(access_entries@) =~= v.access_entries) by {
                assert forall|k: int| 0 <= k < access_entries@.len() implies entry_views(
                    access_entries@,
                )[k] == v.access_entries[k] by {
                    assert(self@.access_entries[k] == self.access_entries@[k]@);
                }
            }
            assert(e@ =~= v);
        }
        Ok(e)
    }
}

impl NativeEnvelope {
    /// Serialize to protobuf bytes. Reading them back with `from_proto_bytes` gives this
    /// envelope again, unless it carries an empty ML-KEM ciphertext (read back as none).
    pub fn to_proto_bytes(&self) -> (r: Vec<u8>)
        ensures
            r@ == envelope_msg_bytes(envelope_message_of(self@)),
            proto_carries(self@) ==> envelope_from_proto(r@) == ProtoParsed::Ok(self@),
    {
        let message = rok::EncryptedEnvelope::from_native(self);
        let r = message.encode_to_vec();
        proof {
            let v = self@;
            assert(r@.len() == r.len());
            lemma_envelope_msg_roundtrip(envelope_message_of(v));
            if proto_carries(v) {
                lemma_envelope_message_roundtrip(v);
            }
        }
        r
    }

    /// Deserialize from protobuf bytes.
    pub fn from_proto_bytes(data: &[u8]) -> (r: Result<NativeEnvelope>)
        ensures
            match envelope_from_proto(data@) {
                Ok(v) => r matches Ok(e) && e@ == v,
                Err(f) => r matches Err(e) && reports_proto_fault(f, e),
            },
    {
        match rok::EncryptedEnvelope::decode(data) {
            None => Err(malformed()),
            Some(m) => m.to_native(),
        }
    }
}

// ---------------------------------------------------------------------------
// Sections and sectioned envelopes
// ---------------------------------------------------------------------------

/// The message of a native section.
pub open spec fn section_message_of(s: SectionView) -> SectionMsg {
    SectionMsg { name: s.name, envelope: Some(envelope_message_of(s.envelope)) }
}

/// The message of a native sectioned envelope.
pub open spec fn sectioned_message_of(v: SectionedView) -> SectionedMsg {
    SectionedMsg {
        version: v.version,
        sections: v.sections.map_values(|s: SectionView| section_message_of(s)),
    }
}

/// The native section of a message, or why there is none: a missing envelope first,
/// then whatever its envelope lacks.
pub open spec fn native_section_of(s: SectionMsg) -> ProtoParsed<SectionView> {
    match s.envelope {
        None => Err(ProtoFault::MissingEnvelope),
        Some(e) => match native_envelope_of(e) {
            Err(f) => Err(f),
            Ok(v) => Ok(SectionView { name: s.name, envelope: v }),
        },
    }
}

/// The native sections of messages, converted in order; the first that fails decides.
pub open spec fn native_sections_of(ss: Seq<SectionMsg>) -> ProtoParsed<Seq<SectionView>>
    decreases ss.len(),
{
    if ss.len() == 0 {
        Ok(seq![])
    } else {
        match native_sections_of(ss.drop_last()) {
            Err(f) => Err(f),
            Ok(vs) => match native_section_of(ss.last()) {
                Err(f) => Err(f),
                Ok(v) => Ok(vs.push(v)),
            },
        }
    }
}

/// The native sectioned envelope of a message, or why there is none.
pub open spec fn native_sectioned_of(m: SectionedMsg) -> ProtoParsed<SectionedView> {
    match native_sections_of(m.sections) {
        Err(f) => Err(f),
        Ok(ss) => Ok(SectionedView { version: m.version, sections: ss }),
    }
}

/// What the protobuf form of a sectioned envelope reads as.
pub open spec fn sectioned_from_proto(d: Seq<u8>) -> ProtoParsed<SectionedView> {
    match decode_sectioned_msg(d) {
        None => Err(ProtoFault::Malformed),
        Some(m) => native_sectioned_of(m),
    }
}

/// Every section's envelope has what native envelopes have and its protobuf form carries
/// it unchanged.
pub open spec fn sections_carried(ss: Seq<SectionView>) -> bool {
    forall|i: int|
        0 <= i < ss.len() ==> envelope_fits((#[trigger] ss[i]).envelope) && proto_carries(
            ss[i].envelope,
        )
}

proof fn lemma_native_sections_roundtrip(ss: Seq<SectionView>)
    requires
        sections_carried(ss),
    ensures
        native_sections_of(ss.map_values(|s: SectionView| section_message_of(s)))
            == ProtoParsed::Ok(ss),
    decreases ss.len(),
{
    let ms = ss.map_values(|s: SectionView| section_message_of(s));
    if ss.len() == 0 {
        assert(ms =~= Seq::<SectionMsg>::empty());
        assert(ss =~= Seq::<SectionView>::empty());
    } else {
        let init = ss.drop_last();
        assert(ms.drop_last() =~= init.map_values(|s: SectionView| section_message_of(s)));
        assert forall|i: int| 0 <= i < init.len() implies envelope_fits(
            (#[trigger] init[i]).envelope,
        ) && proto_carries(init[i].envelope) by {
            assert(init[i] == ss[i]);
        }
        lemma_native_sections_roundtrip(init);
        let last = ss.last();
        assert(envelope_fits(ss[ss.len() - 1].envelope));
        lemma_envelope_message_roundtrip(last.envelope);
        assert(ms.last() == section_message_of(last));
        assert(init.push(last) =~= ss);
    }
}

proof fn lemma_native_sections_prefix(ss: Seq<SectionMsg>, i: int)
    requires
        0 <= i < ss.len(),
        native_sections_of(ss.take(i)) is Err,
    ensures
        native_sections_of(ss) == native_sections_of(ss.take(i)),
    decreases ss.len() - i,
{
    if i + 1 < ss.len() {
        assert(ss.take(i + 1).take(i) =~= ss.take(i));
        assert(ss.take(i + 1).drop_last() =~= ss.take(i));
        lemma_native_sections_prefix(ss, i + 1);
    } else {
        assert(ss.drop_last() =~= ss.take(i));
    }
}

impl rok::SectionedSection {
    /// The message of a native section.
    pub fn from_native(section: &NativeSection) -> (r: rok::SectionedSection)
        ensures
            r@ == section_message_of(section@),
            envelope_fits(section@.envelope),
    {
        rok::SectionedSection {
            name: section.name.clone(),
            envelope: Some(rok::EncryptedEnvelope::from_native(&section.envelope)),
        }
    }

    /// The native section; a serialization error for a missing envelope, else what the
    /// envelope's conversion gives.
    pub fn to_native(&self) -> (r: Result<NativeSection>)
        ensures
            match native_section_of(self@) {
                Ok(v) => r matches Ok(s) && s@ == v,
                Err(f) => r matches Err(e) && reports_proto_fault(f, e),
            },
    {
        match &self.envelope {
            None => Err(serialization_error("sectioned section missing envelope")),
            Some(m) => {
                let envelope = m.to_native()?;
                Ok(NativeSection { name: self.name.clone(), envelope })
            },
        }
    }
}

impl rok::SectionedEnvelope {
    /// The message of a native sectioned envelope.
    pub fn from_native(env: &NativeSectionedEnvelope) -> (r: rok::SectionedEnvelope)
        ensures
            r@ == sectioned_message_of(env@),
            forall|i: int|
                0 <= i < env@.sections.len() ==> envelope_fits(#[trigger] env@.sections[i].envelope),
    {
        let mut sections: Vec<rok::SectionedSection> = Vec::new();
        let mut i: usize = 0;
        while i < env.sections.len()
            invariant
                i <= env.sections@.len(),
                sections@.len() == i,
                forall|k: int|
                    0 <= k < i ==> #[trigger] sections@[k]@ == section_message_of(
                        env.sections@[k]@,
                    ),
                forall|k: int| 0 <= k < i ==> envelope_fits(#[trigger] env.sections@[k]@.envelope),
            decreases env.sections@.len() - i,
        {
            sections.push(rok::SectionedSection::from_native(&env.sections[i]));
            i = i + 1;
        }
        let r = rok::SectionedEnvelope { version: env.version, sections };
        proof {
            assert(section_msg_views(r.sections@) =~= section_views(env.sections@).map_values(
                |s: SectionView| section_message_of(s),
            ));
            assert forall|k: int| 0 <= k < env@.sections.len() implies envelope_fits(
                #[trigger] env@.sections[k].envelope,
            ) by {
                assert(env@.sections[k] == env.sections@[k]@);
            }
        }
        r
    }

    /// The native sectioned envelope; the first section that fails decides the error.
    pub fn to_native(&self) -> (r: Result<NativeSectionedEnvelope>)
        ensures
            match native_sectioned_of(self@) {
                Ok(v) => r matches Ok(s) && s@ == v,
                Err(f) => r matches Err(e) && reports_proto_fault(f, e),
            },
    {
        let ghost ms = self@.sections;
        let mut sections: Vec<NativeSection> = Vec::new();
        let mut i: usize = 0;
        assert(ms.take(0) =~= Seq::<SectionMsg>::empty());
        assert(section_views(sections@) =~= Seq::<SectionView>::empty());
        while i < self.sections.len()
            invariant
                i <= self.sections@.len(),
                ms == section_msg_views(self.sections@),
                native_sections_of(ms.take(i as int)) == ProtoParsed::Ok(section_views(sections@)),
            decreases self.sections@.len() - i,
        {
            assert(ms.take(i + 1).drop_last() =~= ms.take(i as int));
            assert(ms.take(i + 1).last() == self.sections@[i as int]@);
            match self.sections[i].to_native() {
                Ok(s) => {
                    let ghost before = sections@;
                    sections.push(s);
                    assert(section_views(sections@) =~= section_views(before).push(s@));
                },
                Err(e) => {
                    proof {
                        if i + 1 == ms.len() {
                            assert(ms.take(i + 1) =~= ms);
                        } else {
                            lemma_native_sections_prefix(ms, i + 1);
                        }
                    }
                    return Err(e);
                },
            }
            i = i + 1;
        }
        assert(ms.take(i as int) =~= ms);
        Ok(NativeSectionedEnvelope { version: self.version, sections })
    }
}

impl NativeSectionedEnvelope {
    /// Serialize to protobuf bytes. Reading them back with `from_proto_bytes` gives this
    /// sectioned envelope again, unless a section carries an empty ML-KEM ciphertext.
    pub fn to_proto_bytes(&self) -> (r: Vec<u8>)
        ensures
            r@ == sectioned_msg_bytes(sectioned_message_of(self@)),
            (forall|i: int|
                0 <= i < self@.sections.len() ==> proto_carries(
                    #[trigger] self@.sections[i].envelope,
                )) ==> sectioned_from_proto(r@) == ProtoParsed::Ok(self@),
    {
        let message = rok::SectionedEnvelope::from_native(self);
        let r = message.encode_to_vec();
        proof {
            let v = self@;
            assert(r@.len() == r.len());
            lemma_sectioned_msg_roundtrip(sectioned_message_of(v));
            if forall|i: int|
                0 <= i < v.sections.len() ==> proto_carries(#[trigger] v.sections[i].envelope) {
                lemma_native_sections_roundtrip(v.sections);
            }
        }
        r
    }

    /// Deserialize from protobuf bytes.
    pub fn from_proto_bytes(data: &[u8]) -> (r: Result<NativeSectionedEnvelope>)
        ensures
            match sectioned_from_proto(data@) {
                Ok(v) => r matches Ok(s) && s@ == v,
                Err(f) => r matches Err(e) && reports_proto_fault(f, e),
            },
    {
        match rok::SectionedEnvelope::decode(data) {
            None => Err(malformed()),
            Some(m) => m.to_native(),
        }
    }
}

// ---------------------------------------------------------------------------
// Keys
// ---------------------------------------------------------------------------

/// The parent key ID that an optional key ID field carries: one when it has 8 bytes.
pub open spec fn parent_of_field(b: Seq<u8>) -> Option<Seq<u8>> {
    if b.len() == 8 {
        Some(b)
    } else {
        None
    }
}

/// The field that carries an optional key ID: its bytes, or nothing.
pub open spec fn field_of_parent(p: Option<Seq<u8>>) -> Seq<u8> {
    match p {
        Some(id) => id,
        None => seq![],
    }
}

fn parent_field(parent: Option<&KeyId>) -> (r: Vec<u8>)
    ensures
        r@ == field_of_parent(
            match parent {
                Some(id) => Some(id@),
                None => None,
            },
        ),
{
    match parent {
        Some(id) => bytes_to_vec(id.as_bytes()),
        None => Vec::new(),
    }
}

fn parent_from_field(b: &Vec<u8>) -> (r: Option<KeyId>)
    ensures
        opt_key_id_view(r) == parent_of_field(b@),
{
    if b.len() == 8 {
        let id = array8(b.as_slice(), 0);
        assert(b@.subrange(0, 8) =~= b@);
        Some(KeyId::from_bytes(id))
    } else {
        None
    }
}

impl rok::SpendPublicKey {
    /// The message of a spend verifying key: the key and its key ID.
    pub fn from_verifying_key(vk: &[u8; 32]) -> (r: rok::SpendPublicKey)
        ensures
            r.key_bytes@ == vk@,
            r.key_id@ == key_id_of(vk@),
    {
        let key_id = KeyId::from_public_bytes(vk);
        rok::SpendPublicKey {
            key_bytes: bytes_to_vec(vk),
            key_id: bytes_to_vec(key_id.as_bytes()),
        }
    }

    /// The verifying key: a serialization error unless the key has 32 bytes, invalid key
    /// material unless they decode to an Ed25519 verifying key.
    pub fn to_verifying_key(&self) -> (r: Result<[u8; 32]>)
        ensures
            self.key_bytes@.len() != 32 ==> (r matches Err(e) && e is SerializationError),
            self.key_bytes@.len() == 32 && !ed25519_key_decodes(self.key_bytes@) ==> (r matches Err(
                e,
            ) && e is InvalidKeyMaterial),
            self.key_bytes@.len() == 32 && ed25519_key_decodes(self.key_bytes@) ==> (r matches Ok(
                k,
            ) && k@ == self.key_bytes@),
    {
        if self.key_bytes.len() != 32 {
            return Err(serialization_error("spend public key must be 32 bytes"));
        }
        let key = array32(self.key_bytes.as_slice(), 0);
        assert(self.key_bytes@.subrange(0, 32) =~= self.key_bytes@);
        if ed25519_key_is_valid(&key) {
            Ok(key)
        } else {
            Err(RokError::InvalidKeyMaterial)
        }
    }
}

impl rok::ReadPublicKey {
    /// The message of a read public key with its scope and parent.
    pub fn from_parts(key: &[u8; 32], scope: &Scope, parent_key_id: Option<&KeyId>) -> (r:
        rok::ReadPublicKey)
        ensures
            r.key_bytes@ == key@,
            r.scope@ == scope@,
            r.key_id@ == key_id_of(key@),
            r.parent_key_id@ == field_of_parent(
                match parent_key_id {
                    Some(id) => Some(id@),
                    None => None,
                },
            ),
    {
        let key_id = KeyId::from_public_bytes(key);
        rok::ReadPublicKey {
            key_bytes: bytes_to_vec(key),
            scope: String::from_str(scope.as_str()),
            key_id: bytes_to_vec(key_id.as_bytes()),
            parent_key_id: parent_field(parent_key_id),
        }
    }

    /// The key, scope and parent: a serialization error unless the key has 32 bytes, an
    /// invalid scope error for an invalid scope; a parent field of other than 8 bytes
    /// reads as no parent.
    pub fn to_parts(&self) -> (r: Result<([u8; 32], Scope, Option<KeyId>)>)
        ensures
            self.key_bytes@.len() != 32 ==> (r matches Err(e) && e is SerializationError),
            self.key_bytes@.len() == 32 && !valid_scope(self.scope@) ==> (r matches Err(e)
                && e is InvalidScope),
            self.key_bytes@.len() == 32 && valid_scope(self.scope@) ==> (r matches Ok(
                (k, s, p),
            ) && k@ == self.key_bytes@ && s@ == self.scope@ && opt_key_id_view(p)
                == parent_of_field(self.parent_key_id@)),
    {
        if self.key_bytes.len() != 32 {
            return Err(serialization_error("read public key must be 32 bytes"));
        }
        let key = array32(self.key_bytes.as_slice(), 0);
        assert(self.key_bytes@.subrange(0, 32) =~= self.key_bytes@);
        let scope = Scope::new(self.scope.as_str())?;
        let parent = parent_from_field(&self.parent_key_id);
        Ok((key, scope, parent))
    }
}

/// The message of a native exported read key.
pub open spec fn exported_message_of(k: ExportedReadKeyView) -> (Seq<u8>, Seq<u8>, Seq<char>, Seq<u8>) {
    (k.secret, k.public, k.scope, field_of_parent(k.parent_key_id))
}

impl rok::ExportedReadKey {
    /// The message of a native exported read key.
    pub fn from_native(key: &NativeExportedReadKey) -> (r: rok::ExportedReadKey)
        ensures
            (r.secret_bytes@, r.public_bytes@, r.scope@, r.parent_key_id@) == exported_message_of(
                key@,
            ),
    {
        let parent = match &key.parent_key_id {
            Some(id) => bytes_to_vec(id.as_bytes()),
            None => Vec::new(),
        };
        rok::ExportedReadKey {
            secret_bytes: bytes_to_vec(&key.secret_bytes),
            public_bytes: bytes_to_vec(&key.public_bytes),
            scope: String::from_str(key.scope.as_str()),
            parent_key_id: parent,
        }
    }

    /// The native exported read key: a serialization error unless secret and public key
    /// have 32 bytes each, an invalid scope error for an invalid scope; a parent field of
    /// other than 8 bytes reads as no parent.
    pub fn to_native(&self) -> (r: Result<NativeExportedReadKey>)
        ensures
            self.secret_bytes@.len() != 32 || self.public_bytes@.len() != 32 ==> (r matches Err(e)
                && e is SerializationError),
            self.secret_bytes@.len() == 32 && self.public_bytes@.len() == 32 && !valid_scope(
                self.scope@,
            ) ==> (r matches Err(e) && e is InvalidScope),
            self.secret_bytes@.len() == 32 && self.public_bytes@.len() == 32 && valid_scope(
                self.scope@,
            ) ==> (r matches Ok(k) && k@ == (ExportedReadKeyView {
                secret: self.secret_bytes@,
                public: self.public_bytes@,
                scope: self.scope@,
                parent_key_id: parent_of_field(self.parent_key_id@),
            })),
    {
        if self.secret_bytes.len() != 32 {
            return Err(serialization_error("exported read key secret must be 32 bytes"));
        }
        if self.public_bytes.len() != 32 {
            return Err(serialization_error("exported read key public must be 32 bytes"));
        }
        let secret_bytes = array32(self.secret_bytes.as_slice(), 0);
        let public_bytes = array32(self.public_bytes.as_slice(), 0);
        assert(self.secret_bytes@.subrange(0, 32) =~= self.secret_bytes@);
        assert(self.public_bytes@.subrange(0, 32) =~= self.public_bytes@);
        let scope = Scope::new(self.scope.as_str())?;
        let parent_key_id = parent_from_field(&self.parent_key_id);
        Ok(NativeExportedReadKey { secret_bytes, public_bytes, scope, parent_key_id })
    }
}

} // verus!
