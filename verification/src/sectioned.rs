//! Sectioned envelope: several independently encrypted sections in one container.
//!
//! Each section is a complete `EncryptedEnvelope` with its own scope, ephemeral keys,
//! ciphertext and signature. The container has its own binary (`ROKS`) format.
use vstd::prelude::*;
use crate::bytes::{
    copy_range, lemma_u16_le_roundtrip, lemma_u32_le_roundtrip, push_bytes, push_u16_le,
    push_u32_le, read_u16_le, read_u32_le, u16_from_le, u16_le, u32_from_le, u32_le,
};
use crate::crypto::utf8_str;
use crate::encrypt::{AccessMode, Algorithm};
use crate::envelope::{
    envelope_bytes, envelope_encodable, lemma_envelope_roundtrip, parse_envelope,
    reports_fault, EncryptedEnvelope, EnvelopeFault, EnvelopeView,
};
use crate::error::{Result, RokError};
use vstd::utf8::{decode_utf8, encode_utf8, valid_utf8};

verus! {

/// Current sectioned envelope version.
pub const SECTIONED_VERSION: u32 = 1;

/// A named section containing a complete encrypted envelope.
#[derive(Debug, Clone)]
pub struct Section {
    pub name: String,
    pub envelope: EncryptedEnvelope,
}

/// The mathematical content of a section.
pub struct SectionView {
    pub name: Seq<char>,
    pub envelope: EnvelopeView,
}

impl View for Section {
    type V = SectionView;

    open spec fn view(&self) -> SectionView {
        SectionView { name: self.name@, envelope: self.envelope@ }
    }
}

/// The views of a sequence of sections.
pub open spec fn section_views(v: Seq<Section>) -> Seq<SectionView> {
    v.map_values(|s: Section| s@)
}

/// No two sections share a name.
pub open spec fn distinct_names(ss: Seq<SectionView>) -> bool {
    forall|i: int, j: int|
        0 <= i < ss.len() && 0 <= j < ss.len() && i != j ==> (#[trigger] ss[i]).name
            != (#[trigger] ss[j]).name
}

/// A container of several independently encrypted sections.
#[derive(Debug, Clone)]
pub struct SectionedEnvelope {
    pub version: u32,
    pub sections: Vec<Section>,
}

/// The mathematical content of a sectioned envelope.
pub struct SectionedView {
    pub version: u32,
    pub sections: Seq<SectionView>,
}

impl View for SectionedEnvelope {
    type V = SectionedView;

    open spec fn view(&self) -> SectionedView {
        SectionedView { version: self.version, sections: section_views(self.sections@) }
    }
}

/// Non-secret metadata about a single section.
#[derive(Debug)]
pub struct SectionMetadataEntry {
    pub name: String,
    pub scope: String,
    pub algorithm: Algorithm,
    pub access_mode: AccessMode,
    pub ciphertext_len: usize,
    pub recipient_count: usize,
}

/// Non-secret metadata about a sectioned envelope.
#[derive(Debug)]
pub struct SectionedMetadata {
    pub version: u32,
    pub section_count: usize,
    pub sections: Vec<SectionMetadataEntry>,
}

/// The four magic bytes `ROKS` that open the sectioned binary format.
pub open spec fn sectioned_magic() -> Seq<u8> {
    seq![82u8, 79u8, 75u8, 83u8]
}

/// The binary form of one section: the name's length (`u16`) and UTF-8 bytes, then the
/// envelope's length (`u32`) and binary form.
#[verifier::opaque]
pub open spec fn section_bytes(s: SectionView) -> Seq<u8> {
    u16_le(encode_utf8(s.name).len() as u16) + encode_utf8(s.name) + u32_le(
        envelope_bytes(s.envelope).len() as u32,
    ) + envelope_bytes(s.envelope)
}

/// The binary form of a sequence of sections.
pub open spec fn sections_bytes(ss: Seq<SectionView>) -> Seq<u8>
    decreases ss.len(),
{
    if ss.len() == 0 {
        seq![]
    } else {
        sections_bytes(ss.drop_last()) + section_bytes(ss.last())
    }
}

/// The binary form of a sectioned envelope: magic, version, section count, sections.
pub open spec fn sectioned_bytes(v: SectionedView) -> Seq<u8> {
    sectioned_magic() + u32_le(v.version) + u16_le(v.sections.len() as u16) + sections_bytes(
        v.sections,
    )
}

/// A section that the binary format can carry unchanged.
pub open spec fn section_encodable(s: SectionView) -> bool {
    &&& encode_utf8(s.name).len() < 0x10000
    &&& envelope_encodable(s.envelope)
    &&& envelope_bytes(s.envelope).len() < 0x1_0000_0000
}

/// A sectioned envelope that the binary format can carry unchanged.
pub open spec fn sectioned_encodable(v: SectionedView) -> bool {
    &&& v.sections.len() < 0x10000
    &&& forall|i: int| 0 <= i < v.sections.len() ==> #[trigger] section_encodable(v.sections[i])
}

/// Why bytes are no sectioned envelope.
pub enum SectionedFault {
    Truncated,
    BadMagic,
    NameNotUtf8,
    Envelope(EnvelopeFault),
}

/// The outcome of reading part of the sectioned format.
pub type SectionParsed<T> = core::result::Result<T, SectionedFault>;

/// The error that reports a fault: that of the inner envelope, or a serialization error.
pub open spec fn reports_sectioned_fault(f: SectionedFault, e: RokError) -> bool {
    match f {
        SectionedFault::Envelope(g) => reports_fault(g, e),
        _ => e is SerializationError,
    }
}

/// Reads one section at `p`.
pub open spec fn parse_section(d: Seq<u8>, p: int) -> SectionParsed<(SectionView, int)> {
    if d.len() < p + 2 {
        Err(SectionedFault::Truncated)
    } else {
        let n = u16_from_le(d.subrange(p, p + 2)) as int;
        if d.len() < p + 2 + n {
            Err(SectionedFault::Truncated)
        } else {
            let nb = d.subrange(p + 2, p + 2 + n);
            let q = p + 2 + n;
            if !valid_utf8(nb) {
                Err(SectionedFault::NameNotUtf8)
            } else if d.len() < q + 4 {
                Err(SectionedFault::Truncated)
            } else {
                let m = u32_from_le(d.subrange(q, q + 4)) as int;
                if d.len() < q + 4 + m {
                    Err(SectionedFault::Truncated)
                } else {
                    match parse_envelope(d.subrange(q + 4, q + 4 + m)) {
                        Err(f) => Err(SectionedFault::Envelope(f)),
                        Ok(e) => Ok((SectionView { name: decode_utf8(nb), envelope: e }, q + 4 + m)),
                    }
                }
            }
        }
    }
}

/// Reads `count` sections one after another from `p`.
pub open spec fn parse_sections(d: Seq<u8>, p: int, count: nat) -> SectionParsed<(Seq<SectionView>, int)>
    decreases count,
{
    if count == 0 {
        Ok((seq![], p))
    } else {
        match parse_sections(d, p, (count - 1) as nat) {
            Err(f) => Err(f),
            Ok((ss, q)) => match parse_section(d, q) {
                Err(f) => Err(f),
                Ok((s, r)) => Ok((ss.push(s), r)),
            },
        }
    }
}

/// What the sectioned format reads from `d`. Bytes after the last section are ignored.
pub open spec fn parse_sectioned(d: Seq<u8>) -> SectionParsed<SectionedView> {
    if d.len() < 4 {
        Err(SectionedFault::Truncated)
    } else if d.subrange(0, 4) != sectioned_magic() {
        Err(SectionedFault::BadMagic)
    } else if d.len() < 10 {
        Err(SectionedFault::Truncated)
    } else {
        let version = u32_from_le(d.subrange(4, 8));
        let count = u16_from_le(d.subrange(8, 10)) as nat;
        match parse_sections(d, 10, count) {
            Err(f) => Err(f),
            Ok((ss, q)) => Ok(SectionedView { version, sections: ss }),
        }
    }
}

#[verifier::spinoff_prover]
#[verifier::rlimit(40)]
proof fn lemma_section_roundtrip(pre: Seq<u8>, s: SectionView, rest: Seq<u8>)
    requires
        section_encodable(s),
    ensures
        parse_section(pre + section_bytes(s) + rest, pre.len() as int) == SectionParsed::Ok(
            (s, (pre.len() + section_bytes(s).len()) as int),
        ),
{
    reveal(section_bytes);
    let d = pre + section_bytes(s) + rest;
    let p = pre.len() as int;
    let nb = encode_utf8(s.name);
    let n = nb.len() as int;
    let eb = envelope_bytes(s.envelope);
    let m = eb.len() as int;
    lemma_u16_le_roundtrip(n as u16);
    lemma_u32_le_roundtrip(m as u32);
    assert(d.subrange(p, p + 2) =~= u16_le(n as u16));
    assert(d.subrange(p + 2, p + 2 + n) =~= nb);
    assert(d.subrange(p + 2 + n, p + 6 + n) =~= u32_le(m as u32));
    assert(d.subrange(p + 6 + n, p + 6 + n + m) =~= eb);
    vstd::utf8::encode_utf8_valid_utf8(s.name);
    vstd::utf8::encode_utf8_decode_utf8(s.name);
    lemma_envelope_roundtrip(s.envelope, seq![]);
    assert(eb + seq![] =~= eb);
}

proof fn lemma_sections_roundtrip(pre: Seq<u8>, ss: Seq<SectionView>, rest: Seq<u8>)
    requires
        forall|i: int| 0 <= i < ss.len() ==> #[trigger] section_encodable(ss[i]),
    ensures
        parse_sections(pre + sections_bytes(ss) + rest, pre.len() as int, ss.len())
            == SectionParsed::Ok((ss, (pre.len() + sections_bytes(ss).len()) as int)),
    decreases ss.len(),
{
    let d = pre + sections_bytes(ss) + rest;
    if ss.len() == 0 {
        assert(ss =~= seq![]);
    } else {
        let init = ss.drop_last();
        let s = ss.last();
        assert(section_encodable(ss[ss.len() - 1]));
        assert forall|i: int| 0 <= i < init.len() implies #[trigger] section_encodable(init[i]) by {
            assert(section_encodable(ss[i]));
        }
        assert(d =~= pre + sections_bytes(init) + (section_bytes(s) + rest));
        lemma_sections_roundtrip(pre, init, section_bytes(s) + rest);
        assert(d =~= (pre + sections_bytes(init)) + section_bytes(s) + rest);
        lemma_section_roundtrip(pre + sections_bytes(init), s, rest);
        assert(init.push(s) =~= ss);
    }
}

/// Reading back a written sectioned envelope gives the same sections, whatever bytes
/// follow: `from_bytes` undoes `to_bytes` for every container the format can carry.
pub proof fn lemma_sectioned_roundtrip(v: SectionedView, rest: Seq<u8>)
    requires
        sectioned_encodable(v),
    ensures
        parse_sectioned(sectioned_bytes(v) + rest) == SectionParsed::Ok(v),
{
    let head = sectioned_magic() + u32_le(v.version) + u16_le(v.sections.len() as u16);
    let d = sectioned_bytes(v) + rest;
    lemma_u32_le_roundtrip(v.version);
    lemma_u16_le_roundtrip(v.sections.len() as u16);
    assert(d.subrange(0, 4) =~= sectioned_magic());
    assert(d.subrange(4, 8) =~= u32_le(v.version));
    assert(d.subrange(8, 10) =~= u16_le(v.sections.len() as u16));
    assert(d =~= head + sections_bytes(v.sections) + rest);
    lemma_sections_roundtrip(head, v.sections, rest);
}

fn truncated() -> (e: RokError)
    ensures
        e is SerializationError,
{
    RokError::SerializationError(String::from_str("unexpected end of sectioned data"))
}

fn read_section(data: &[u8], p: usize) -> (r: Result<(Section, usize)>)
    requires
        p <= data@.len(),
    ensures
        match parse_section(data@, p as int) {
            Ok((s, q)) => r matches Ok((s2, q2)) && s2@ == s && q2 == q,
            Err(f) => r matches Err(e) && reports_sectioned_fault(f, e),
        },
{
    if data.len() - p < 2 {
        return Err(truncated());
    }
    let n = read_u16_le(data, p) as usize;
    if data.len() - (p + 2) < n {
        return Err(truncated());
    }
    let name_bytes = copy_range(data, p + 2, n);
    let name = match utf8_str(name_bytes.as_slice()) {
        Some(text) => String::from_str(text),
        None => {
            return Err(RokError::SerializationError(String::from_str("invalid section name utf8")));
        },
    };
    let q = p + 2 + n;
    if data.len() - q < 4 {
        return Err(truncated());
    }
    let m = read_u32_le(data, q) as usize;
    if data.len() - (q + 4) < m {
        return Err(truncated());
    }
    let envelope_bytes = copy_range(data, q + 4, m);
    let envelope = EncryptedEnvelope::from_bytes(envelope_bytes.as_slice())?;
    Ok((Section { name, envelope }, q + 4 + m))
}

proof fn lemma_sections_fault_persists(d: Seq<u8>, p: int, k: nat, n: nat)
    requires
        parse_sections(d, p, k) is Err,
        k <= n,
    ensures
        parse_sections(d, p, n) == parse_sections(d, p, k),
    decreases n - k,
{
    if k < n {
        lemma_sections_fault_persists(d, p, k, (n - 1) as nat);
    }
}

fn push_sections(buf: &mut Vec<u8>, sections: &Vec<Section>)
    ensures
        final(buf)@ == old(buf)@ + sections_bytes(section_views(sections@)),
{
    let mut i: usize = 0;
    while i < sections.len()
        invariant
            i <= sections@.len(),
            buf@ == old(buf)@ + sections_bytes(section_views(sections@.subrange(0, i as int))),
        decreases sections@.len() - i,
    {
        let ghost before = section_views(sections@.subrange(0, i as int));
        let s = &sections[i];
        let name_bytes = s.name.as_str().as_bytes();
        push_u16_le(buf, name_bytes.len() as u16);
        push_bytes(buf, name_bytes);
        let envelope_bytes = s.envelope.to_bytes();
        push_u32_le(buf, envelope_bytes.len() as u32);
        push_bytes(buf, envelope_bytes.as_slice());
        i = i + 1;
        proof {
            reveal(section_bytes);
            let after = section_views(sections@.subrange(0, i as int));
            assert(after.drop_last() =~= before);
            assert(after.last() == s@);
        }
    }
    assert(sections@.subrange(0, sections@.len() as int) =~= sections@);
}

impl SectionedEnvelope {
    /// Extract non-secret metadata for inspection.
    pub fn metadata(&self) -> (m: SectionedMetadata)
        ensures
            m.version == self.version,
            m.section_count == self.sections@.len(),
            m.sections@.len() == self.sections@.len(),
            forall|i: int|
                0 <= i < m.sections@.len() ==> {
                    let e = #[trigger] m.sections@[i];
                    let s = self.sections@[i];
                    &&& e.name@ == s.name@
                    &&& e.scope@ == s.envelope.scope@
                    &&& e.algorithm == s.envelope.algorithm
                    &&& e.access_mode == s.envelope.access_mode
                    &&& e.ciphertext_len == s.envelope.ciphertext@.len()
                    &&& e.recipient_count == s.envelope.access_entries@.len()
                },
    {
        let mut entries: Vec<SectionMetadataEntry> = Vec::new();
        let mut i: usize = 0;
        while i < self.sections.len()
            invariant
                i <= self.sections@.len(),
                entries@.len() == i,
                forall|k: int|
                    0 <= k < i ==> {
                        let e = #[trigger] entries@[k];
                        let s = self.sections@[k];
                        &&& e.name@ == s.name@
                        &&& e.scope@ == s.envelope.scope@
                        &&& e.algorithm == s.envelope.algorithm
                        &&& e.access_mode == s.envelope.access_mode
                        &&& e.ciphertext_len == s.envelope.ciphertext@.len()
                        &&& e.recipient_count == s.envelope.access_entries@.len()
                    },
            decreases self.sections@.len() - i,
        {
            let s = &self.sections[i];
            let meta = s.envelope.metadata();
            entries.push(
                SectionMetadataEntry {
                    name: s.name.clone(),
                    scope: String::from_str(meta.scope.as_str()),
                    algorithm: meta.algorithm,
                    access_mode: meta.access_mode,
                    ciphertext_len: meta.ciphertext_len,
                    recipient_count: meta.recipient_count,
                },
            );
            i = i + 1;
        }
        SectionedMetadata {
            version: self.version,
            section_count: self.sections.len(),
            sections: entries,
        }
    }

    /// Serialize to the binary format: `ROKS`, the version (`u32`), the section count
    /// (`u16`), then for each section its name's length (`u16`) and UTF-8 bytes and its
    /// envelope's length (`u32`) and binary form.
    pub fn to_bytes(&self) -> (r: Vec<u8>)
        ensures
            r@ == sectioned_bytes(self@),
    {
        let mut buf: Vec<u8> = Vec::new();
        buf.push(82);
        buf.push(79);
        buf.push(75);
        buf.push(83);
        push_u32_le(&mut buf, self.version);
        push_u16_le(&mut buf, self.sections.len() as u16);
        push_sections(&mut buf, &self.sections);
        proof {
            assert(buf@ =~= sectioned_bytes(self@));
        }
        buf
    }

    /// Deserialize from the binary format.
    pub fn from_bytes(data: &[u8]) -> (r: Result<SectionedEnvelope>)
        ensures
            match parse_sectioned(data@) {
                Ok(v) => r matches Ok(s) && s@ == v,
                Err(f) => r matches Err(e) && reports_sectioned_fault(f, e),
            },
    {
        if data.len() < 4 {
            return Err(truncated());
        }
        if data[0] != 82 || data[1] != 79 || data[2] != 75 || data[3] != 83 {
            proof {
                let m = data@.subrange(0, 4);
                assert(m != sectioned_magic()) by {
                    if m == sectioned_magic() {
                        assert(m[0] == 82 && m[1] == 79 && m[2] == 75 && m[3] == 83);
                    }
                }
            }
            return Err(
                RokError::SerializationError(
                    String::from_str("invalid sectioned magic bytes (expected ROKS)"),
                ),
            );
        }
        assert(data@.subrange(0, 4) =~= sectioned_magic());
        if data.len() < 10 {
            return Err(truncated());
        }
        let version = read_u32_le(data, 4);
        let count = read_u16_le(data, 8) as usize;
        let mut sections: Vec<Section> = Vec::new();
        let mut pos: usize = 10;
        let mut i: usize = 0;
        assert(section_views(sections@) =~= seq![]);
        while i < count
            invariant
                i <= count,
                pos <= data@.len(),
                count == u16_from_le(data@.subrange(8, 10)) as nat,
                data@.len() >= 10,
                data@.subrange(0, 4) == sectioned_magic(),
                version == u32_from_le(data@.subrange(4, 8)),
                parse_sections(data@, 10, i as nat) == SectionParsed::Ok(
                    (section_views(sections@), pos as int),
                ),
            decreases count - i,
        {
            match read_section(data, pos) {
                Ok((s, q)) => {
                    let ghost before = sections@;
                    sections.push(s);
                    assert(section_views(sections@) =~= section_views(before).push(s@));
                    pos = q;
                },
                Err(err) => {
                    proof {
                        lemma_sections_fault_persists(data@, 10, (i + 1) as nat, count as nat);
                    }
                    return Err(err);
                },
            }
            i = i + 1;
        }
        Ok(SectionedEnvelope { version, sections })
    }
}

/// Builder for a `SectionedEnvelope` whose section names are distinct.
pub struct SectionedEnvelopeBuilder {
    sections: Vec<Section>,
}

impl View for SectionedEnvelopeBuilder {
    type V = Seq<SectionView>;

    closed spec fn view(&self) -> Seq<SectionView> {
        section_views(self.sections@)
    }
}

impl SectionedEnvelopeBuilder {
    /// The sections added so far have distinct names.
    #[verifier::type_invariant]
    pub open spec fn inv(self) -> bool {
        distinct_names(self@)
    }

    /// A builder with no sections.
    pub fn new() -> (b: Self)
        ensures
            b@ == Seq::<SectionView>::empty(),
    {
        let b = SectionedEnvelopeBuilder { sections: Vec::new() };
        assert(b@ =~= Seq::<SectionView>::empty());
        b
    }

    /// Add a named section; fails if the name is already used.
    pub fn add_section(&mut self, name: String, envelope: EncryptedEnvelope) -> (r: Result<&mut Self>)
        ensures
            r is Ok <==> (forall|i: int| 0 <= i < old(self)@.len() ==> (#[trigger] old(self)@[i]).name != name@),
            r matches Ok(ret) ==> ret@ == old(self)@.push(SectionView { name: name@, envelope: envelope@ }),
            r matches Ok(ret) ==> *final(self) == *final(ret),
            r matches Err(e) ==> e is SerializationError && final(self)@ == old(self)@,
    {
        proof {
            use_type_invariant(&*self);
        }
        let mut i: usize = 0;
        while i < self.sections.len()
            invariant
                i <= self@.len(),
                self@.len() == self.sections@.len(),
                forall|k: int| 0 <= k < i ==> (#[trigger] self@[k]).name != name@,
            decreases self.sections@.len() - i,
        {
            if self.sections[i].name == name {
                assert(self@[i as int].name == name@);
                let mut m = String::from_str("duplicate section name: ");
                m.append(name.as_str());
                return Err(RokError::SerializationError(m));
            }
            i = i + 1;
        }
        let ghost before = self@;
        let mut sections: Vec<Section> = Vec::new();
        std::mem::swap(&mut sections, &mut self.sections);
        sections.push(Section { name, envelope });
        assert(section_views(sections@) =~= before.push(SectionView { name: name@, envelope: envelope@ }));
        self.sections = sections;
        Ok(self)
    }

    /// Build the sectioned envelope; fails if no section was added.
    pub fn build(self) -> (r: Result<SectionedEnvelope>)
        ensures
            r is Ok <==> self@.len() > 0,
            r matches Ok(s) ==> s@ == (SectionedView { version: SECTIONED_VERSION, sections: self@ }),
            r matches Ok(s) ==> distinct_names(s@.sections),
            r matches Err(e) ==> e is SerializationError,
    {
        proof {
            use_type_invariant(&self);
        }
        if self.sections.len() == 0 {
            return Err(
                RokError::SerializationError(
                    String::from_str("sectioned envelope must have at least one section"),
                ),
            );
        }
        let SectionedEnvelopeBuilder { sections } = self;
        Ok(SectionedEnvelope { version: SECTIONED_VERSION, sections })
    }
}

impl Default for SectionedEnvelopeBuilder {
    fn default() -> (b: Self)
        ensures
            b@ == Seq::<SectionView>::empty(),
    {
        SectionedEnvelopeBuilder::new()
    }
}

} // verus!
