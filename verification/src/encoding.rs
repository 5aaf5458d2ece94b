//! Human-readable key encodings: a type tag, the payload and a checksum, in Base58.
use vstd::prelude::*;
use crate::bytes::{array32, array8, bytes_equal, copy_range, push_bytes};
use crate::crypto::{
    base58_bytes, base58_text, bs58_decode, bs58_encode, ed25519_key_decodes,
    ed25519_key_is_valid, sha256, sha256_digest, utf8_str,
};
use crate::error::{Result, RokError};
use crate::keys::key_id::{lemma_key_id_len, KeyId};
use crate::keys::read::{ExportedReadKey, ExportedReadKeyView};
use crate::keys::scope::{valid_scope, Scope};
use vstd::utf8::{decode_utf8, encode_utf8, valid_utf8};

verus! {

/// Type tag of an encoded spend (Ed25519) public key.
pub const TAG_SPEND_PUBLIC: u8 = 1;

/// Type tag of an encoded read (X25519) public key with its scope.
pub const TAG_READ_PUBLIC: u8 = 2;

/// Type tag of an encoded exported read key (with its secret).
pub const TAG_READ_SECRET: u8 = 3;

/// The 4-byte checksum of data: the first 4 bytes of SHA-256(SHA-256(data)).
pub open spec fn checksum_of(data: Seq<u8>) -> Seq<u8> {
    sha256_digest(sha256_digest(data)).subrange(0, 4)
}

/// The bytes that are Base58-encoded: the tag, the payload, and the checksum of both.
pub open spec fn tagged_bytes(tag: u8, payload: Seq<u8>) -> Seq<u8> {
    seq![tag] + payload + checksum_of(seq![tag] + payload)
}

/// Why a text is no encoding of the expected kind.
pub enum CodecFault {
    NotBase58,
    TooShort,
    WrongTag(u8),
    BadChecksum,
    Malformed,
    BadScope,
    BadKey,
}

/// The outcome of decoding.
pub type Decoded<T> = core::result::Result<T, CodecFault>;

/// The error that reports a fault, for the expected type tag.
pub open spec fn reports_codec_fault(f: CodecFault, expected: u8, e: RokError) -> bool {
    match f {
        CodecFault::WrongTag(got) => e == RokError::InvalidTypeTag { expected, got },
        CodecFault::BadChecksum => e is InvalidChecksum,
        CodecFault::BadScope => e is InvalidScope,
        CodecFault::BadKey => e is InvalidKeyMaterial,
        _ => e is EncodingError,
    }
}

/// The payload of a tagged Base58 text: the text must decode, hold at least a tag and a
/// checksum, carry the expected tag, and its checksum must match.
pub open spec fn untagged(text: Seq<char>, tag: u8) -> Decoded<Seq<u8>> {
    match base58_bytes(text) {
        None => Err(CodecFault::NotBase58),
        Some(d) => if d.len() < 5 {
            Err(CodecFault::TooShort)
        } else if d[0] != tag {
            Err(CodecFault::WrongTag(d[0]))
        } else if d.subrange(d.len() - 4, d.len() as int) != checksum_of(
            d.subrange(0, d.len() - 4),
        ) {
            Err(CodecFault::BadChecksum)
        } else {
            Ok(d.subrange(1, d.len() - 4))
        },
    }
}

/// A scope read from its UTF-8 bytes.
pub open spec fn scope_from_bytes(b: Seq<u8>) -> Decoded<Seq<char>> {
    if !valid_utf8(b) {
        Err(CodecFault::Malformed)
    } else if !valid_scope(decode_utf8(b)) {
        Err(CodecFault::BadScope)
    } else {
        Ok(decode_utf8(b))
    }
}

/// What an encoded spend public key decodes to.
pub open spec fn spend_public_decoded(text: Seq<char>) -> Decoded<Seq<u8>> {
    match untagged(text, TAG_SPEND_PUBLIC) {
        Err(f) => Err(f),
        Ok(p) => if p.len() != 32 {
            Err(CodecFault::Malformed)
        } else if !ed25519_key_decodes(p) {
            Err(CodecFault::BadKey)
        } else {
            Ok(p)
        },
    }
}

/// What an encoded read public key decodes to: the key and its scope.
pub open spec fn read_public_decoded(text: Seq<char>) -> Decoded<(Seq<u8>, Seq<char>)> {
    match untagged(text, TAG_READ_PUBLIC) {
        Err(f) => Err(f),
        Ok(p) => if p.len() < 33 {
            Err(CodecFault::Malformed)
        } else {
            match scope_from_bytes(p.subrange(32, p.len() as int)) {
                Err(f) => Err(f),
                Ok(s) => Ok((p.subrange(0, 32), s)),
            }
        },
    }
}

/// The payload of an exported read key: secret, public key, a parent flag (1 with the
/// parent's key identifier, 0 without), then the scope.
pub open spec fn exported_payload(e: ExportedReadKeyView) -> Seq<u8> {
    e.secret + e.public + match e.parent_key_id {
        Some(id) => seq![1u8] + id,
        None => seq![0u8],
    } + encode_utf8(e.scope)
}

/// What an encoded exported read key decodes to. The parent flag must be 0 or 1.
pub open spec fn exported_decoded(text: Seq<char>) -> Decoded<ExportedReadKeyView> {
    match untagged(text, TAG_READ_SECRET) {
        Err(f) => Err(f),
        Ok(p) => if p.len() < 65 {
            Err(CodecFault::Malformed)
        } else if p[64] != 0 && p[64] != 1 {
            Err(CodecFault::Malformed)
        } else if p[64] == 1 && p.len() < 73 {
            Err(CodecFault::Malformed)
        } else {
            let start: int = if p[64] == 1 { 73 } else { 65 };
            match scope_from_bytes(p.subrange(start, p.len() as int)) {
                Err(f) => Err(f),
                Ok(s) => Ok(
                    ExportedReadKeyView {
                        secret: p.subrange(0, 32),
                        public: p.subrange(32, 64),
                        scope: s,
                        parent_key_id: if p[64] == 1 {
                            Some(p.subrange(65, 73))
                        } else {
                            None
                        },
                    },
                ),
            }
        },
    }
}

/// Compute the 4-byte checksum of data.
fn checksum(data: &[u8]) -> (cs: [u8; 4])
    ensures
        cs@ == checksum_of(data@),
{
    let hash1 = sha256(data);
    let hash2 = sha256(&hash1);
    let cs = [hash2[0], hash2[1], hash2[2], hash2[3]];
    assert(cs@ =~= checksum_of(data@));
    cs
}

/// Encode raw bytes with a type tag and checksum, then Base58; decoding the text with
/// the same tag gives the payload back.
fn encode_with_tag(tag: u8, payload: &[u8]) -> (s: String)
    ensures
        s@ == base58_text(tagged_bytes(tag, payload@)),
        untagged(s@, tag) == Decoded::Ok(payload@),
{
    let mut data: Vec<u8> = Vec::new();
    data.push(tag);
    push_bytes(&mut data, payload);
    let cs = checksum(data.as_slice());
    push_bytes(&mut data, &cs);
    let s = bs58_encode(data.as_slice());
    proof {
        let d = tagged_bytes(tag, payload@);
        assert(data@ =~= d);
        assert(d.subrange(0, d.len() - 4) =~= seq![tag] + payload@);
        assert(d.subrange(d.len() - 4, d.len() as int) =~= checksum_of(seq![tag] + payload@));
        assert(d.subrange(1, d.len() - 4) =~= payload@);
    }
    s
}

/// Decode Base58, verify the tag and the checksum, return the payload.
fn decode_with_tag(encoded: &str, expected_tag: u8) -> (r: Result<Vec<u8>>)
    ensures
        match untagged(encoded@, expected_tag) {
            Ok(p) => r matches Ok(v) && v@ == p,
            Err(f) => r matches Err(e) && reports_codec_fault(f, expected_tag, e),
        },
{
    let data = match bs58_decode(encoded) {
        Some(d) => d,
        None => {
            return Err(RokError::EncodingError(String::from_str("invalid base58")));
        },
    };
    let n = data.len();
    if n < 5 {
        return Err(RokError::EncodingError(String::from_str("encoded data too short")));
    }
    let tag = data[0];
    if tag != expected_tag {
        return Err(RokError::InvalidTypeTag { expected: expected_tag, got: tag });
    }
    let content = copy_range(data.as_slice(), 0, n - 4);
    let cs_bytes = copy_range(data.as_slice(), n - 4, 4);
    let expected_cs = checksum(content.as_slice());
    if !bytes_equal(cs_bytes.as_slice(), &expected_cs) {
        return Err(RokError::InvalidChecksum);
    }
    Ok(copy_range(data.as_slice(), 1, n - 5))
}

/// Reads a scope from its UTF-8 bytes.
fn read_scope_bytes(data: &[u8], start: usize) -> (r: Result<Scope>)
    requires
        start <= data@.len(),
    ensures
        match scope_from_bytes(data@.subrange(start as int, data@.len() as int)) {
            Ok(s) => r matches Ok(sc) && sc@ == s,
            Err(f) => r matches Err(e) && reports_codec_fault(f, 0, e),
        },
{
    let b = copy_range(data, start, data.len() - start);
    match utf8_str(b.as_slice()) {
        None => Err(RokError::EncodingError(String::from_str("invalid scope utf8"))),
        Some(text) => Scope::new(text),
    }
}

proof fn lemma_tagged_roundtrip_scope(s: Seq<char>)
    requires
        valid_scope(s),
    ensures
        scope_from_bytes(encode_utf8(s)) == Decoded::Ok(s),
{
    vstd::utf8::encode_utf8_valid_utf8(s);
    vstd::utf8::encode_utf8_decode_utf8(s);
}

/// Encode a spend (Ed25519) public key to a human-readable string; decoding it gives the
/// key back when the bytes are a valid verifying key.
pub fn encode_spend_public(key: &[u8; 32]) -> (s: String)
    ensures
        untagged(s@, TAG_SPEND_PUBLIC) == Decoded::Ok(key@),
        spend_public_decoded(s@) == if ed25519_key_decodes(key@) {
            Decoded::Ok(key@)
        } else {
            Decoded::Err(CodecFault::BadKey)
        },
{
    encode_with_tag(TAG_SPEND_PUBLIC, key)
}

/// Decode a spend public key from its encoded form.
pub fn decode_spend_public(encoded: &str) -> (r: Result<[u8; 32]>)
    ensures
        match spend_public_decoded(encoded@) {
            Ok(k) => r matches Ok(a) && a@ == k,
            Err(f) => r matches Err(e) && reports_codec_fault(f, TAG_SPEND_PUBLIC, e),
        },
{
    let bytes = decode_with_tag(encoded, TAG_SPEND_PUBLIC)?;
    if bytes.len() != 32 {
        return Err(RokError::EncodingError(String::from_str("expected 32 bytes")));
    }
    let arr = array32(bytes.as_slice(), 0);
    assert(arr@ =~= bytes@);
    if !ed25519_key_is_valid(&arr) {
        return Err(RokError::InvalidKeyMaterial);
    }
    Ok(arr)
}

/// Encode a read (X25519) public key with its scope: the 32 key bytes, then the scope.
pub fn encode_read_public(key: &[u8; 32], scope: &Scope) -> (s: String)
    ensures
        untagged(s@, TAG_READ_PUBLIC) == Decoded::Ok(key@ + encode_utf8(scope@)),
        read_public_decoded(s@) == Decoded::Ok((key@, scope@)),
{
    let mut payload: Vec<u8> = Vec::new();
    push_bytes(&mut payload, key);
    push_bytes(&mut payload, scope.as_str().as_bytes());
    let s = encode_with_tag(TAG_READ_PUBLIC, payload.as_slice());
    proof {
        use_type_invariant(scope);
        lemma_tagged_roundtrip_scope(scope@);
        let p = payload@;
        assert(p.subrange(0, 32) =~= key@);
        assert(p.subrange(32, p.len() as int) =~= encode_utf8(scope@));
    }
    s
}

/// Decode a read public key and its scope.
pub fn decode_read_public(encoded: &str) -> (r: Result<([u8; 32], Scope)>)
    ensures
        match read_public_decoded(encoded@) {
            Ok((k, sc)) => r matches Ok((a, s)) && a@ == k && s@ == sc,
            Err(f) => r matches Err(e) && reports_codec_fault(f, TAG_READ_PUBLIC, e),
        },
{
    let bytes = decode_with_tag(encoded, TAG_READ_PUBLIC)?;
    if bytes.len() < 33 {
        return Err(RokError::EncodingError(String::from_str("read public key too short")));
    }
    let key = array32(bytes.as_slice(), 0);
    let scope = read_scope_bytes(bytes.as_slice(), 32)?;
    Ok((key, scope))
}

/// Encode an exported read key (includes the secret: handle with care).
pub fn encode_exported_read_key(exported: &ExportedReadKey) -> (s: String)
    ensures
        untagged(s@, TAG_READ_SECRET) == Decoded::Ok(exported_payload(exported@)),
        exported_decoded(s@) == Decoded::Ok(exported@),
{
    let mut payload: Vec<u8> = Vec::new();
    push_bytes(&mut payload, &exported.secret_bytes);
    push_bytes(&mut payload, &exported.public_bytes);
    match &exported.parent_key_id {
        Some(parent_id) => {
            payload.push(1);
            push_bytes(&mut payload, parent_id.as_bytes());
            proof {
                lemma_key_id_len(*parent_id);
            }
        },
        None => {
            payload.push(0);
        },
    }
    push_bytes(&mut payload, exported.scope.as_str().as_bytes());
    let s = encode_with_tag(TAG_READ_SECRET, payload.as_slice());
    proof {
        use_type_invariant(&exported.scope);
        lemma_tagged_roundtrip_scope(exported.scope@);
        let p = payload@;
        let e = exported@;
        assert(p =~= exported_payload(e));
        let start: int = if e.parent_key_id is Some { 73 } else { 65 };
        assert(p.subrange(0, 32) =~= e.secret);
        assert(p.subrange(32, 64) =~= e.public);
        assert(p.subrange(start, p.len() as int) =~= encode_utf8(e.scope));
        if e.parent_key_id is Some {
            assert(p.subrange(65, 73) =~= e.parent_key_id->Some_0);
        }
        assert(encode_utf8(e.scope).len() >= 1);
    }
    s
}

/// Decode an exported read key.
pub fn decode_exported_read_key(encoded: &str) -> (r: Result<ExportedReadKey>)
    ensures
        match exported_decoded(encoded@) {
            Ok(v) => r matches Ok(e) && e@ == v,
            Err(f) => r matches Err(e) && reports_codec_fault(f, TAG_READ_SECRET, e),
        },
{
    let bytes = decode_with_tag(encoded, TAG_READ_SECRET)?;
    let n = bytes.len();
    if n < 65 {
        return Err(RokError::EncodingError(String::from_str("exported read key too short")));
    }
    let secret_bytes = array32(bytes.as_slice(), 0);
    let public_bytes = array32(bytes.as_slice(), 32);
    let has_parent = bytes[64];
    let parent_key_id: Option<KeyId>;
    let scope_start: usize;
    if has_parent == 1 {
        if n < 73 {
            return Err(RokError::EncodingError(String::from_str("missing parent key id")));
        }
        parent_key_id = Some(KeyId::from_bytes(array8(bytes.as_slice(), 65)));
        scope_start = 73;
    } else if has_parent == 0 {
        parent_key_id = None;
        scope_start = 65;
    } else {
        return Err(RokError::EncodingError(String::from_str("invalid parent flag")));
    }
    let scope = read_scope_bytes(bytes.as_slice(), scope_start)?;
    Ok(ExportedReadKey { secret_bytes, public_bytes, scope, parent_key_id })
}

} // verus!
