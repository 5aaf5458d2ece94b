//! What the command-line tool computes for each of its commands, apart from reading and
//! writing files and printing.
use vstd::prelude::*;
use crate::crypto::{ed25519_accepts, ed25519_verifying_key, hex_bytes, hex_decode};
use crate::encoding::{decode_exported_read_key, decode_read_public, exported_decoded, read_public_decoded};
use crate::encrypt::{
    decrypt, decrypt_outcome, sealed_for, AccessMode, Algorithm, BuilderView,
    DecryptOutcome, EncryptBuilder, Recipient,
};
use crate::envelope::EncryptedEnvelope;
use crate::error::{Result, RokError};
use crate::keyring::{KeyStore, ReadKeyInfo};
use crate::keys::key_id::KeyId;
use crate::keys::read::ReadKeyPair;
use crate::keys::scope::{root_path, valid_scope, Scope};
use crate::keys::spend::SpendKeyPair;
use crate::pq::envelope::{hybrid_decrypt, hybrid_decrypt_outcome, hybrid_encrypt, hybrid_sealed_for};
use crate::sdk::keyring::MemoryKeyring;
use crate::sectioned::{SectionedEnvelope, SectionedEnvelopeBuilder};
use crate::text::usize_to_decimal;

verus! {

/// Serialization format of envelope files.
#[derive(Debug, Clone, Copy, PartialEq, Eq, Structural)]
pub enum Format {
    Binary,
    Proto,
}

/// Encryption algorithm chosen on the command line.
#[derive(Debug, Clone, Copy, PartialEq, Eq, Structural)]
pub enum AlgorithmChoice {
    Classical,
    Hybrid,
}

/// Why a command fails: a library error, or a misuse of the command's arguments.
#[derive(Debug)]
pub enum CommandError {
    Rok(RokError),
    Usage(String),
}

impl CommandError {
    /// The error's text.
    pub fn message(&self) -> (s: String)
        ensures
            s@ == match self {
                CommandError::Rok(e) => crate::error::error_text(*e),
                CommandError::Usage(m) => m@,
            },
    {
        match self {
            CommandError::Rok(e) => e.message(),
            CommandError::Usage(m) => m.clone(),
        }
    }
}

fn usage(text: &str) -> (e: CommandError)
    ensures
        e matches CommandError::Usage(m) && m@ == text@,
{
    CommandError::Usage(String::from_str(text))
}

/// The spend key of a hex seed: the seed must be hex of exactly 32 bytes.
pub fn parse_spend_seed(hex: &str) -> (r: core::result::Result<SpendKeyPair, CommandError>)
    ensures
        r is Ok <==> (hex_bytes(hex@) matches Some(b) && b.len() == 32),
        r matches Ok(k) ==> hex_bytes(hex@) == Some(k@.seed) && k@.public == ed25519_verifying_key(
            k@.seed,
        ),
        r matches Err(e) ==> e is Usage,
{
    let bytes = match hex_decode(hex) {
        Some(b) => b,
        None => return Err(usage("invalid hex: not a hex string of whole bytes")),
    };
    if bytes.len() != 32 {
        return Err(usage("spend seed must be 32 bytes (64 hex chars)"));
    }
    let seed = crate::bytes::array32(bytes.as_slice(), 0);
    assert(bytes@.subrange(0, 32) =~= bytes@);
    Ok(SpendKeyPair::from_seed(&seed))
}

/// The read key of an encoded exported read key.
pub fn load_read_key(encoded: &str) -> (r: Result<ReadKeyPair>)
    ensures
        r is Ok <==> (exported_decoded(encoded@) matches Ok(v) && v.public == crate::crypto::x25519_public_key(
            v.secret,
        )),
        r matches Ok(k) ==> exported_decoded(encoded@) matches Ok(v) && k@.secret == v.secret
            && k@.public == v.public && k@.scope == v.scope && k@.parent_key_id == v.parent_key_id,
{
    let exported = decode_exported_read_key(encoded)?;
    ReadKeyPair::import(&exported)
}

/// Reads an envelope in the given format.
pub fn decode_envelope(data: &[u8], format: Format) -> (r: Result<EncryptedEnvelope>)
    ensures
        match format {
            Format::Binary => match crate::envelope::parse_envelope(data@) {
                Ok(v) => r matches Ok(e) && e@ == v,
                Err(_) => r is Err,
            },
            Format::Proto => match crate::proto::envelope_from_proto(data@) {
                Ok(v) => r matches Ok(e) && e@ == v,
                Err(_) => r is Err,
            },
        },
{
    match format {
        Format::Binary => EncryptedEnvelope::from_bytes(data),
        Format::Proto => EncryptedEnvelope::from_proto_bytes(data),
    }
}

/// Writes an envelope in the given format.
pub fn encode_envelope(envelope: &EncryptedEnvelope, format: Format) -> (r: Vec<u8>)
    ensures
        r@ == match format {
            Format::Binary => crate::envelope::envelope_bytes(envelope@),
            Format::Proto => crate::proto::rok::envelope_msg_bytes(
                crate::proto::envelope_message_of(envelope@),
            ),
        },
{
    match format {
        Format::Binary => envelope.to_bytes(),
        Format::Proto => envelope.to_proto_bytes(),
    }
}

/// What decrypting an envelope gives, by its algorithm.
#[verifier::opaque]
pub open spec fn decrypt_by_algorithm(env: crate::envelope::EnvelopeView, k: crate::keys::read::ReadKeyView, vk: Seq<u8>) -> DecryptOutcome {
    match env.algorithm {
        Algorithm::HybridX25519MlKemChaCha20 => hybrid_decrypt_outcome(env, k, vk),
        Algorithm::EciesX25519ChaCha20 => decrypt_outcome(env, k, vk),
    }
}

/// Decrypts an envelope with the method its algorithm calls for.
pub fn decrypt_envelope(envelope: &EncryptedEnvelope, read_key: &ReadKeyPair, spend_verifying_key: &[u8; 32]) -> (r: Result<Vec<u8>>)
    ensures
        match decrypt_by_algorithm(envelope@, read_key@, spend_verifying_key@) {
            DecryptOutcome::Plaintext(pt) => r matches Ok(p) && p@ == pt,
            DecryptOutcome::BadSignature => r matches Err(e) && e is SignatureVerificationFailed,
            DecryptOutcome::ScopeMismatch => r matches Err(e) && e is ScopeMismatch,
            DecryptOutcome::NoEntry => r matches Err(e) && e is NoMatchingAccessEntry,
            DecryptOutcome::Undecryptable => r matches Err(e) && e is DecryptionError,
        },
{
    proof {
        reveal(decrypt_by_algorithm);
    }
    match envelope.algorithm {
        Algorithm::HybridX25519MlKemChaCha20 => hybrid_decrypt(envelope, read_key, spend_verifying_key),
        Algorithm::EciesX25519ChaCha20 => decrypt(envelope, read_key, spend_verifying_key),
    }
}

/// The name of a decrypted file: without a `.rok` suffix, or with `.dec` appended.
pub open spec fn decrypted_file_name(name: Seq<char>) -> Seq<char> {
    let sfx = ".rok"@;
    if name.len() >= sfx.len() && name.subrange(name.len() - sfx.len(), name.len() as int) == sfx {
        name.subrange(0, name.len() - sfx.len())
    } else {
        name + ".dec"@
    }
}

/// The name of a decrypted file.
pub fn decrypted_name(name: &str) -> (r: String)
    ensures
        r@ == decrypted_file_name(name@),
{
    proof {
        reveal_strlit(".rok");
    }
    let n = name.unicode_len();
    if n >= 4 && name.get_char(n - 4) == '.' && name.get_char(n - 3) == 'r' && name.get_char(n - 2) == 'o'
        && name.get_char(n - 1) == 'k' {
        assert(name@.subrange(n - 4, n as int) =~= ".rok"@);
        String::from_str(name.substring_char(0, n - 4))
    } else {
        proof {
            if n >= 4 {
                assert(name@.subrange(n - 4, n as int) != ".rok"@) by {
                    if name@.subrange(n - 4, n as int) == ".rok"@ {
                        assert(name@.subrange(n - 4, n as int)[0] == name@[n - 4]);
                        assert(name@.subrange(n - 4, n as int)[1] == name@[n - 3]);
                        assert(name@.subrange(n - 4, n as int)[2] == name@[n - 2]);
                        assert(name@.subrange(n - 4, n as int)[3] == name@[n - 1]);
                    }
                }
            }
        }
        let mut r = String::from_str(name);
        r.append(".dec");
        r
    }
}

// ---------------------------------------------------------------------------
// Encrypting
// ---------------------------------------------------------------------------

/// The builder a classical encryption command sets up.
pub open spec fn classical_builder(spend: crate::keys::spend::SpendKeyView, scope: Seq<char>, scope_based: bool, rs: Seq<Recipient>) -> BuilderView {
    BuilderView {
        algorithm: Algorithm::EciesX25519ChaCha20,
        scope,
        recipients: rs,
        spend_key: Some(spend),
        scope_based,
    }
}

/// Whether `rc` is the recipient of the encoded read public key `enc`: its key and the
/// key's identifier.
pub open spec fn decoded_recipient(enc: Seq<char>, rc: Recipient) -> bool {
    read_public_decoded(enc) matches Ok((k, _)) && rc.read_public_key@ == k && rc.key_id@
        == crate::keys::key_id::key_id_of(k)
}

/// The recipients of encoded read public keys, each with its key identifier.
pub fn decode_recipients(encoded: &Vec<String>) -> (r: Result<Vec<Recipient>>)
    ensures
        r is Ok <==> forall|i: int| 0 <= i < encoded@.len() ==> read_public_decoded(#[trigger] encoded@[i]@) is Ok,
        r matches Ok(v) ==> v@.len() == encoded@.len() && forall|i: int|
            0 <= i < v@.len() ==> decoded_recipient(encoded@[i]@, #[trigger] v@[i]),
{
    let mut out: Vec<Recipient> = Vec::new();
    let mut i: usize = 0;
    while i < encoded.len()
        invariant
            i <= encoded@.len(),
            out@.len() == i,
            forall|j: int| 0 <= j < i ==> read_public_decoded(#[trigger] encoded@[j]@) is Ok,
            forall|j: int| 0 <= j < i ==> decoded_recipient(encoded@[j]@, #[trigger] out@[j]),
        decreases encoded@.len() - i,
    {
        let (public_key, _scope) = decode_read_public(encoded[i].as_str())?;
        let key_id = KeyId::from_public_bytes(&public_key);
        out.push(Recipient { read_public_key: public_key, key_id });
        i = i + 1;
    }
    Ok(out)
}

/// Whether a plaintext of this length is within the cipher's limit.
pub open spec fn within_limit(len: nat) -> bool {
    len / 64 < 4294967295
}

/// Encrypts data as the encrypt command does. Hybrid encryption is scope-based only: it
/// needs the scope-based flag and no recipients. Classical encryption is scope-based with
/// the flag, and otherwise needs at least one recipient.
pub fn encrypt_data(
    spend: &SpendKeyPair,
    scope: Scope,
    algorithm: AlgorithmChoice,
    scope_based: bool,
    recipients: &Vec<String>,
    plaintext: &[u8],
) -> (r: core::result::Result<EncryptedEnvelope, CommandError>)
    ensures
        algorithm == AlgorithmChoice::Hybrid && !scope_based ==> (r matches Err(e) && e is Usage),
        algorithm == AlgorithmChoice::Hybrid && scope_based && recipients@.len() > 0 ==> (r matches Err(e)
            && e is Usage),
        algorithm == AlgorithmChoice::Hybrid ==> (r is Ok <==> scope_based && recipients@.len() == 0
            && within_limit(plaintext@.len())),
        algorithm == AlgorithmChoice::Classical && !scope_based && recipients@.len() == 0 ==> (r matches Err(e)
            && e is Usage),
        algorithm == AlgorithmChoice::Classical && scope_based ==> (r is Ok <==> within_limit(plaintext@.len())),
        algorithm == AlgorithmChoice::Classical && !scope_based ==> (r is Ok <==> recipients@.len() > 0
            && within_limit(plaintext@.len()) && forall|i: int|
            0 <= i < recipients@.len() ==> read_public_decoded(#[trigger] recipients@[i]@) is Ok),
        r matches Ok(e) ==> e@.scope == scope@ && e@.spend_public_key == spend@.public && e@.algorithm
            == match algorithm {
            AlgorithmChoice::Hybrid => Algorithm::HybridX25519MlKemChaCha20,
            AlgorithmChoice::Classical => Algorithm::EciesX25519ChaCha20,
        } && (scope_based ==> e@.access_mode == AccessMode::ScopeBased),
        algorithm == AlgorithmChoice::Hybrid ==> (r matches Ok(e) ==> hybrid_sealed_for(
            e@,
            spend@.seed,
            spend@.public,
            scope@,
            plaintext@,
        )),
        algorithm == AlgorithmChoice::Classical && scope_based ==> (r matches Ok(e) ==> sealed_for(
            e@,
            classical_builder(spend@, scope@, true, Seq::empty()),
            plaintext@,
        )),
        algorithm == AlgorithmChoice::Classical && !scope_based ==> (r matches Ok(e) ==> exists|rs: Seq<Recipient>|
            {
                &&& rs.len() == recipients@.len()
                &&& forall|i: int| 0 <= i < rs.len() ==> decoded_recipient(recipients@[i]@, #[trigger] rs[i])
                &&& sealed_for(e@, classical_builder(spend@, scope@, false, rs), plaintext@)
            }),
{
    match algorithm {
        AlgorithmChoice::Hybrid => {
            if !scope_based {
                return Err(usage("hybrid algorithm requires --scope-based"));
            }
            if recipients.len() > 0 {
                return Err(usage("hybrid algorithm does not support --recipient (scope-based only)"));
            }
            match hybrid_encrypt(plaintext, &scope, spend) {
                Ok(e) => Ok(e),
                Err(e) => Err(CommandError::Rok(e)),
            }
        },
        AlgorithmChoice::Classical => {
            let ghost sv = scope@;
            let mut builder = EncryptBuilder::new(Algorithm::EciesX25519ChaCha20, scope);
            builder.set_spend_key(spend);
            if scope_based {
                builder.set_scope_based();
                assert(builder@ == classical_builder(spend@, sv, true, Seq::empty()));
            } else {
                let rs = match decode_recipients(recipients) {
                    Ok(v) => v,
                    Err(e) => return Err(CommandError::Rok(e)),
                };
                if rs.len() == 0 {
                    return Err(usage("at least one --recipient is required, or use --scope-based"));
                }
                builder.add_recipients(rs.as_slice());
                assert(builder@ == classical_builder(spend@, sv, false, rs@));
            }
            match builder.encrypt(plaintext) {
                Ok(e) => Ok(e),
                Err(e) => Err(CommandError::Rok(e)),
            }
        },
    }
}

// ---------------------------------------------------------------------------
// Sections
// ---------------------------------------------------------------------------

/// A section definition: `name:scope:file`.
#[derive(Debug)]
pub struct SectionDef {
    pub name: String,
    pub scope: String,
    pub file: String,
}

/// The index of the first occurrence of `c` in `s` at or after `from`, or -1.
pub open spec fn index_from(s: Seq<char>, c: char, from: int) -> int
    decreases s.len() - from,
{
    if from < 0 || from >= s.len() {
        -1
    } else if s[from] == c {
        from
    } else {
        index_from(s, c, from + 1)
    }
}

/// The parts of a section flag, split at its first two colons.
pub open spec fn flag_parts(f: Seq<char>) -> Option<(Seq<char>, Seq<char>, Seq<char>)> {
    let a = index_from(f, ':', 0);
    if a < 0 {
        None
    } else {
        let b = index_from(f, ':', a + 1);
        if b < 0 {
            None
        } else {
            Some((f.subrange(0, a), f.subrange(a + 1, b), f.subrange(b + 1, f.len() as int)))
        }
    }
}

proof fn lemma_index_from(s: Seq<char>, c: char, from: int)
    requires
        0 <= from,
    ensures
        index_from(s, c, from) == -1 || (from <= index_from(s, c, from) < s.len() && s[index_from(s, c, from)] == c),
    decreases s.len() - from,
{
    if from < s.len() && s[from] != c {
        lemma_index_from(s, c, from + 1);
    }
}

fn find_from(s: &str, c: char, from: usize) -> (r: Option<usize>)
    ensures
        match r {
            Some(i) => i == index_from(s@, c, from as int),
            None => index_from(s@, c, from as int) == -1,
        },
{
    let n = s.unicode_len();
    let mut i = from;
    while i < n
        invariant
            n == s@.len(),
            from <= i,
            index_from(s@, c, from as int) == index_from(s@, c, i as int),
        decreases n - i,
    {
        if s.get_char(i) == c {
            return Some(i);
        }
        i = i + 1;
    }
    None
}

/// Parses `name:scope:file` section flags; the file part may hold further colons.
pub fn parse_section_flags(flags: &Vec<String>) -> (r: core::result::Result<Vec<SectionDef>, CommandError>)
    ensures
        r is Ok <==> forall|i: int| 0 <= i < flags@.len() ==> flag_parts(#[trigger] flags@[i]@) is Some,
        r matches Err(e) ==> e is Usage,
        r matches Ok(v) ==> v@.len() == flags@.len() && forall|i: int|
            0 <= i < v@.len() ==> flag_parts(flags@[i]@) == Some(
                ((#[trigger] v@[i]).name@, v@[i].scope@, v@[i].file@),
            ),
{
    let mut defs: Vec<SectionDef> = Vec::new();
    let mut i: usize = 0;
    while i < flags.len()
        invariant
            i <= flags@.len(),
            defs@.len() == i,
            forall|j: int| 0 <= j < i ==> flag_parts(#[trigger] flags@[j]@) is Some,
            forall|j: int|
                0 <= j < i ==> flag_parts(flags@[j]@) == Some(
                    ((#[trigger] defs@[j]).name@, defs@[j].scope@, defs@[j].file@),
                ),
        decreases flags@.len() - i,
    {
        let flag = flags[i].as_str();
        let n = flag.unicode_len();
        proof {
            lemma_index_from(flag@, ':', 0);
        }
        let a = match find_from(flag, ':', 0) {
            Some(a) => a,
            None => {
                let mut m = String::from_str("invalid --section format '");
                m.append(flag);
                m.append("': expected name:scope:file");
                return Err(CommandError::Usage(m));
            },
        };
        proof {
            lemma_index_from(flag@, ':', a + 1);
        }
        let b = match find_from(flag, ':', a + 1) {
            Some(b) => b,
            None => {
                let mut m = String::from_str("invalid --section format '");
                m.append(flag);
                m.append("': expected name:scope:file");
                return Err(CommandError::Usage(m));
            },
        };
        defs.push(
            SectionDef {
                name: String::from_str(flag.substring_char(0, a)),
                scope: String::from_str(flag.substring_char(a + 1, b)),
                file: String::from_str(flag.substring_char(b + 1, n)),
            },
        );
        i = i + 1;
    }
    Ok(defs)
}

/// Whether one section encrypts: its scope is valid, its plaintext within the cipher's
/// limit, and classical encryption is scope-based (sections have no recipients).
pub open spec fn section_encrypts(scope: Seq<char>, len: nat, algorithm: AlgorithmChoice, scope_based: bool) -> bool {
    &&& valid_scope(scope)
    &&& within_limit(len)
    &&& (algorithm == AlgorithmChoice::Classical ==> scope_based)
}

/// Whether a sectioned encryption succeeds: at least one section, each of which encrypts,
/// and no two with one name.
pub open spec fn sections_encrypt(defs: Seq<SectionDef>, plaintexts: Seq<Vec<u8>>, algorithm: AlgorithmChoice, scope_based: bool) -> bool {
    &&& defs.len() > 0
    &&& forall|i: int|
        0 <= i < defs.len() ==> section_encrypts(
            (#[trigger] defs[i]).scope@,
            plaintexts[i]@.len(),
            algorithm,
            scope_based,
        )
    &&& forall|i: int, j: int|
        0 <= i < defs.len() && 0 <= j < defs.len() && i != j ==> (#[trigger] defs[i]).name@
            != (#[trigger] defs[j]).name@
}

/// Whether `s` is the section that encrypting `pt` under the definition's scope makes:
/// its name and scope, the spend key, the algorithm, scope-based access, and for classical
/// encryption the envelope that the scope-based builder seals.
pub open spec fn encrypted_section(
    s: crate::sectioned::SectionView,
    name: Seq<char>,
    scope: Seq<char>,
    pt: Seq<u8>,
    spend: crate::keys::spend::SpendKeyView,
    algorithm: AlgorithmChoice,
) -> bool {
    &&& s.name == name
    &&& s.envelope.scope == scope
    &&& s.envelope.spend_public_key == spend.public
    &&& s.envelope.access_mode == AccessMode::ScopeBased
    &&& s.envelope.algorithm == match algorithm {
        AlgorithmChoice::Hybrid => Algorithm::HybridX25519MlKemChaCha20,
        AlgorithmChoice::Classical => Algorithm::EciesX25519ChaCha20,
    }
    &&& (algorithm == AlgorithmChoice::Classical ==> sealed_for(
        s.envelope,
        classical_builder(spend, scope, true, Seq::empty()),
        pt,
    ))
    &&& (algorithm == AlgorithmChoice::Hybrid ==> hybrid_sealed_for(s.envelope, spend.seed, spend.public, scope, pt))
}

/// Encrypts one plaintext per section definition and gathers them in a sectioned
/// envelope, as the sectioned encrypt command does; there must be at least one section.
pub fn encrypt_sections(
    spend: &SpendKeyPair,
    defs: &Vec<SectionDef>,
    plaintexts: &Vec<Vec<u8>>,
    algorithm: AlgorithmChoice,
    scope_based: bool,
) -> (r: core::result::Result<SectionedEnvelope, CommandError>)
    requires
        plaintexts@.len() == defs@.len(),
    ensures
        r is Ok <==> sections_encrypt(defs@, plaintexts@, algorithm, scope_based),
        defs@.len() == 0 ==> (r matches Err(e) && e is Usage),
        r matches Ok(s) ==> s@.version == crate::sectioned::SECTIONED_VERSION && s@.sections.len()
            == defs@.len() && forall|i: int|
            0 <= i < defs@.len() ==> encrypted_section(
                #[trigger] s@.sections[i],
                defs@[i].name@,
                defs@[i].scope@,
                plaintexts@[i]@,
                spend@,
                algorithm,
            ),
{
    if defs.len() == 0 {
        return Err(usage("at least one section is required"));
    }
    let mut builder = SectionedEnvelopeBuilder::new();
    let mut i: usize = 0;
    while i < defs.len()
        invariant
            i <= defs@.len(),
            plaintexts@.len() == defs@.len(),
            builder@.len() == i,
            forall|j: int|
                0 <= j < i ==> encrypted_section(
                    #[trigger] builder@[j],
                    defs@[j].name@,
                    defs@[j].scope@,
                    plaintexts@[j]@,
                    spend@,
                    algorithm,
                ),
            forall|j: int|
                0 <= j < i ==> section_encrypts(
                    (#[trigger] defs@[j]).scope@,
                    plaintexts@[j]@.len(),
                    algorithm,
                    scope_based,
                ),
            forall|j: int, k: int|
                0 <= j < i && 0 <= k < i && j != k ==> (#[trigger] defs@[j]).name@
                    != (#[trigger] defs@[k]).name@,
        decreases defs@.len() - i,
    {
        proof {
            use_type_invariant(&builder);
        }
        let def = &defs[i];
        let scope = match Scope::new(def.scope.as_str()) {
            Ok(s) => s,
            Err(e) => {
                assert(!section_encrypts(defs@[i as int].scope@, plaintexts@[i as int]@.len(), algorithm, scope_based));
                return Err(CommandError::Rok(e));
            },
        };
        let envelope = match algorithm {
            AlgorithmChoice::Hybrid => match hybrid_encrypt(plaintexts[i].as_slice(), &scope, spend) {
                Ok(e) => e,
                Err(e) => {
                    assert(!section_encrypts(defs@[i as int].scope@, plaintexts@[i as int]@.len(), algorithm, scope_based));
                    return Err(CommandError::Rok(e));
                },
            },
            AlgorithmChoice::Classical => {
                let ghost sv = scope@;
                let mut eb = EncryptBuilder::new(Algorithm::EciesX25519ChaCha20, scope);
                eb.set_spend_key(spend);
                if scope_based {
                    eb.set_scope_based();
                    assert(eb@ == classical_builder(spend@, sv, true, Seq::empty()));
                }
                match eb.encrypt(plaintexts[i].as_slice()) {
                    Ok(e) => e,
                    Err(e) => {
                        assert(!section_encrypts(defs@[i as int].scope@, plaintexts@[i as int]@.len(), algorithm, scope_based));
                        return Err(CommandError::Rok(e));
                    },
                }
            },
        };
        assert(section_encrypts(defs@[i as int].scope@, plaintexts@[i as int]@.len(), algorithm, scope_based));
        let ghost before = builder@;
        match builder.add_section(def.name.clone(), envelope) {
            Ok(_) => {},
            Err(e) => {
                proof {
                    let j = choose|j: int| 0 <= j < before.len() && (#[trigger] before[j]).name == def.name@;
                    assert(defs@[j].name@ == defs@[i as int].name@);
                }
                return Err(CommandError::Rok(e));
            },
        }
        assert(builder@[i as int].name == defs@[i as int].name@);
        assert forall|j: int, k: int|
            0 <= j < i + 1 && 0 <= k < i + 1 && j != k implies (#[trigger] defs@[j]).name@
                != (#[trigger] defs@[k]).name@ by {
            if j == i as int {
                assert(before[k].name != defs@[i as int].name@);
            } else if k == i as int {
                assert(before[j].name != defs@[i as int].name@);
            }
        }
        i = i + 1;
    }
    match builder.build() {
        Ok(s) => Ok(s),
        Err(e) => Err(CommandError::Rok(e)),
    }
}

/// What became of one section in a sectioned decryption.
pub enum SectionOutcome {
    /// The section decrypted to this plaintext.
    Decrypted(Vec<u8>),
    /// The read key has no access to the section.
    NoAccess,
}

/// Whether a section is wanted: every section when no names are given, else the named ones.
pub open spec fn section_wanted(names: Seq<Seq<char>>, name: Seq<char>) -> bool {
    names.len() == 0 || names.contains(name)
}

/// What a sectioned decryption gives for the sections in order: for each wanted section
/// its name with its plaintext, or with `None` where the key has no access to it (scope
/// mismatch, or no access entry); `None` as a whole where a wanted section fails otherwise.
pub open spec fn section_outcomes(
    secs: Seq<crate::sectioned::SectionView>,
    names: Seq<Seq<char>>,
    k: crate::keys::read::ReadKeyView,
    vk: Seq<u8>,
) -> Option<Seq<(Seq<char>, Option<Seq<u8>>)>>
    decreases secs.len(),
{
    if secs.len() == 0 {
        Some(Seq::empty())
    } else {
        match section_outcomes(secs.drop_last(), names, k, vk) {
            None => None,
            Some(prev) => {
                let s = secs.last();
                if !section_wanted(names, s.name) {
                    Some(prev)
                } else {
                    match decrypt_by_algorithm(s.envelope, k, vk) {
                        DecryptOutcome::Plaintext(pt) => Some(prev.push((s.name, Some(pt)))),
                        DecryptOutcome::ScopeMismatch => Some(prev.push((s.name, None))),
                        DecryptOutcome::NoEntry => Some(prev.push((s.name, None))),
                        _ => None,
                    }
                }
            },
        }
    }
}

/// Law: an envelope is decrypted with the method its algorithm calls for: a hybrid one as
/// `hybrid_decrypt` does, a classical one as `decrypt` does.
pub proof fn lemma_decrypt_by_algorithm(
    env: crate::envelope::EnvelopeView,
    k: crate::keys::read::ReadKeyView,
    vk: Seq<u8>,
)
    ensures
        env.algorithm is HybridX25519MlKemChaCha20 ==> decrypt_by_algorithm(env, k, vk) == hybrid_decrypt_outcome(
            env,
            k,
            vk,
        ),
        env.algorithm is EciesX25519ChaCha20 ==> decrypt_by_algorithm(env, k, vk) == crate::encrypt::decrypt_outcome(
            env,
            k,
            vk,
        ),
{
    reveal(decrypt_by_algorithm);
}

/// Law: each section is decrypted with the method its algorithm calls for, as
/// `decrypt_envelope` does (see `lemma_decrypt_by_algorithm`). A sectioned decryption
/// succeeds exactly when every wanted section decrypts or is out of the key's reach
/// (scope mismatch, no access entry); and then every wanted section that decrypts is
/// reported with its plaintext.
pub proof fn lemma_sections_by_algorithm(
    secs: Seq<crate::sectioned::SectionView>,
    names: Seq<Seq<char>>,
    k: crate::keys::read::ReadKeyView,
    vk: Seq<u8>,
)
    ensures
        section_outcomes(secs, names, k, vk) is Some <==> (forall|j: int|
            0 <= j < secs.len() && section_wanted(names, (#[trigger] secs[j]).name) ==> (decrypt_by_algorithm(
                secs[j].envelope,
                k,
                vk,
            ) is Plaintext || decrypt_by_algorithm(secs[j].envelope, k, vk) is ScopeMismatch || decrypt_by_algorithm(
                secs[j].envelope,
                k,
                vk,
            ) is NoEntry)),
        section_outcomes(secs, names, k, vk) matches Some(outs) ==> (forall|j: int|
            0 <= j < secs.len() && section_wanted(names, (#[trigger] secs[j]).name) ==> (decrypt_by_algorithm(
                secs[j].envelope,
                k,
                vk,
            ) matches DecryptOutcome::Plaintext(pt) ==> outs.contains((secs[j].name, Some(pt))))),
    decreases secs.len(),
{
    if secs.len() > 0 {
        let s0 = secs.drop_last();
        lemma_sections_by_algorithm(s0, names, k, vk);
        let n = secs.len() - 1;
        let last = secs[n];
        assert forall|j: int| 0 <= j < s0.len() implies #[trigger] s0[j] == secs[j] by {}
        if section_outcomes(secs, names, k, vk) is Some {
            let prev = section_outcomes(s0, names, k, vk)->Some_0;
            let outs = section_outcomes(secs, names, k, vk)->Some_0;
            assert forall|j: int|
                0 <= j < secs.len() && section_wanted(names, (#[trigger] secs[j]).name) implies (decrypt_by_algorithm(
                    secs[j].envelope,
                    k,
                    vk,
                ) is Plaintext || decrypt_by_algorithm(secs[j].envelope, k, vk) is ScopeMismatch || decrypt_by_algorithm(
                    secs[j].envelope,
                    k,
                    vk,
                ) is NoEntry) by {
                if j < n {
                    assert(s0[j] == secs[j]);
                }
            }
            assert forall|j: int|
                0 <= j < secs.len() && section_wanted(names, (#[trigger] secs[j]).name) implies (decrypt_by_algorithm(
                    secs[j].envelope,
                    k,
                    vk,
                ) matches DecryptOutcome::Plaintext(pt) ==> outs.contains((secs[j].name, Some(pt)))) by {
                let oj = decrypt_by_algorithm(secs[j].envelope, k, vk);
                if oj is Plaintext {
                    let pt = oj->Plaintext_0;
                    if j < n {
                        assert(s0[j] == secs[j]);
                        assert(prev.contains((secs[j].name, Some(pt))));
                        let x = choose|x: int| 0 <= x < prev.len() && prev[x] == (secs[j].name, Some(pt));
                        assert(outs[x] == prev[x]);
                    } else {
                        assert(outs[prev.len() as int] == (secs[j].name, Some(pt)));
                    }
                }
            }
        } else if section_outcomes(s0, names, k, vk) is Some {
            let o = decrypt_by_algorithm(last.envelope, k, vk);
            assert(section_wanted(names, secs[n].name));
            assert(!(o is Plaintext || o is ScopeMismatch || o is NoEntry));
            assert(!(decrypt_by_algorithm(secs[n].envelope, k, vk) is Plaintext || decrypt_by_algorithm(
                secs[n].envelope,
                k,
                vk,
            ) is ScopeMismatch || decrypt_by_algorithm(secs[n].envelope, k, vk) is NoEntry));
        } else {
            let j = choose|j: int|
                0 <= j < s0.len() && section_wanted(names, (#[trigger] s0[j]).name) && !(decrypt_by_algorithm(
                    s0[j].envelope,
                    k,
                    vk,
                ) is Plaintext || decrypt_by_algorithm(s0[j].envelope, k, vk) is ScopeMismatch || decrypt_by_algorithm(
                    s0[j].envelope,
                    k,
                    vk,
                ) is NoEntry);
            assert(s0[j] == secs[j]);
        }
    }
}

/// Whether `p` reports a wanted section: its name, with the plaintext the section's own
/// method gives, or with none where the section is out of the key's reach.
pub open spec fn reports_section(
    secs: Seq<crate::sectioned::SectionView>,
    names: Seq<Seq<char>>,
    k: crate::keys::read::ReadKeyView,
    vk: Seq<u8>,
    p: (Seq<char>, Option<Seq<u8>>),
) -> bool {
    exists|j: int|
        #![trigger secs[j]]
        0 <= j < secs.len() && section_wanted(names, secs[j].name) && p.0 == secs[j].name && match p.1 {
            Some(pt) => decrypt_by_algorithm(secs[j].envelope, k, vk) == DecryptOutcome::Plaintext(pt),
            None => decrypt_by_algorithm(secs[j].envelope, k, vk) is ScopeMismatch || decrypt_by_algorithm(
                secs[j].envelope,
                k,
                vk,
            ) is NoEntry,
        }
}

/// Law: a sectioned decryption reports wanted sections only, each truthfully, and leaves
/// none out: every reported pair is a wanted section's name with what its own method
/// gives, and every wanted section out of the key's reach is reported without plaintext.
pub proof fn lemma_sections_reported(
    secs: Seq<crate::sectioned::SectionView>,
    names: Seq<Seq<char>>,
    k: crate::keys::read::ReadKeyView,
    vk: Seq<u8>,
)
    ensures
        section_outcomes(secs, names, k, vk) matches Some(outs) ==> (forall|i: int|
            0 <= i < outs.len() ==> reports_section(secs, names, k, vk, #[trigger] outs[i])),
        section_outcomes(secs, names, k, vk) matches Some(outs) ==> (forall|j: int|
            0 <= j < secs.len() && section_wanted(names, (#[trigger] secs[j]).name) && (decrypt_by_algorithm(
                secs[j].envelope,
                k,
                vk,
            ) is ScopeMismatch || decrypt_by_algorithm(secs[j].envelope, k, vk) is NoEntry) ==> outs.contains(
                (secs[j].name, None),
            )),
    decreases secs.len(),
{
    if secs.len() > 0 {
        let s0 = secs.drop_last();
        lemma_sections_reported(s0, names, k, vk);
        let n = secs.len() - 1;
        let last = secs[n];
        assert forall|j: int| 0 <= j < s0.len() implies #[trigger] s0[j] == secs[j] by {}
        if section_outcomes(secs, names, k, vk) is Some {
            let prev = section_outcomes(s0, names, k, vk)->Some_0;
            let outs = section_outcomes(secs, names, k, vk)->Some_0;
            let o = decrypt_by_algorithm(last.envelope, k, vk);
            assert(outs == prev || (outs.len() == prev.len() + 1 && outs.drop_last() == prev && section_wanted(
                names,
                last.name,
            ) && outs.last().0 == last.name && match outs.last().1 {
                Some(pt) => o == DecryptOutcome::Plaintext(pt),
                None => o is ScopeMismatch || o is NoEntry,
            }));
            assert forall|i: int| 0 <= i < outs.len() implies reports_section(secs, names, k, vk, #[trigger] outs[i]) by {
                if i < prev.len() {
                    if outs != prev {
                        assert(outs[i] == outs.drop_last()[i]);
                    }
                    assert(outs[i] == prev[i]);
                    assert(reports_section(s0, names, k, vk, prev[i]));
                    let j = choose|j: int|
                        #![trigger s0[j]]
                        0 <= j < s0.len() && section_wanted(names, s0[j].name) && prev[i].0 == s0[j].name && match prev[i].1 {
                            Some(pt) => decrypt_by_algorithm(s0[j].envelope, k, vk) == DecryptOutcome::Plaintext(pt),
                            None => decrypt_by_algorithm(s0[j].envelope, k, vk) is ScopeMismatch || decrypt_by_algorithm(
                                s0[j].envelope,
                                k,
                                vk,
                            ) is NoEntry,
                        };
                    assert(secs[j] == s0[j]);
                } else {
                    assert(secs[n] == last);
                }
            }
            assert forall|j: int|
                0 <= j < secs.len() && section_wanted(names, (#[trigger] secs[j]).name) && (decrypt_by_algorithm(
                    secs[j].envelope,
                    k,
                    vk,
                ) is ScopeMismatch || decrypt_by_algorithm(secs[j].envelope, k, vk) is NoEntry) implies outs.contains(
                (secs[j].name, None),
            ) by {
                if j < n {
                    assert(s0[j] == secs[j]);
                    assert(prev.contains((secs[j].name, None)));
                    let x = choose|x: int| 0 <= x < prev.len() && prev[x] == (secs[j].name, None::<Seq<u8>>);
                    if outs != prev {
                        assert(outs[x] == outs.drop_last()[x]);
                    }
                    assert(outs[x] == prev[x]);
                } else {
                    assert(outs[prev.len() as int] == (secs[j].name, None::<Seq<u8>>));
                }
            }
        }
    }
}

/// The (name, plaintext or `None`) view of decrypted sections.
pub open spec fn outcome_views(v: Seq<(String, SectionOutcome)>) -> Seq<(Seq<char>, Option<Seq<u8>>)> {
    v.map_values(
        |p: (String, SectionOutcome)|
            (
                p.0@,
                match p.1 {
                    SectionOutcome::Decrypted(pt) => Some(pt@),
                    SectionOutcome::NoAccess => None,
                },
            ),
    )
}

proof fn lemma_outcomes_fail_onward(
    secs: Seq<crate::sectioned::SectionView>,
    n: int,
    names: Seq<Seq<char>>,
    k: crate::keys::read::ReadKeyView,
    vk: Seq<u8>,
)
    requires
        0 <= n <= secs.len(),
        section_outcomes(secs.subrange(0, n), names, k, vk) is None,
    ensures
        section_outcomes(secs, names, k, vk) is None,
    decreases secs.len() - n,
{
    if n < secs.len() {
        assert(secs.subrange(0, n + 1).drop_last() =~= secs.subrange(0, n));
        lemma_outcomes_fail_onward(secs, n + 1, names, k, vk);
    } else {
        assert(secs.subrange(0, n) =~= secs);
    }
}

/// Decrypts the sections of a sectioned envelope, as the sectioned decrypt command does:
/// only the named sections where names are given; a section the key has no access to
/// (scope mismatch, or no access entry) is reported and skipped, and any other failure
/// fails the whole command.
pub fn decrypt_sections(
    sectioned: &SectionedEnvelope,
    read_key: &ReadKeyPair,
    spend_verifying_key: &[u8; 32],
    names: &Vec<String>,
) -> (r: Result<Vec<(String, SectionOutcome)>>)
    ensures
        match section_outcomes(
            sectioned@.sections,
            crate::sdk::policy::string_views(names@),
            read_key@,
            spend_verifying_key@,
        ) {
            Some(v) => r matches Ok(out) && outcome_views(out@) == v,
            None => r is Err,
        },
{
    let ghost secs = sectioned@.sections;
    let ghost nv = crate::sdk::policy::string_views(names@);
    let mut out: Vec<(String, SectionOutcome)> = Vec::new();
    let mut i: usize = 0;
    assert(secs.subrange(0, 0) =~= Seq::<crate::sectioned::SectionView>::empty());
    while i < sectioned.sections.len()
        invariant
            i <= sectioned.sections@.len(),
            secs == sectioned@.sections,
            secs.len() == sectioned.sections@.len(),
            nv == crate::sdk::policy::string_views(names@),
            section_outcomes(secs.subrange(0, i as int), nv, read_key@, spend_verifying_key@) == Some(
                outcome_views(out@),
            ),
        decreases sectioned.sections@.len() - i,
    {
        let section = &sectioned.sections[i];
        let ghost prev = out@;
        assert(secs[i as int] == section@);
        assert(secs.subrange(0, i + 1).drop_last() =~= secs.subrange(0, i as int));
        assert(secs.subrange(0, i + 1).last() == section@);
        let wanted = names.len() == 0 || contains_name(names, &section.name);
        assert(wanted == section_wanted(nv, section@.name));
        if wanted {
            match decrypt_envelope(&section.envelope, read_key, spend_verifying_key) {
                Ok(pt) => {
                    out.push((section.name.clone(), SectionOutcome::Decrypted(pt)));
                    assert(outcome_views(out@) =~= outcome_views(prev).push((section@.name, Some(pt@))));
                },
                Err(e) => {
                    match e {
                        RokError::ScopeMismatch { .. } | RokError::NoMatchingAccessEntry(_) => {
                            out.push((section.name.clone(), SectionOutcome::NoAccess));
                            assert(outcome_views(out@) =~= outcome_views(prev).push((section@.name, None)));
                        },
                        _ => {
                            proof {
                                lemma_outcomes_fail_onward(secs, i + 1, nv, read_key@, spend_verifying_key@);
                            }
                            return Err(e);
                        },
                    }
                },
            }
        }
        i = i + 1;
    }
    assert(secs.subrange(0, i as int) =~= secs);
    Ok(out)
}

fn contains_name(names: &Vec<String>, name: &String) -> (r: bool)
    ensures
        r == crate::sdk::policy::string_views(names@).contains(name@),
{
    let mut i: usize = 0;
    while i < names.len()
        invariant
            i <= names@.len(),
            forall|k: int| 0 <= k < i ==> names@[k]@ != name@,
        decreases names@.len() - i,
    {
        if names[i] == *name {
            assert(crate::sdk::policy::string_views(names@)[i as int] == name@);
            return true;
        }
        i = i + 1;
    }
    proof {
        if crate::sdk::policy::string_views(names@).contains(name@) {
            let k = choose|k: int|
                0 <= k < names@.len() && crate::sdk::policy::string_views(names@)[k] == name@;
            assert(names@[k]@ == name@);
        }
    }
    false
}

/// What an inspected file holds.
pub enum Inspected {
    Single(EncryptedEnvelope),
    Sectioned(SectionedEnvelope),
}

/// Whether bytes open with the sectioned magic `ROKS`.
pub open spec fn opens_sectioned(d: Seq<u8>) -> bool {
    d.len() >= 4 && d[0] == 82 && d[1] == 79 && d[2] == 75 && d[3] == 83
}

/// Reads an inspected file: in the binary format, a sectioned envelope where the bytes
/// open with its magic, else a single envelope; in the protobuf format, a sectioned
/// envelope where the bytes read as one with at least one section, else a single one.
pub fn inspect_data(data: &[u8], format: Format) -> (r: Result<Inspected>)
    ensures
        format == Format::Binary && opens_sectioned(data@) ==> match crate::sectioned::parse_sectioned(data@) {
            Ok(v) => r matches Ok(Inspected::Sectioned(s)) && s@ == v,
            Err(_) => r is Err,
        },
        format == Format::Binary && !opens_sectioned(data@) ==> match crate::envelope::parse_envelope(data@) {
            Ok(v) => r matches Ok(Inspected::Single(e)) && e@ == v,
            Err(_) => r is Err,
        },
        format == Format::Proto ==> match crate::proto::sectioned_from_proto(data@) {
            Ok(v) if v.sections.len() > 0 => r matches Ok(Inspected::Sectioned(s)) && s@ == v,
            _ => match crate::proto::envelope_from_proto(data@) {
                Ok(v) => r matches Ok(Inspected::Single(e)) && e@ == v,
                Err(_) => r is Err,
            },
        },
{
    match format {
        Format::Binary => {
            if data.len() >= 4 && data[0] == 82 && data[1] == 79 && data[2] == 75 && data[3] == 83 {
                let s = SectionedEnvelope::from_bytes(data)?;
                return Ok(Inspected::Sectioned(s));
            }
            let e = EncryptedEnvelope::from_bytes(data)?;
            Ok(Inspected::Single(e))
        },
        Format::Proto => {
            match SectionedEnvelope::from_proto_bytes(data) {
                Ok(s) => {
                    if s.sections.len() > 0 {
                        return Ok(Inspected::Sectioned(s));
                    }
                },
                Err(_) => {},
            }
            let e = EncryptedEnvelope::from_proto_bytes(data)?;
            Ok(Inspected::Single(e))
        },
    }
}

// ---------------------------------------------------------------------------
// Keys
// ---------------------------------------------------------------------------

/// The read key that the grant command hands out: the root key's child at the scope.
pub fn grant_key(spend: &SpendKeyPair, scope: &Scope) -> (r: Result<ReadKeyPair>)
    ensures
        r is Ok <==> scope@ != root_path(),
        r matches Ok(k) ==> k@.scope == scope@,
        r matches Ok(k) ==> k@.secret == crate::derive::scope_read_secret(spend@.seed, scope@) && k@.public
            == crate::crypto::x25519_public_key(k@.secret) && k@.parent_key_id == Some(
            crate::keys::key_id::key_id_of(crate::crypto::x25519_public_key(crate::derive::root_read_secret(spend@.seed))),
        ),
{
    let root = spend.derive_root_read_key();
    proof {
        use_type_invariant(scope);
        crate::keys::scope::lemma_root_ancestor_of_all(scope@);
    }
    root.derive_child(scope)
}

/// Verifies a detached signature file: it must hold exactly 64 bytes.
pub fn verify_signature(verifying_key: &[u8; 32], data: &[u8], signature: &[u8]) -> (r: core::result::Result<(), CommandError>)
    ensures
        r is Ok <==> signature@.len() == 64 && ed25519_accepts(verifying_key@, data@, signature@),
        signature@.len() != 64 ==> (r matches Err(e) && e is Usage),
        signature@.len() == 64 && !ed25519_accepts(verifying_key@, data@, signature@) ==> (r matches Err(
            CommandError::Rok(e),
        ) && e is SignatureVerificationFailed),
{
    if signature.len() != 64 {
        let mut m = String::from_str("signature must be exactly 64 bytes, got ");
        let n = usize_to_decimal(signature.len());
        m.append(n.as_str());
        return Err(CommandError::Usage(m));
    }
    let sig = crate::bytes::array64(signature, 0);
    assert(signature@.subrange(0, 64) =~= signature@);
    match crate::sign::verify(verifying_key, data, &sig) {
        Ok(()) => Ok(()),
        Err(e) => Err(CommandError::Rok(e)),
    }
}

/// Whether a key identifier is that of the root read key of a spend seed or of the key
/// derived at one of the scopes.
pub open spec fn listed_key_id(seed: Seq<u8>, scopes: Seq<String>, id: Seq<u8>) -> bool {
    id == root_key_id(seed) || exists|i: int| 0 <= i < scopes.len() && id == scoped_key_id(seed, #[trigger] scopes[i]@)
}

/// The keyring the keyring commands work on: the spend key under `default`, the root read
/// key, and the read key derived at each given scope, each of which must be derivable.
pub fn demo_keyring(spend: &SpendKeyPair, scopes: &Vec<String>) -> (r: Result<MemoryKeyring>)
    ensures
        r is Ok <==> forall|i: int| 0 <= i < scopes@.len() ==> derivable(#[trigger] scopes@[i]@),
        r matches Ok(k) ==> crate::sdk::keyring::spend_seed_of(k@.spend, "default"@) == Some(spend@.seed),
        r matches Ok(k) ==> forall|id: Seq<u8>|
            #[trigger] crate::sdk::keyring::read_entry_of(k@.read, id) is Some <==> listed_key_id(
                spend@.seed,
                scopes@,
                id,
            ),
{
    let root = spend.derive_root_read_key();
    let mut keyring = MemoryKeyring::new();
    let ghost sp0 = keyring@.spend;
    keyring.store_spend_key("default", spend)?;
    proof {
        reveal_strlit("default");
        crate::sdk::keyring::lemma_spend_store_load(sp0, "default"@, spend@.seed);
    }
    let ghost v0 = keyring@.read;
    keyring.store_read_key(&root)?;
    let ghost v1 = keyring@.read;
    assert forall|id: Seq<u8>|
        #[trigger] crate::sdk::keyring::read_entry_of(v1, id) is Some <==> id == root_key_id(spend@.seed) by {
        let e = choose|e: crate::sdk::keyring::ReadEntryView|
            e.info.key_id == crate::keys::key_id::key_id_of(root@.public) && v1 == crate::sdk::keyring::read_stored(v0, e);
        crate::sdk::keyring::lemma_store_keeps_others(v0, e, id);
    }
    let mut i: usize = 0;
    while i < scopes.len()
        invariant
            i <= scopes@.len(),
            root@.scope == root_path(),
            root@.secret == crate::derive::root_read_secret(spend@.seed),
            root@.public == crate::crypto::x25519_public_key(root@.secret),
            crate::sdk::keyring::spend_seed_of(keyring@.spend, "default"@) == Some(spend@.seed),
            forall|j: int| 0 <= j < i ==> derivable(#[trigger] scopes@[j]@),
            forall|id: Seq<u8>|
                #[trigger] crate::sdk::keyring::read_entry_of(keyring@.read, id) is Some <==> listed_key_id(
                    spend@.seed,
                    scopes@.subrange(0, i as int),
                    id,
                ),
        decreases scopes@.len() - i,
    {
        let scope = Scope::new(scopes[i].as_str())?;
        proof {
            use_type_invariant(&scope);
            crate::keys::scope::lemma_root_ancestor_of_all(scope@);
        }
        let derived = root.derive_child(&scope)?;
        let ghost va = keyring@.read;
        keyring.store_read_key(&derived)?;
        let ghost vb = keyring@.read;
        let ghost pre = scopes@.subrange(0, i as int);
        let ghost post = scopes@.subrange(0, i + 1);
        assert forall|id: Seq<u8>|
            #[trigger] crate::sdk::keyring::read_entry_of(vb, id) is Some <==> listed_key_id(spend@.seed, post, id) by {
            let e = choose|e: crate::sdk::keyring::ReadEntryView|
                e.info.key_id == crate::keys::key_id::key_id_of(derived@.public) && vb == crate::sdk::keyring::read_stored(va, e);
            crate::sdk::keyring::lemma_store_keeps_others(va, e, id);
            assert(crate::sdk::keyring::read_entry_of(va, id) is Some <==> listed_key_id(spend@.seed, pre, id));
            if listed_key_id(spend@.seed, pre, id) && id != root_key_id(spend@.seed) {
                let j = choose|j: int| 0 <= j < pre.len() && id == scoped_key_id(spend@.seed, #[trigger] pre[j]@);
                assert(post[j] == pre[j]);
            }
            if id == scoped_key_id(spend@.seed, scopes@[i as int]@) {
                assert(post[i as int] == scopes@[i as int]);
            }
            if listed_key_id(spend@.seed, post, id) && id != root_key_id(spend@.seed) {
                let j = choose|j: int| 0 <= j < post.len() && id == scoped_key_id(spend@.seed, #[trigger] post[j]@);
                if j < i {
                    assert(pre[j] == post[j]);
                }
            }
        }
        i = i + 1;
    }
    assert(scopes@.subrange(0, i as int) =~= scopes@);
    Ok(keyring)
}

/// The read keys the keyring list command shows: one for the root read key and one for
/// the key derived at each scope, and no others.
pub fn list_keyring(spend: &SpendKeyPair, scopes: &Vec<String>) -> (r: Result<Vec<ReadKeyInfo>>)
    ensures
        r is Ok <==> forall|i: int| 0 <= i < scopes@.len() ==> derivable(#[trigger] scopes@[i]@),
        r matches Ok(v) ==> forall|id: Seq<u8>|
            (exists|i: int| 0 <= i < v@.len() && (#[trigger] v@[i])@.key_id == id) <==> listed_key_id(
                spend@.seed,
                scopes@,
                id,
            ),
{
    let keyring = demo_keyring(spend, scopes)?;
    let r = keyring.list_read_keys();
    proof {
        let v = r->Ok_0;
        assert forall|id: Seq<u8>|
            (exists|i: int| 0 <= i < v@.len() && (#[trigger] v@[i])@.key_id == id) <==> listed_key_id(
                spend@.seed,
                scopes@,
                id,
            ) by {
            assert(crate::sdk::keyring::read_entry_of(keyring@.read, id) is Some <==> listed_key_id(
                spend@.seed,
                scopes@,
                id,
            ));
            if exists|i: int| 0 <= i < v@.len() && (#[trigger] v@[i])@.key_id == id {
                let i = choose|i: int| 0 <= i < v@.len() && (#[trigger] v@[i])@.key_id == id;
                assert(keyring@.read[i].info.key_id == id);
            }
            if crate::sdk::keyring::read_entry_of(keyring@.read, id) is Some {
                let i = choose|i: int| 0 <= i < keyring@.read.len() && keyring@.read[i].info.key_id == id;
                assert(v@[i]@.key_id == id);
            }
        }
    }
    r
}

/// The key identifier of the root read key of a spend seed.
pub open spec fn root_key_id(seed: Seq<u8>) -> Seq<u8> {
    crate::keys::key_id::key_id_of(crate::crypto::x25519_public_key(crate::derive::root_read_secret(seed)))
}

/// The secret of the read key that the root read key of a spend seed derives at a scope.
pub open spec fn scoped_secret(seed: Seq<u8>, scope: Seq<char>) -> Seq<u8> {
    crate::derive::read_secret_below(crate::derive::root_read_secret(seed), root_path(), scope)
}

/// The key identifier of the read key derived from a spend seed at a scope.
pub open spec fn scoped_key_id(seed: Seq<u8>, scope: Seq<char>) -> Seq<u8> {
    crate::keys::key_id::key_id_of(crate::crypto::x25519_public_key(scoped_secret(seed, scope)))
}

/// Whether the root read key derives a key at a scope: a valid scope other than the root.
pub open spec fn derivable(scope: Seq<char>) -> bool {
    valid_scope(scope) && scope != root_path()
}

/// The text of an optional argument.
pub open spec fn opt_text(o: Option<&str>) -> Option<Seq<char>> {
    match o {
        Some(s) => Some(s@),
        None => None,
    }
}

/// Whether the optional scope argument is absent or derivable.
pub open spec fn scope_arg_ok(scope: Option<Seq<char>>) -> bool {
    scope matches Some(s) ==> derivable(s)
}

/// Whether the keyring of a spend seed's root key and the key at the optional scope holds
/// the key identifier.
pub open spec fn seeded_holds(seed: Seq<u8>, scope: Option<Seq<char>>, id: Seq<u8>) -> bool {
    id == root_key_id(seed) || (scope matches Some(s) && id == scoped_key_id(seed, s))
}

/// The read key the keyring export command exports: the root key when the identifier is
/// the root key's, else the key derived at the given scope, which must carry the
/// identifier.
pub fn select_export_key(spend: &SpendKeyPair, key_id_text: &str, scope: Option<&str>) -> (r: core::result::Result<ReadKeyPair, CommandError>)
    ensures
        r is Ok <==> (crate::keys::key_id::key_id_from_text(key_id_text@) matches Some(id) && (id
            == root_key_id(spend@.seed) || (opt_text(scope) matches Some(s) && derivable(s) && id
            == scoped_key_id(spend@.seed, s)))),
        crate::keys::key_id::key_id_from_text(key_id_text@) is None ==> (r matches Err(e) && e is Rok),
        r matches Ok(k) ==> crate::keys::key_id::key_id_from_text(key_id_text@) == Some(
            crate::keys::key_id::key_id_of(k@.public),
        ),
        r matches Ok(k) ==> (k@.scope == root_path() && k@.secret == crate::derive::root_read_secret(spend@.seed))
            || (opt_text(scope) == Some(k@.scope) && k@.secret == scoped_secret(spend@.seed, k@.scope)),
        r is Ok && scope is None ==> (r matches Ok(k) && k@.scope == root_path()),
{
    let key_id = match KeyId::from_base58(key_id_text) {
        Ok(k) => k,
        Err(e) => return Err(CommandError::Rok(e)),
    };
    let root = spend.derive_root_read_key();
    if root.key_id() == key_id {
        return Ok(root);
    }
    match scope {
        Some(scope_text) => {
            let scope = match Scope::new(scope_text) {
                Ok(s) => s,
                Err(e) => return Err(CommandError::Rok(e)),
            };
            proof {
                use_type_invariant(&scope);
                crate::keys::scope::lemma_root_ancestor_of_all(scope@);
            }
            let derived = match root.derive_child(&scope) {
                Ok(d) => d,
                Err(e) => return Err(CommandError::Rok(e)),
            };
            if derived.key_id() != key_id {
                return Err(usage("derived key at the given scope has a different key id"));
            }
            Ok(derived)
        },
        None => Err(usage("key_id not found. Provide --scope to derive the matching key.")),
    }
}

/// The keyring that the revoke and delete commands work on: the root read key of the
/// spend key, and the key derived at the optional scope.
fn seeded_keyring(spend: &SpendKeyPair, scope: Option<&str>) -> (r: Result<MemoryKeyring>)
    ensures
        r is Ok <==> scope_arg_ok(opt_text(scope)),
        r matches Ok(k) ==> forall|id: Seq<u8>|
            #[trigger] crate::sdk::keyring::read_entry_of(k@.read, id) is Some <==> seeded_holds(
                spend@.seed,
                opt_text(scope),
                id,
            ),
{
    let root = spend.derive_root_read_key();
    let mut keyring = MemoryKeyring::new();
    let ghost v0 = keyring@.read;
    keyring.store_read_key(&root)?;
    let ghost v1 = keyring@.read;
    assert forall|id: Seq<u8>|
        #[trigger] crate::sdk::keyring::read_entry_of(v1, id) is Some <==> id == root_key_id(spend@.seed) by {
        let now = choose|now: u64|
            v1 == crate::sdk::keyring::read_stored(
                v0,
                crate::sdk::keyring::fresh_entry(
                    crate::keys::read::ExportedReadKeyView {
                        secret: root@.secret,
                        public: root@.public,
                        scope: root@.scope,
                        parent_key_id: root@.parent_key_id,
                    },
                    now,
                ),
            );
        crate::sdk::keyring::lemma_store_keeps_others(
            v0,
            crate::sdk::keyring::fresh_entry(
                crate::keys::read::ExportedReadKeyView {
                    secret: root@.secret,
                    public: root@.public,
                    scope: root@.scope,
                    parent_key_id: root@.parent_key_id,
                },
                now,
            ),
            id,
        );
    }
    match scope {
        Some(scope_text) => {
            let scope = Scope::new(scope_text)?;
            proof {
                use_type_invariant(&scope);
                crate::keys::scope::lemma_root_ancestor_of_all(scope@);
            }
            let derived = root.derive_child(&scope)?;
            keyring.store_read_key(&derived)?;
            let ghost v2 = keyring@.read;
            assert forall|id: Seq<u8>|
                #[trigger] crate::sdk::keyring::read_entry_of(v2, id) is Some <==> seeded_holds(
                    spend@.seed,
                    opt_text(Some(scope_text)),
                    id,
                ) by {
                let now = choose|now: u64|
                    v2 == crate::sdk::keyring::read_stored(
                        v1,
                        crate::sdk::keyring::fresh_entry(
                            crate::keys::read::ExportedReadKeyView {
                                secret: derived@.secret,
                                public: derived@.public,
                                scope: derived@.scope,
                                parent_key_id: derived@.parent_key_id,
                            },
                            now,
                        ),
                    );
                crate::sdk::keyring::lemma_store_keeps_others(
                    v1,
                    crate::sdk::keyring::fresh_entry(
                        crate::keys::read::ExportedReadKeyView {
                            secret: derived@.secret,
                            public: derived@.public,
                            scope: derived@.scope,
                            parent_key_id: derived@.parent_key_id,
                        },
                        now,
                    ),
                    id,
                );
                assert(crate::sdk::keyring::read_entry_of(v1, id) is Some <==> id == root_key_id(spend@.seed));
            }
        },
        None => {},
    }
    Ok(keyring)
}

/// The spend seed of a hex text, where it is hex of exactly 32 bytes.
pub open spec fn seed_of_hex(text: Seq<char>) -> Option<Seq<u8>> {
    match hex_bytes(text) {
        Some(b) => if b.len() == 32 {
            Some(b)
        } else {
            None
        },
        None => None,
    }
}

/// Revokes a key as the revoke command does, in the keyring of the spend seed's root read
/// key and the key derived at the optional scope; the key must be one of them.
pub fn revoke_in_keyring(key_id_text: &str, spend_seed: &str, scope: Option<&str>) -> (r: core::result::Result<KeyId, CommandError>)
    ensures
        r is Ok <==> (crate::keys::key_id::key_id_from_text(key_id_text@) matches Some(id) && seed_of_hex(
            spend_seed@,
        ) matches Some(seed) && scope_arg_ok(opt_text(scope)) && seeded_holds(seed, opt_text(scope), id)),
        r matches Ok(id) ==> crate::keys::key_id::key_id_from_text(key_id_text@) == Some(id@),
{
    let key_id = match KeyId::from_base58(key_id_text) {
        Ok(k) => k,
        Err(e) => return Err(CommandError::Rok(e)),
    };
    let spend = parse_spend_seed(spend_seed)?;
    let mut keyring = match seeded_keyring(&spend, scope) {
        Ok(k) => k,
        Err(e) => return Err(CommandError::Rok(e)),
    };
    assert(crate::sdk::keyring::read_entry_of(keyring@.read, key_id@) is Some <==> seeded_holds(
        spend@.seed,
        opt_text(scope),
        key_id@,
    ));
    match keyring.revoke_key(&key_id) {
        Ok(()) => Ok(key_id),
        Err(e) => {
            let mut m = String::from_str("Failed to revoke key: ");
            let t = e.message();
            m.append(t.as_str());
            Err(CommandError::Usage(m))
        },
    }
}

/// Deletes a key as the keyring delete command does: from the keyring of the spend seed's
/// root read key and the key derived at the optional scope, or from an empty keyring
/// without a spend seed; the key must be there.
pub fn delete_in_keyring(key_id_text: &str, spend_seed: Option<&str>, scope: Option<&str>) -> (r: core::result::Result<KeyId, CommandError>)
    ensures
        r is Ok <==> (crate::keys::key_id::key_id_from_text(key_id_text@) matches Some(id) && opt_text(spend_seed)
            matches Some(t) && seed_of_hex(t) matches Some(seed) && scope_arg_ok(opt_text(scope))
            && seeded_holds(seed, opt_text(scope), id)),
        r matches Ok(id) ==> crate::keys::key_id::key_id_from_text(key_id_text@) == Some(id@),
        spend_seed is None && crate::keys::key_id::key_id_from_text(key_id_text@) is Some ==> (r matches Err(e)
            && e is Usage),
{
    let key_id = match KeyId::from_base58(key_id_text) {
        Ok(k) => k,
        Err(e) => return Err(CommandError::Rok(e)),
    };
    let mut keyring = match spend_seed {
        Some(seed) => {
            let spend = parse_spend_seed(seed)?;
            let k = match seeded_keyring(&spend, scope) {
                Ok(k) => k,
                Err(e) => return Err(CommandError::Rok(e)),
            };
            assert(crate::sdk::keyring::read_entry_of(k@.read, key_id@) is Some <==> seeded_holds(
                spend@.seed,
                opt_text(scope),
                key_id@,
            ));
            k
        },
        None => MemoryKeyring::new(),
    };
    match keyring.delete_key(&key_id) {
        Ok(()) => Ok(key_id),
        Err(e) => {
            let mut m = String::from_str("Failed to delete key: ");
            let t = e.message();
            m.append(t.as_str());
            Err(CommandError::Usage(m))
        },
    }
}

fn optional_scope(scope: Option<&str>) -> (v: Vec<String>)
    ensures
        match scope {
            Some(s) => v@.len() == 1 && v@[0]@ == s@,
            None => v@.len() == 0,
        },
{
    let mut v: Vec<String> = Vec::new();
    match scope {
        Some(s) => v.push(String::from_str(s)),
        None => {},
    }
    v
}

// ---------------------------------------------------------------------------
// Output
// ---------------------------------------------------------------------------

/// Output format of command results.
#[derive(Debug, Clone, Copy, PartialEq, Eq, Structural)]
pub enum OutputFormat {
    Text,
    Json,
}

/// A key-value pair for display.
#[derive(Debug)]
pub struct KeyValue {
    pub key: String,
    pub value: String,
}

/// A titled output section of key-value fields.
#[derive(Debug)]
pub struct Section {
    pub title: String,
    pub fields: Vec<KeyValue>,
}

/// The text lines of a section: `=== title ===`, then one `  key: value` line per field.
pub open spec fn section_text(title: Seq<char>, fields: Seq<(Seq<char>, Seq<char>)>) -> Seq<char>
    decreases fields.len(),
{
    if fields.len() == 0 {
        "=== "@ + title + " ===\n"@
    } else {
        section_text(title, fields.drop_last()) + "  "@ + fields.last().0 + ": "@ + fields.last().1
            + "\n"@
    }
}

/// The (key, value) texts of fields.
pub open spec fn field_texts(v: Seq<KeyValue>) -> Seq<(Seq<char>, Seq<char>)> {
    v.map_values(|kv: KeyValue| (kv.key@, kv.value@))
}

impl Section {
    /// A section with a title and no fields.
    pub fn new(title: &str) -> (s: Section)
        ensures
            s.title@ == title@,
            s.fields@.len() == 0,
    {
        Section { title: String::from_str(title), fields: Vec::new() }
    }

    /// The section with one more field.
    pub fn field(self, key: &str, value: &str) -> (s: Section)
        ensures
            s.title@ == self.title@,
            field_texts(s.fields@) == field_texts(self.fields@).push((key@, value@)),
    {
        let mut fields = self.fields;
        let ghost before = fields@;
        fields.push(KeyValue { key: String::from_str(key), value: String::from_str(value) });
        assert(field_texts(fields@) =~= field_texts(before).push((key@, value@)));
        Section { title: self.title, fields }
    }

    /// The section as text lines.
    pub fn render_text(&self) -> (s: String)
        ensures
            s@ == section_text(self.title@, field_texts(self.fields@)),
    {
        let mut s = String::from_str("=== ");
        s.append(self.title.as_str());
        s.append(" ===\n");
        let mut i: usize = 0;
        assert(field_texts(self.fields@).subrange(0, 0) =~= Seq::<(Seq<char>, Seq<char>)>::empty());
        while i < self.fields.len()
            invariant
                i <= self.fields@.len(),
                s@ == section_text(self.title@, field_texts(self.fields@).subrange(0, i as int)),
            decreases self.fields@.len() - i,
        {
            let kv = &self.fields[i];
            s.append("  ");
            s.append(kv.key.as_str());
            s.append(": ");
            s.append(kv.value.as_str());
            s.append("\n");
            i = i + 1;
            proof {
                let pre = field_texts(self.fields@).subrange(0, i as int);
                assert(pre.drop_last() =~= field_texts(self.fields@).subrange(0, i - 1));
                assert(pre.last() == (kv.key@, kv.value@));
            }
        }
        assert(field_texts(self.fields@).subrange(0, i as int) =~= field_texts(self.fields@));
        s
    }
}

} // verus!
