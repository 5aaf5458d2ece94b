//! Multi-recipient envelope encryption and decryption (classical mode).
use vstd::prelude::*;
use crate::bytes::{array12, array32, bytes_equal};
use crate::crypto::{
    aes256gcmsiv_open, aes256gcmsiv_opened, aes256gcmsiv_seal, aes256gcmsiv_sealed,
    chacha20poly1305_open, chacha20poly1305_opened, chacha20poly1305_seal,
    chacha20poly1305_sealed, ed25519_accepts, ed25519_signature, ed25519_verify, random_bytes,
    x25519_diffie_hellman, x25519_public, x25519_public_key, x25519_shared_secret,
};
use crate::derive::{derive_wrapping_key, read_secret_below, scope_read_secret, wrapping_key_of};
use crate::envelope::{
    entry_encodable, envelope_encodable, signable_seq, AccessEntry, AccessEntryView,
    EncryptedEnvelope, EnvelopeView,
};
use vstd::utf8::encode_utf8;
use crate::error::{u8_to_decimal, Result, RokError};
use crate::keys::key_id::{key_id_of, KeyId};
use crate::keys::read::{ReadKeyPair, ReadKeyView};
use crate::keys::scope::{ancestor_path, root_path, valid_scope, Scope};
use crate::keys::spend::{SpendKeyPair, SpendKeyView};

verus! {

/// Encryption algorithm selection.
#[derive(Debug, Clone, Copy, PartialEq, Eq, Structural)]
pub enum Algorithm {
    /// Pure classical: X25519 ECDH + ChaCha20-Poly1305.
    EciesX25519ChaCha20,
    /// Hybrid post-quantum: X25519 + ML-KEM-768 + ChaCha20-Poly1305.
    HybridX25519MlKemChaCha20,
}

/// The wire code of an algorithm.
pub open spec fn algorithm_code(a: Algorithm) -> u8 {
    match a {
        Algorithm::EciesX25519ChaCha20 => 1,
        Algorithm::HybridX25519MlKemChaCha20 => 2,
    }
}

/// The algorithm with a wire code, if any.
pub open spec fn algorithm_from_code(v: u8) -> Option<Algorithm> {
    if v == 1 {
        Some(Algorithm::EciesX25519ChaCha20)
    } else if v == 2 {
        Some(Algorithm::HybridX25519MlKemChaCha20)
    } else {
        None
    }
}

fn unknown_code(what: &str, v: u8) -> (e: RokError)
    ensures
        e is SerializationError,
{
    let mut m = String::from_str(what);
    let d = u8_to_decimal(v);
    m.append(d.as_str());
    RokError::SerializationError(m)
}

impl Algorithm {
    /// The algorithm with the given wire code.
    pub fn from_u8(v: u8) -> (r: Result<Algorithm>)
        ensures
            r is Ok <==> algorithm_from_code(v) is Some,
            r matches Ok(a) ==> algorithm_from_code(v) == Some(a),
            r matches Err(e) ==> e is SerializationError,
    {
        if v == 1 {
            Ok(Algorithm::EciesX25519ChaCha20)
        } else if v == 2 {
            Ok(Algorithm::HybridX25519MlKemChaCha20)
        } else {
            Err(unknown_code("unknown algorithm: ", v))
        }
    }

    /// The wire code of this algorithm.
    pub fn to_u8(self) -> (v: u8)
        ensures
            v == algorithm_code(self),
    {
        match self {
            Algorithm::EciesX25519ChaCha20 => 1,
            Algorithm::HybridX25519MlKemChaCha20 => 2,
        }
    }
}

/// Access mode for encrypted envelopes.
#[derive(Debug, Clone, Copy, PartialEq, Eq, Structural)]
pub enum AccessMode {
    /// Per-recipient: each recipient gets an individual access entry.
    Recipient,
    /// Scope-based: a single access entry for the scope's derived key.
    /// Any ancestor key holder can derive down to decrypt.
    ScopeBased,
}

/// The wire code of an access mode.
pub open spec fn access_mode_code(m: AccessMode) -> u8 {
    match m {
        AccessMode::Recipient => 0,
        AccessMode::ScopeBased => 1,
    }
}

/// The access mode with a wire code, if any.
pub open spec fn access_mode_from_code(v: u8) -> Option<AccessMode> {
    if v == 0 {
        Some(AccessMode::Recipient)
    } else if v == 1 {
        Some(AccessMode::ScopeBased)
    } else {
        None
    }
}

impl Default for AccessMode {
    fn default() -> (m: AccessMode)
        ensures
            m == AccessMode::Recipient,
    {
        AccessMode::Recipient
    }
}

impl AccessMode {
    /// The access mode with the given wire code.
    pub fn from_u8(v: u8) -> (r: Result<AccessMode>)
        ensures
            r is Ok <==> access_mode_from_code(v) is Some,
            r matches Ok(m) ==> access_mode_from_code(v) == Some(m),
            r matches Err(e) ==> e is SerializationError,
    {
        if v == 0 {
            Ok(AccessMode::Recipient)
        } else if v == 1 {
            Ok(AccessMode::ScopeBased)
        } else {
            Err(unknown_code("unknown access mode: ", v))
        }
    }

    /// The wire code of this access mode.
    pub fn to_u8(self) -> (v: u8)
        ensures
            v == access_mode_code(self),
    {
        match self {
            AccessMode::Recipient => 0,
            AccessMode::ScopeBased => 1,
        }
    }
}

/// A recipient that will receive access to encrypted data.
#[derive(Debug, Clone, Copy)]
pub struct Recipient {
    pub read_public_key: [u8; 32],
    pub key_id: KeyId,
}

/// The (public key, key identifier) pair of a recipient.
pub open spec fn recipient_pair(r: Recipient) -> (Seq<u8>, Seq<u8>) {
    (r.read_public_key@, r.key_id@)
}

/// The mathematical content of an encryption builder.
pub struct BuilderView {
    pub algorithm: Algorithm,
    pub scope: Seq<char>,
    pub recipients: Seq<Recipient>,
    pub spend_key: Option<SpendKeyView>,
    pub scope_based: bool,
}

/// Builder for constructing encrypted envelopes (classical mode).
pub struct EncryptBuilder<'a> {
    algorithm: Algorithm,
    scope: Scope,
    recipients: Vec<Recipient>,
    spend_key: Option<&'a SpendKeyPair>,
    scope_based: bool,
}

impl<'a> View for EncryptBuilder<'a> {
    type V = BuilderView;

    closed spec fn view(&self) -> BuilderView {
        BuilderView {
            algorithm: self.algorithm,
            scope: self.scope@,
            recipients: self.recipients@,
            spend_key: match self.spend_key {
                Some(k) => Some(k@),
                None => None,
            },
            scope_based: self.scope_based,
        }
    }
}

/// The recipients an envelope is made for: in scope-based mode the read key of the
/// builder's scope in the spend key's hierarchy, otherwise the listed recipients, as
/// (public key, key identifier) pairs.
pub open spec fn effective_recipients(b: BuilderView) -> Seq<(Seq<u8>, Seq<u8>)> {
    if b.scope_based {
        let public = x25519_public_key(scope_read_secret(b.spend_key->Some_0.seed, b.scope));
        seq![(public, key_id_of(public))]
    } else {
        b.recipients.map_values(|r: Recipient| recipient_pair(r))
    }
}

/// When `encrypt` succeeds: a spend key is set, there is a recipient or scope-based mode
/// is on, the algorithm is the classical one, and the plaintext is below the cipher's
/// limit of 2^32 - 1 blocks of 64 bytes.
pub open spec fn encrypt_succeeds(b: BuilderView, plaintext_len: nat) -> bool {
    &&& b.spend_key is Some
    &&& b.scope_based || b.recipients.len() > 0
    &&& b.algorithm == Algorithm::EciesX25519ChaCha20
    &&& plaintext_len / 64 < 4294967295
}

/// The access entry that wraps `data_key` for the recipient `rc` under the ephemeral
/// secret `eph` and the wrap nonce `wn`.
pub open spec fn wrapped_entry(rc: (Seq<u8>, Seq<u8>), eph: Seq<u8>, wn: Seq<u8>, data_key: Seq<u8>) -> AccessEntryView {
    AccessEntryView {
        read_key_id: rc.1,
        wrapped_data_key: aes256gcmsiv_sealed(
            wrapping_key_of(x25519_shared_secret(eph, rc.0), rc.1),
            wn,
            data_key,
        ),
        wrap_nonce: wn,
    }
}

/// The envelope before it is signed (its signature left empty).
pub open spec fn unsigned_envelope(
    b: BuilderView,
    plaintext: Seq<u8>,
    data_key: Seq<u8>,
    eph: Seq<u8>,
    nonce: Seq<u8>,
    wrap_nonces: Seq<Seq<u8>>,
) -> EnvelopeView {
    let rs = effective_recipients(b);
    let sealed = chacha20poly1305_sealed(data_key, nonce, plaintext);
    EnvelopeView {
        version: 2,
        algorithm: b.algorithm,
        scope: b.scope,
        ephemeral_x25519_public: x25519_public_key(eph),
        ephemeral_mlkem_ciphertext: None,
        access_entries: Seq::new(
            rs.len(),
            |i: int| wrapped_entry(rs[i], eph, wrap_nonces[i], data_key),
        ),
        nonce,
        ciphertext: sealed.subrange(0, sealed.len() - 16),
        tag: sealed.subrange(sealed.len() - 16, sealed.len() as int),
        signature: Seq::empty(),
        spend_public_key: b.spend_key->Some_0.public,
        access_mode: if b.scope_based {
            AccessMode::ScopeBased
        } else {
            AccessMode::Recipient
        },
    }
}

/// The envelope that `encrypt` makes from the given random values: data key, ephemeral
/// X25519 secret, payload nonce and one wrap nonce per recipient.
pub open spec fn sealed_envelope(
    b: BuilderView,
    plaintext: Seq<u8>,
    data_key: Seq<u8>,
    eph: Seq<u8>,
    nonce: Seq<u8>,
    wrap_nonces: Seq<Seq<u8>>,
) -> EnvelopeView {
    let u = unsigned_envelope(b, plaintext, data_key, eph, nonce, wrap_nonces);
    EnvelopeView {
        signature: ed25519_signature(b.spend_key->Some_0.seed, signable_seq(u)),
        ..u
    }
}

/// Whether `e` is an envelope that the builder `b` makes of `plaintext`: it is sealed
/// with some data key, ephemeral key and nonces, and every read key that `opens_for`
/// describes decrypts it to the plaintext.
pub open spec fn sealed_for(e: EnvelopeView, b: BuilderView, plaintext: Seq<u8>) -> bool {
    &&& exists|dk: Seq<u8>, eph: Seq<u8>, nonce: Seq<u8>, wns: Seq<Seq<u8>>|
        #![trigger sealed_envelope(b, plaintext, dk, eph, nonce, wns)]
        {
            &&& dk.len() == 32
            &&& eph.len() == 32
            &&& nonce.len() == 12
            &&& wns.len() == effective_recipients(b).len()
            &&& e == sealed_envelope(b, plaintext, dk, eph, nonce, wns)
        }
    &&& forall|k: ReadKeyView|
        opens_for(b, k) ==> #[trigger] decrypt_outcome(e, k, b.spend_key->Some_0.public)
            == DecryptOutcome::Plaintext(plaintext)
}

/// Whether `i` is the first index of an entry for the key identifier `kid`.
pub open spec fn is_first_entry(es: Seq<AccessEntryView>, kid: Seq<u8>, i: int) -> bool {
    &&& 0 <= i < es.len()
    &&& es[i].read_key_id == kid
    &&& forall|j: int| 0 <= j < i ==> (#[trigger] es[j]).read_key_id != kid
}

/// The first entry for the key identifier `kid`, if any.
pub open spec fn first_entry(es: Seq<AccessEntryView>, kid: Seq<u8>) -> Option<AccessEntryView> {
    if exists|i: int| is_first_entry(es, kid, i) {
        Some(es[choose|i: int| is_first_entry(es, kid, i)])
    } else {
        None
    }
}

/// The first entry for a key identifier is the one at its first index.
pub proof fn lemma_first_entry_pub(es: Seq<AccessEntryView>, kid: Seq<u8>, i: int)
    requires
        is_first_entry(es, kid, i),
    ensures
        first_entry(es, kid) == Some(es[i]),
{
    lemma_first_entry(es, kid, i);
}

/// Without an entry for a key identifier there is no first one.
pub proof fn lemma_no_entry_pub(es: Seq<AccessEntryView>, kid: Seq<u8>)
    requires
        forall|j: int| 0 <= j < es.len() ==> (#[trigger] es[j]).read_key_id != kid,
    ensures
        first_entry(es, kid) is None,
{
}

proof fn lemma_first_entry(es: Seq<AccessEntryView>, kid: Seq<u8>, i: int)
    requires
        is_first_entry(es, kid, i),
    ensures
        first_entry(es, kid) == Some(es[i]),
{
    let k = choose|k: int| is_first_entry(es, kid, k);
    assert(is_first_entry(es, kid, k));
    if k < i {
        assert(es[k].read_key_id != kid);
    } else if i < k {
        assert(es[i].read_key_id != kid);
    }
}

proof fn lemma_no_entry(es: Seq<AccessEntryView>, kid: Seq<u8>)
    requires
        forall|j: int| 0 <= j < es.len() ==> (#[trigger] es[j]).read_key_id != kid,
    ensures
        first_entry(es, kid) is None,
{
}

/// What decryption of an envelope with a read key gives.
pub enum DecryptOutcome {
    Plaintext(Seq<u8>),
    BadSignature,
    ScopeMismatch,
    NoEntry,
    Undecryptable,
}

/// The (secret, public) key that decrypts: in scope-based mode the read key derived
/// down to the envelope's scope, otherwise the read key itself.
pub open spec fn decryption_key(env: EnvelopeView, k: ReadKeyView) -> (Seq<u8>, Seq<u8>) {
    if env.access_mode == AccessMode::ScopeBased && k.scope != env.scope {
        let s = read_secret_below(k.secret, k.scope, env.scope);
        (s, x25519_public_key(s))
    } else {
        (k.secret, k.public)
    }
}

/// What `decrypt` gives for an envelope, a read key and a spend verifying key: the
/// signature is checked first, then scope access, then the access entry, then the key
/// unwrapping and the payload's authentication.
pub open spec fn decrypt_outcome(env: EnvelopeView, k: ReadKeyView, vk: Seq<u8>) -> DecryptOutcome {
    if !ed25519_accepts(vk, signable_seq(env), env.signature) {
        DecryptOutcome::BadSignature
    } else if !ancestor_path(k.scope, env.scope) {
        DecryptOutcome::ScopeMismatch
    } else {
        let (secret, public) = decryption_key(env, k);
        let kid = key_id_of(public);
        match first_entry(env.access_entries, kid) {
            None => DecryptOutcome::NoEntry,
            Some(entry) => {
                let wk = wrapping_key_of(x25519_shared_secret(secret, env.ephemeral_x25519_public), kid);
                match aes256gcmsiv_opened(wk, entry.wrap_nonce, entry.wrapped_data_key) {
                    None => DecryptOutcome::Undecryptable,
                    Some(dk) => if dk.len() != 32 {
                        DecryptOutcome::Undecryptable
                    } else {
                        match chacha20poly1305_opened(dk, env.nonce, env.ciphertext + env.tag) {
                            None => DecryptOutcome::Undecryptable,
                            Some(pt) => DecryptOutcome::Plaintext(pt),
                        }
                    },
                }
            },
        }
    }
}

/// A read key decrypts nothing outside its own subtree: data at an ancestor or a sibling
/// of the key's scope never yields a plaintext.
pub proof fn lemma_no_access_outside_subtree(env: EnvelopeView, k: ReadKeyView, vk: Seq<u8>)
    requires
        !ancestor_path(k.scope, env.scope),
    ensures
        !(decrypt_outcome(env, k, vk) is Plaintext),
{
}

/// Delegation never escalates: a key whose scope lies at or below a delegated scope
/// decrypts nothing outside that delegated scope's subtree.
pub proof fn lemma_delegation_never_escalates(
    delegated: Seq<char>,
    k: ReadKeyView,
    env: EnvelopeView,
    vk: Seq<u8>,
)
    requires
        valid_scope(delegated),
        valid_scope(k.scope),
        valid_scope(env.scope),
        ancestor_path(delegated, k.scope),
        !ancestor_path(delegated, env.scope),
    ensures
        !(decrypt_outcome(env, k, vk) is Plaintext),
{
    if ancestor_path(k.scope, env.scope) {
        crate::keys::scope::lemma_ancestor_transitive(delegated, k.scope, env.scope);
    }
}

/// Whether a recipient list names `public` at the first position that carries its key
/// identifier.
pub open spec fn lists_recipient(rs: Seq<(Seq<u8>, Seq<u8>)>, public: Seq<u8>) -> bool {
    exists|i: int|
        0 <= i < rs.len() && (#[trigger] rs[i]).1 == key_id_of(public) && rs[i].0 == public
            && forall|j: int| 0 <= j < i ==> (#[trigger] rs[j]).1 != key_id_of(public)
}

/// Whether the read key `k` opens what the builder encrypts: its scope is the builder's
/// or an ancestor of it, and it is a listed recipient, or (in scope-based mode) a key of
/// the spend key's own hierarchy.
pub open spec fn opens_for(b: BuilderView, k: ReadKeyView) -> bool {
    &&& valid_scope(k.scope)
    &&& k.secret.len() == 32
    &&& k.public == x25519_public_key(k.secret)
    &&& ancestor_path(k.scope, b.scope)
    &&& if b.scope_based {
        k.secret == scope_read_secret(b.spend_key->Some_0.seed, k.scope)
    } else {
        lists_recipient(effective_recipients(b), k.public)
    }
}

impl<'a> EncryptBuilder<'a> {
    /// Create a new builder for the given algorithm and scope.
    pub fn new(algorithm: Algorithm, scope: Scope) -> (b: Self)
        ensures
            b@ == (BuilderView {
                algorithm,
                scope: scope@,
                recipients: Seq::empty(),
                spend_key: None,
                scope_based: false,
            }),
    {
        EncryptBuilder { algorithm, scope, recipients: Vec::new(), spend_key: None, scope_based: false }
    }

    /// Add a recipient who should be able to decrypt.
    pub fn add_recipient(&mut self, recipient: Recipient) -> (ret: &mut Self)
        ensures
            ret@ == (BuilderView { recipients: old(self)@.recipients.push(recipient), ..old(self)@ }),
            *final(self) == *final(ret),
    {
        self.recipients.push(recipient);
        self
    }

    /// Add multiple recipients.
    pub fn add_recipients(&mut self, recipients: &[Recipient]) -> (ret: &mut Self)
        ensures
            ret@ == (BuilderView { recipients: old(self)@.recipients + recipients@, ..old(self)@ }),
            *final(self) == *final(ret),
    {
        let mut i: usize = 0;
        while i < recipients.len()
            invariant
                i <= recipients@.len(),
                self@ == (BuilderView {
                    recipients: old(self)@.recipients + recipients@.subrange(0, i as int),
                    ..old(self)@
                }),
            decreases recipients@.len() - i,
        {
            self.recipients.push(recipients[i]);
            i = i + 1;
            assert(self@.recipients =~= old(self)@.recipients + recipients@.subrange(0, i as int));
        }
        assert(recipients@.subrange(0, recipients@.len() as int) =~= recipients@);
        self
    }

    /// Set the spend key for signing the envelope.
    pub fn set_spend_key(&mut self, spend_key: &'a SpendKeyPair) -> (ret: &mut Self)
        ensures
            ret@ == (BuilderView { spend_key: Some(spend_key@), ..old(self)@ }),
            *final(self) == *final(ret),
    {
        self.spend_key = Some(spend_key);
        self
    }

    /// Enable scope-based group encryption.
    ///
    /// Instead of listing individual recipients, a single access entry is created for the
    /// scope's derived key. Any ancestor key holder can derive down to decrypt.
    pub fn set_scope_based(&mut self) -> (ret: &mut Self)
        ensures
            ret@ == (BuilderView { scope_based: true, ..old(self)@ }),
            *final(self) == *final(ret),
    {
        self.scope_based = true;
        self
    }
}

/// Decrypt an envelope using a read key (classical mode).
///
/// The spend key's signature is checked first; then the read key must have access to the
/// envelope's scope. In scope-based mode a key above the envelope's scope derives down
/// to it. The key's access entry gives the wrapped data key, which decrypts the payload.
pub fn decrypt(envelope: &EncryptedEnvelope, read_key: &ReadKeyPair, spend_verifying_key: &[u8; 32]) -> (r: Result<Vec<u8>>)
    ensures
        match decrypt_outcome(envelope@, read_key@, spend_verifying_key@) {
            DecryptOutcome::Plaintext(pt) => r matches Ok(p) && p@ == pt,
            DecryptOutcome::BadSignature => r matches Err(e) && e is SignatureVerificationFailed,
            DecryptOutcome::ScopeMismatch => r matches Err(RokError::ScopeMismatch {
                key_scope,
                data_scope,
            }) && key_scope@ == read_key@.scope && data_scope@ == envelope.scope@,
            DecryptOutcome::NoEntry => r matches Err(e) && e is NoMatchingAccessEntry,
            DecryptOutcome::Undecryptable => r matches Err(e) && e is DecryptionError,
        },
{
    let signable = envelope.signable_bytes();
    if !ed25519_verify(spend_verifying_key, signable.as_slice(), &envelope.signature) {
        return Err(RokError::SignatureVerificationFailed);
    }
    if !read_key.can_access(&envelope.scope) {
        return Err(
            RokError::ScopeMismatch {
                key_scope: String::from_str(read_key.scope().as_str()),
                data_scope: String::from_str(envelope.scope.as_str()),
            },
        );
    }
    proof {
        use_type_invariant(read_key);
    }
    let derived: ReadKeyPair;
    let decrypt_key: &ReadKeyPair;
    if envelope.access_mode == AccessMode::ScopeBased && read_key.scope() != &envelope.scope {
        derived = match read_key.derive_child(&envelope.scope) {
            Ok(k) => k,
            Err(e) => {
                return Err(e);
            },
        };
        decrypt_key = &derived;
    } else {
        decrypt_key = read_key;
    }
    proof {
        use_type_invariant(decrypt_key);
    }
    let ghost key = decryption_key(envelope@, read_key@);
    assert(decrypt_key@.secret == key.0 && decrypt_key@.public == key.1);
    let my_key_id = decrypt_key.key_id();
    let mut i: usize = 0;
    let n = envelope.access_entries.len();
    while i < n && !bytes_equal(envelope.access_entries[i].read_key_id.as_bytes(), my_key_id.as_bytes())
        invariant
            n == envelope.access_entries@.len(),
            i <= n,
            forall|j: int|
                0 <= j < i ==> (#[trigger] envelope@.access_entries[j]).read_key_id != my_key_id@,
        decreases n - i,
    {
        i = i + 1;
    }
    if i == n {
        proof {
            lemma_no_entry(envelope@.access_entries, my_key_id@);
        }
        return Err(RokError::NoMatchingAccessEntry(my_key_id.to_base58()));
    }
    let entry = &envelope.access_entries[i];
    proof {
        assert(envelope@.access_entries[i as int] == entry@);
        lemma_first_entry(envelope@.access_entries, my_key_id@, i as int);
    }
    let shared = x25519_diffie_hellman(decrypt_key.secret(), &envelope.ephemeral_x25519_public);
    let wrapping_key = derive_wrapping_key(&shared, &my_key_id);
    let data_key = match aes256gcmsiv_open(&wrapping_key, &entry.wrap_nonce, entry.wrapped_data_key.as_slice()) {
        Some(k) => k,
        None => {
            return Err(RokError::DecryptionError(String::from_str("failed to unwrap data key")));
        },
    };
    if data_key.len() != 32 {
        return Err(RokError::DecryptionError(String::from_str("invalid data key length")));
    }
    let key = array32(data_key.as_slice(), 0);
    assert(key@ =~= data_key@);
    let mut authenticated: Vec<u8> = Vec::new();
    crate::bytes::push_bytes(&mut authenticated, envelope.ciphertext.as_slice());
    crate::bytes::push_bytes(&mut authenticated, &envelope.tag);
    match chacha20poly1305_open(&key, &envelope.nonce, authenticated.as_slice()) {
        Some(pt) => Ok(pt),
        None => Err(RokError::DecryptionError(String::from_str("ciphertext authentication failed"))),
    }
}

/// The views of a sequence of wrap nonces.
pub open spec fn nonce_views(v: Seq<[u8; 12]>) -> Seq<Seq<u8>> {
    v.map_values(|n: [u8; 12]| n@)
}

/// Wraps the data key for each recipient under a shared secret with the ephemeral key.
fn wrap_for_recipients(
    rs: &Vec<Recipient>,
    ephemeral_secret: &[u8; 32],
    data_key: &[u8; 32],
    wrap_nonces: &Vec<[u8; 12]>,
) -> (entries: Vec<AccessEntry>)
    requires
        wrap_nonces@.len() == rs@.len(),
    ensures
        entries@.len() == rs@.len(),
        forall|i: int|
            0 <= i < rs@.len() ==> (#[trigger] entries@[i])@ == wrapped_entry(
                recipient_pair(rs@[i]),
                ephemeral_secret@,
                wrap_nonces@[i]@,
                data_key@,
            ),
        forall|i: int|
            0 <= i < rs@.len() ==> aes256gcmsiv_opened(
                wrapping_key_of(
                    x25519_shared_secret(ephemeral_secret@, rs@[i].read_public_key@),
                    rs@[i].key_id@,
                ),
                wrap_nonces@[i]@,
                (#[trigger] entries@[i]).wrapped_data_key@,
            ) == Some(data_key@),
        forall|i: int| 0 <= i < rs@.len() ==> (#[trigger] entries@[i]).wrapped_data_key@.len() == 48,
{
    let mut entries: Vec<AccessEntry> = Vec::new();
    let mut i: usize = 0;
    while i < rs.len()
        invariant
            wrap_nonces@.len() == rs@.len(),
            i <= rs@.len(),
            entries@.len() == i,
            forall|j: int|
                0 <= j < i ==> (#[trigger] entries@[j])@ == wrapped_entry(
                    recipient_pair(rs@[j]),
                    ephemeral_secret@,
                    wrap_nonces@[j]@,
                    data_key@,
                ),
            forall|j: int|
                0 <= j < i ==> aes256gcmsiv_opened(
                    wrapping_key_of(
                        x25519_shared_secret(ephemeral_secret@, rs@[j].read_public_key@),
                        rs@[j].key_id@,
                    ),
                    wrap_nonces@[j]@,
                    (#[trigger] entries@[j]).wrapped_data_key@,
                ) == Some(data_key@),
            forall|j: int| 0 <= j < i ==> (#[trigger] entries@[j]).wrapped_data_key@.len() == 48,
        decreases rs@.len() - i,
    {
        let r = rs[i];
        let shared = x25519_diffie_hellman(ephemeral_secret, &r.read_public_key);
        let wrapping_key = derive_wrapping_key(&shared, &r.key_id);
        let wrap_nonce = wrap_nonces[i];
        let wrapped = aes256gcmsiv_seal(&wrapping_key, &wrap_nonce, data_key);
        let wrapped_data_key = match wrapped {
            Some(w) => w,
            None => {
                assert(false);
                Vec::new()
            },
        };
        entries.push(AccessEntry { read_key_id: r.key_id, wrapped_data_key, wrap_nonce });
        i = i + 1;
    }
    entries
}

/// Law: what `encrypt` makes, every read key that `opens_for` describes decrypts to the
/// plaintext under the spend key's verifying key (given the outside facts that the
/// encryption calls establish).
proof fn lemma_sealed_opens(
    b: BuilderView,
    plaintext: Seq<u8>,
    data_key: Seq<u8>,
    eph: Seq<u8>,
    nonce: Seq<u8>,
    wrap_nonces: Seq<Seq<u8>>,
    k: ReadKeyView,
)
    requires
        b.spend_key is Some,
        valid_scope(b.scope),
        data_key.len() == 32,
        wrap_nonces.len() == effective_recipients(b).len(),
        chacha20poly1305_opened(data_key, nonce, chacha20poly1305_sealed(data_key, nonce, plaintext))
            == Some(plaintext),
        chacha20poly1305_sealed(data_key, nonce, plaintext).len() == plaintext.len() + 16,
        forall|i: int|
            0 <= i < effective_recipients(b).len() ==> aes256gcmsiv_opened(
                wrapping_key_of(
                    x25519_shared_secret(eph, effective_recipients(b)[i].0),
                    effective_recipients(b)[i].1,
                ),
                wrap_nonces[i],
                (#[trigger] wrapped_entry(effective_recipients(b)[i], eph, wrap_nonces[i], data_key)).wrapped_data_key,
            ) == Some(data_key),
        forall|other: Seq<u8>|
            other.len() == 32 ==> #[trigger] x25519_shared_secret(other, x25519_public_key(eph))
                == x25519_shared_secret(eph, x25519_public_key(other)),
        b.scope_based ==> scope_read_secret(b.spend_key->Some_0.seed, b.scope).len() == 32,
        ed25519_accepts(
            b.spend_key->Some_0.public,
            signable_seq(unsigned_envelope(b, plaintext, data_key, eph, nonce, wrap_nonces)),
            ed25519_signature(
                b.spend_key->Some_0.seed,
                signable_seq(unsigned_envelope(b, plaintext, data_key, eph, nonce, wrap_nonces)),
            ),
        ),
        opens_for(b, k),
    ensures
        decrypt_outcome(
            sealed_envelope(b, plaintext, data_key, eph, nonce, wrap_nonces),
            k,
            b.spend_key->Some_0.public,
        ) == DecryptOutcome::Plaintext(plaintext),
{
    let u = unsigned_envelope(b, plaintext, data_key, eph, nonce, wrap_nonces);
    let v = sealed_envelope(b, plaintext, data_key, eph, nonce, wrap_nonces);
    let rs = effective_recipients(b);
    let seed = b.spend_key->Some_0.seed;
    assert(signable_seq(v) == signable_seq(u));
    let (secret, public) = decryption_key(v, k);
    let kid = key_id_of(public);
    let i: int = if b.scope_based {
        if k.scope != b.scope {
            crate::keys::scope::lemma_root_ancestor_of_all(k.scope);
            crate::keys::scope::lemma_valid_root();
            crate::derive::lemma_read_secret_stepwise(
                crate::derive::root_read_secret(seed),
                root_path(),
                k.scope,
                b.scope,
            );
        }
        assert(secret == scope_read_secret(seed, b.scope));
        0
    } else {
        choose|i: int|
            0 <= i < rs.len() && (#[trigger] rs[i]).1 == key_id_of(k.public) && rs[i].0 == k.public
                && forall|j: int| 0 <= j < i ==> (#[trigger] rs[j]).1 != key_id_of(k.public)
    };
    assert(0 <= i < rs.len() && rs[i] == (public, kid) && secret.len() == 32);
    assert(public == x25519_public_key(secret));
    let es = v.access_entries;
    assert(es[i] == wrapped_entry(rs[i], eph, wrap_nonces[i], data_key));
    assert forall|j: int| 0 <= j < i implies (#[trigger] es[j]).read_key_id != kid by {
        assert(es[j] == wrapped_entry(rs[j], eph, wrap_nonces[j], data_key));
    }
    lemma_first_entry(es, kid, i);
    assert(x25519_shared_secret(secret, x25519_public_key(eph)) == x25519_shared_secret(
        eph,
        x25519_public_key(secret),
    ));
    let sealed = chacha20poly1305_sealed(data_key, nonce, plaintext);
    assert(v.ciphertext + v.tag =~= sealed);
}

impl<'a> EncryptBuilder<'a> {
    /// Encrypt the plaintext with the given random values and produce a signed envelope:
    /// `data_key` encrypts the payload under `nonce`, `ephemeral_secret` is the sender's
    /// X25519 key, and each recipient's copy of the data key is wrapped under its own
    /// nonce from `wrap_nonces`.
    pub fn encrypt_with(
        &self,
        plaintext: &[u8],
        data_key: &[u8; 32],
        ephemeral_secret: &[u8; 32],
        nonce: &[u8; 12],
        wrap_nonces: &Vec<[u8; 12]>,
    ) -> (r: Result<EncryptedEnvelope>)
        requires
            wrap_nonces@.len() == effective_recipients(self@).len(),
        ensures
            r is Ok <==> encrypt_succeeds(self@, plaintext@.len()),
            r matches Err(e) ==> e is EncryptionError,
            r matches Ok(e) ==> e@ == sealed_envelope(
                self@,
                plaintext@,
                data_key@,
                ephemeral_secret@,
                nonce@,
                nonce_views(wrap_nonces@),
            ),
            r matches Ok(e) ==> e@.ciphertext.len() == plaintext@.len(),
            r matches Ok(e) ==> (encode_utf8(self@.scope).len() < 0x10000 && effective_recipients(
                self@,
            ).len() < 0x10000 ==> envelope_encodable(e@)),
            r matches Ok(e) ==> forall|k: ReadKeyView|
                opens_for(self@, k) ==> #[trigger] decrypt_outcome(
                    e@,
                    k,
                    self@.spend_key->Some_0.public,
                ) == DecryptOutcome::Plaintext(plaintext@),
    {
        let spend_key = match self.spend_key {
            Some(k) => k,
            None => {
                return Err(RokError::EncryptionError(String::from_str("spend key not set")));
            },
        };
        proof {
            use_type_invariant(spend_key);
            use_type_invariant(&self.scope);
        }
        if !self.scope_based && self.recipients.len() == 0 {
            return Err(RokError::EncryptionError(String::from_str("no recipients")));
        }
        if self.algorithm != Algorithm::EciesX25519ChaCha20 {
            return Err(
                RokError::EncryptionError(
                    String::from_str("hybrid mode is not supported by this builder"),
                ),
            );
        }
        let sealed = match chacha20poly1305_seal(data_key, nonce, plaintext) {
            Some(c) => c,
            None => {
                return Err(RokError::EncryptionError(String::from_str("payload too large")));
            },
        };
        let ephemeral_public = x25519_public(ephemeral_secret);
        let ghost b = self@;
        let ghost wns = nonce_views(wrap_nonces@);
        let ghost rs = effective_recipients(b);
        let access_entries;
        let access_mode;
        if self.scope_based {
            let root_read = spend_key.derive_root_read_key();
            proof {
                crate::keys::scope::lemma_root_ancestor_of_all(self.scope@);
            }
            let scope_key = if self.scope.is_root() {
                root_read
            } else {
                match root_read.derive_child(&self.scope) {
                    Ok(k) => k,
                    Err(e) => {
                        assert(false);
                        return Err(e);
                    },
                }
            };
            proof {
                use_type_invariant(&scope_key);
                assert(scope_key@.secret == scope_read_secret(spend_key@.seed, self.scope@));
            }
            let mut one: Vec<Recipient> = Vec::new();
            one.push(Recipient { read_public_key: *scope_key.public_key(), key_id: scope_key.key_id() });
            assert(one@.map_values(|r: Recipient| recipient_pair(r)) =~= rs);
            access_entries = wrap_for_recipients(&one, ephemeral_secret, data_key, wrap_nonces);
            access_mode = AccessMode::ScopeBased;
            proof {
                assert forall|i: int| 0 <= i < rs.len() implies aes256gcmsiv_opened(
                    wrapping_key_of(x25519_shared_secret(ephemeral_secret@, rs[i].0), rs[i].1),
                    wns[i],
                    (#[trigger] wrapped_entry(rs[i], ephemeral_secret@, wns[i], data_key@)).wrapped_data_key,
                ) == Some(data_key@) by {
                    assert(access_entries@[i]@ == wrapped_entry(recipient_pair(one@[i]), ephemeral_secret@, wrap_nonces@[i]@, data_key@));
                }
                assert(crate::envelope::entry_views(access_entries@) =~= Seq::new(
                    rs.len(),
                    |i: int| wrapped_entry(rs[i], ephemeral_secret@, wns[i], data_key@),
                ));
            }
        } else {
            assert(self.recipients@.map_values(|r: Recipient| recipient_pair(r)) =~= rs);
            access_entries = wrap_for_recipients(&self.recipients, ephemeral_secret, data_key, wrap_nonces);
            access_mode = AccessMode::Recipient;
            proof {
                assert forall|i: int| 0 <= i < rs.len() implies aes256gcmsiv_opened(
                    wrapping_key_of(x25519_shared_secret(ephemeral_secret@, rs[i].0), rs[i].1),
                    wns[i],
                    (#[trigger] wrapped_entry(rs[i], ephemeral_secret@, wns[i], data_key@)).wrapped_data_key,
                ) == Some(data_key@) by {
                    assert(access_entries@[i]@ == wrapped_entry(recipient_pair(self.recipients@[i]), ephemeral_secret@, wrap_nonces@[i]@, data_key@));
                }
                assert(crate::envelope::entry_views(access_entries@) =~= Seq::new(
                    rs.len(),
                    |i: int| wrapped_entry(rs[i], ephemeral_secret@, wns[i], data_key@),
                ));
            }
        }
        let n = sealed.len();
        let ciphertext = crate::bytes::copy_range(sealed.as_slice(), 0, n - 16);
        let tag = crate::bytes::array16(sealed.as_slice(), n - 16);
        let mut envelope = EncryptedEnvelope {
            version: EncryptedEnvelope::CURRENT_VERSION,
            algorithm: self.algorithm,
            scope: self.scope.clone(),
            ephemeral_x25519_public: ephemeral_public,
            ephemeral_mlkem_ciphertext: None,
            access_entries,
            nonce: *nonce,
            ciphertext,
            tag,
            signature: [0u8; 64],
            spend_public_key: spend_key.verifying_key(),
            access_mode,
        };
        let ghost u = unsigned_envelope(b, plaintext@, data_key@, ephemeral_secret@, nonce@, wns);
        assert(signable_seq(envelope@) == signable_seq(u));
        let signable = envelope.signable_bytes();
        envelope.signature = spend_key.sign_bytes(signable.as_slice());
        proof {
            assert(envelope@ =~= sealed_envelope(b, plaintext@, data_key@, ephemeral_secret@, nonce@, wns));
            assert forall|i: int| 0 <= i < envelope@.access_entries.len() implies #[trigger] entry_encodable(envelope@.access_entries[i]) by {
                crate::keys::key_id::lemma_key_id_len(envelope.access_entries@[i].read_key_id);
            }
            use_type_invariant(&envelope.scope);
            assert forall|k: ReadKeyView| opens_for(b, k) implies #[trigger] decrypt_outcome(
                envelope@,
                k,
                b.spend_key->Some_0.public,
            ) == DecryptOutcome::Plaintext(plaintext@) by {
                lemma_sealed_opens(b, plaintext@, data_key@, ephemeral_secret@, nonce@, wns, k);
            }
        }
        Ok(envelope)
    }

    /// Encrypt the plaintext and produce a signed envelope, drawing the data key, the
    /// ephemeral key and the nonces from the system's random number generator.
    pub fn encrypt(&self, plaintext: &[u8]) -> (r: Result<EncryptedEnvelope>)
        ensures
            r is Ok <==> encrypt_succeeds(self@, plaintext@.len()),
            r matches Ok(e) ==> e@.ciphertext.len() == plaintext@.len(),
            r matches Err(e) ==> e is EncryptionError,
            r matches Ok(e) ==> exists|dk: Seq<u8>, eph: Seq<u8>, nonce: Seq<u8>, wns: Seq<Seq<u8>>|
                #![trigger sealed_envelope(self@, plaintext@, dk, eph, nonce, wns)]
                {
                    &&& dk.len() == 32
                    &&& eph.len() == 32
                    &&& nonce.len() == 12
                    &&& wns.len() == effective_recipients(self@).len()
                    &&& e@ == sealed_envelope(self@, plaintext@, dk, eph, nonce, wns)
                },
            r matches Ok(e) ==> (encode_utf8(self@.scope).len() < 0x10000 && effective_recipients(
                self@,
            ).len() < 0x10000 ==> envelope_encodable(e@)),
            r matches Ok(e) ==> forall|k: ReadKeyView|
                opens_for(self@, k) ==> #[trigger] decrypt_outcome(
                    e@,
                    k,
                    self@.spend_key->Some_0.public,
                ) == DecryptOutcome::Plaintext(plaintext@),
    {
        let count: usize = if self.scope_based {
            1
        } else {
            self.recipients.len()
        };
        assert(count == effective_recipients(self@).len());
        let data_key = array32(random_bytes(32).as_slice(), 0);
        let ephemeral_secret = array32(random_bytes(32).as_slice(), 0);
        let nonce = array12(random_bytes(12).as_slice(), 0);
        let mut wrap_nonces: Vec<[u8; 12]> = Vec::new();
        let mut i: usize = 0;
        while i < count
            invariant
                i <= count,
                wrap_nonces@.len() == i,
            decreases count - i,
        {
            wrap_nonces.push(array12(random_bytes(12).as_slice(), 0));
            i = i + 1;
        }
        let r = self.encrypt_with(plaintext, &data_key, &ephemeral_secret, &nonce, &wrap_nonces);
        proof {
            if r is Ok {
                let wns = nonce_views(wrap_nonces@);
                assert(r->Ok_0@ == sealed_envelope(self@, plaintext@, data_key@, ephemeral_secret@, nonce@, wns));
            }
        }
        r
    }
}

/// Encrypt a payload with a data key under a nonce, giving the ciphertext and the
/// 16-byte authentication tag.
pub fn encrypt_payload_with(data_key: &[u8; 32], plaintext: &[u8], nonce: &[u8; 12]) -> (r: Result<(Vec<u8>, [u8; 16])>)
    ensures
        r is Ok <==> plaintext@.len() / 64 < 4294967295,
        r matches Err(e) ==> e is EncryptionError,
        r matches Ok((ct, tag)) ==> ct@ + tag@ == chacha20poly1305_sealed(data_key@, nonce@, plaintext@)
            && ct@.len() == plaintext@.len()
            && chacha20poly1305_opened(data_key@, nonce@, ct@ + tag@) == Some(plaintext@),
{
    let sealed = match chacha20poly1305_seal(data_key, nonce, plaintext) {
        Some(c) => c,
        None => {
            return Err(RokError::EncryptionError(String::from_str("payload too large")));
        },
    };
    let n = sealed.len();
    let ciphertext = crate::bytes::copy_range(sealed.as_slice(), 0, n - 16);
    let tag = crate::bytes::array16(sealed.as_slice(), n - 16);
    assert(ciphertext@ + tag@ =~= sealed@);
    Ok((ciphertext, tag))
}

/// Encrypt a payload with a data key under a random nonce, giving the ciphertext, the
/// nonce and the tag.
pub fn encrypt_payload(data_key: &[u8; 32], plaintext: &[u8]) -> (r: Result<([u8; 12], Vec<u8>, [u8; 16])>)
    ensures
        r is Ok <==> plaintext@.len() / 64 < 4294967295,
        r matches Err(e) ==> e is EncryptionError,
        r matches Ok((nonce, ct, tag)) ==> ct@ + tag@ == chacha20poly1305_sealed(data_key@, nonce@, plaintext@)
            && ct@.len() == plaintext@.len()
            && chacha20poly1305_opened(data_key@, nonce@, ct@ + tag@) == Some(plaintext@),
{
    let nonce = array12(random_bytes(12).as_slice(), 0);
    let (ct, tag) = encrypt_payload_with(data_key, plaintext, &nonce)?;
    Ok((nonce, ct, tag))
}

/// Decrypt and authenticate a payload.
pub fn decrypt_payload(data_key: &[u8; 32], ciphertext: &[u8], nonce: &[u8; 12], tag: &[u8; 16]) -> (r: Result<Vec<u8>>)
    ensures
        match chacha20poly1305_opened(data_key@, nonce@, ciphertext@ + tag@) {
            Some(pt) => r matches Ok(p) && p@ == pt,
            None => r matches Err(e) && e is DecryptionError,
        },
{
    let mut authenticated: Vec<u8> = Vec::new();
    crate::bytes::push_bytes(&mut authenticated, ciphertext);
    crate::bytes::push_bytes(&mut authenticated, tag);
    match chacha20poly1305_open(data_key, nonce, authenticated.as_slice()) {
        Some(pt) => Ok(pt),
        None => Err(RokError::DecryptionError(String::from_str("ciphertext authentication failed"))),
    }
}

/// The access entry that wraps `data_key` under the key derived from `shared` and the
/// recipient's key identifier, with the wrap nonce `wn`.
pub open spec fn entry_wrapping(data_key: Seq<u8>, shared: Seq<u8>, kid: Seq<u8>, wn: Seq<u8>) -> AccessEntryView {
    AccessEntryView {
        read_key_id: kid,
        wrapped_data_key: aes256gcmsiv_sealed(wrapping_key_of(shared, kid), wn, data_key),
        wrap_nonce: wn,
    }
}

/// Wrap a data key for a recipient under a shared secret, with the given wrap nonce.
pub fn wrap_data_key_with(data_key: &[u8; 32], shared_secret: &[u8; 32], key_id: &KeyId, wrap_nonce: &[u8; 12]) -> (e: AccessEntry)
    ensures
        e@ == entry_wrapping(data_key@, shared_secret@, key_id@, wrap_nonce@),
        aes256gcmsiv_opened(wrapping_key_of(shared_secret@, key_id@), wrap_nonce@, e@.wrapped_data_key)
            == Some(data_key@),
        e@.wrapped_data_key.len() == 48,
{
    let wrapping_key = derive_wrapping_key(shared_secret, key_id);
    let wrapped_data_key = match aes256gcmsiv_seal(&wrapping_key, wrap_nonce, data_key) {
        Some(w) => w,
        None => {
            assert(false);
            Vec::new()
        },
    };
    AccessEntry { read_key_id: *key_id, wrapped_data_key, wrap_nonce: *wrap_nonce }
}

/// Wrap a data key for a recipient under a shared secret, with a random wrap nonce.
pub fn wrap_data_key(data_key: &[u8; 32], shared_secret: &[u8; 32], key_id: &KeyId) -> (r: Result<AccessEntry>)
    ensures
        r matches Ok(e) && e@ == entry_wrapping(data_key@, shared_secret@, key_id@, e@.wrap_nonce)
            && aes256gcmsiv_opened(wrapping_key_of(shared_secret@, key_id@), e@.wrap_nonce, e@.wrapped_data_key)
                == Some(data_key@)
            && e@.wrapped_data_key.len() == 48,
{
    let wrap_nonce = array12(random_bytes(12).as_slice(), 0);
    Ok(wrap_data_key_with(data_key, shared_secret, key_id, &wrap_nonce))
}

/// What unwrapping an access entry with a shared secret and a key identifier gives.
pub open spec fn unwrapped_key(entry: AccessEntryView, shared: Seq<u8>, kid: Seq<u8>) -> Option<Seq<u8>> {
    match aes256gcmsiv_opened(wrapping_key_of(shared, kid), entry.wrap_nonce, entry.wrapped_data_key) {
        Some(dk) => if dk.len() == 32 {
            Some(dk)
        } else {
            None
        },
        None => None,
    }
}

/// Unwrap the data key of an access entry.
pub fn unwrap_data_key(entry: &AccessEntry, shared_secret: &[u8; 32], key_id: &KeyId) -> (r: Result<[u8; 32]>)
    ensures
        match unwrapped_key(entry@, shared_secret@, key_id@) {
            Some(dk) => r matches Ok(k) && k@ == dk,
            None => r matches Err(e) && e is DecryptionError,
        },
{
    let wrapping_key = derive_wrapping_key(shared_secret, key_id);
    let data_key = match aes256gcmsiv_open(&wrapping_key, &entry.wrap_nonce, entry.wrapped_data_key.as_slice()) {
        Some(k) => k,
        None => {
            return Err(RokError::DecryptionError(String::from_str("failed to unwrap data key")));
        },
    };
    if data_key.len() != 32 {
        return Err(RokError::DecryptionError(String::from_str("invalid data key length")));
    }
    let key = array32(data_key.as_slice(), 0);
    assert(key@ =~= data_key@);
    Ok(key)
}

} // verus!
