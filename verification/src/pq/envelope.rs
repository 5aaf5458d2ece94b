//! Hybrid (X25519 + ML-KEM-768 + ChaCha20-Poly1305) envelopes, scope-based.
use vstd::prelude::*;
use crate::bytes::array32;
use crate::crypto::{
    chacha20poly1305_opened, ed25519_accepts, ed25519_verify, mlkem768_decapsulated,
    random_bytes, x25519_public, x25519_public_key, x25519_shared_secret,
};
use crate::derive::{hybrid_secret_of, read_secret_below, scope_read_secret};
use crate::encrypt::{
    decrypt_payload, encrypt_payload, first_entry, lemma_first_entry_pub, lemma_no_entry_pub,
    unwrap_data_key, unwrapped_key, wrap_data_key, AccessMode, Algorithm, DecryptOutcome,
};
use crate::envelope::{signable_seq, EncryptedEnvelope, EnvelopeView};
use crate::error::{Result, RokError};
use crate::keys::key_id::key_id_of;
use crate::keys::read::{ReadKeyPair, ReadKeyView};
use crate::keys::scope::{ancestor_path, valid_scope, Scope};
use crate::keys::spend::SpendKeyPair;
use crate::pq::hybrid::{hybrid_decapsulate, hybrid_encapsulate, HybridRecipient};
use crate::pq::pq_derive::{derive_pq_keypair, pq_keypair_of};

verus! {

/// The secret that decrypts a hybrid envelope: the read key's own, or the one derived
/// from it down to the envelope's scope.
pub open spec fn hybrid_secret_for(env: EnvelopeView, k: ReadKeyView) -> Seq<u8> {
    if k.scope != env.scope {
        read_secret_below(k.secret, k.scope, env.scope)
    } else {
        k.secret
    }
}

/// The public key that belongs to `hybrid_secret_for`.
pub open spec fn hybrid_public_for(env: EnvelopeView, k: ReadKeyView) -> Seq<u8> {
    if k.scope != env.scope {
        x25519_public_key(hybrid_secret_for(env, k))
    } else {
        k.public
    }
}

/// What `hybrid_decrypt` gives when ML-KEM decapsulation of the envelope's ciphertext
/// yields `kem`: the algorithm is checked first, then the signature, then scope access;
/// the access entry and the combined secret of the X25519 agreement and `kem` unwrap the
/// data key, which opens the payload.
pub open spec fn hybrid_outcome_with(env: EnvelopeView, k: ReadKeyView, vk: Seq<u8>, kem: Option<Seq<u8>>) -> DecryptOutcome {
    if env.algorithm != Algorithm::HybridX25519MlKemChaCha20 {
        DecryptOutcome::Undecryptable
    } else if !ed25519_accepts(vk, signable_seq(env), env.signature) {
        DecryptOutcome::BadSignature
    } else if !ancestor_path(k.scope, env.scope) {
        DecryptOutcome::ScopeMismatch
    } else {
        let secret = hybrid_secret_for(env, k);
        let kid = key_id_of(hybrid_public_for(env, k));
        match first_entry(env.access_entries, kid) {
            None => DecryptOutcome::NoEntry,
            Some(entry) => match env.ephemeral_mlkem_ciphertext {
                None => DecryptOutcome::Undecryptable,
                Some(_) => match kem {
                    None => DecryptOutcome::Undecryptable,
                    Some(ss) => {
                        let combined = hybrid_secret_of(
                            x25519_shared_secret(secret, env.ephemeral_x25519_public),
                            ss,
                        );
                        match unwrapped_key(entry, combined, kid) {
                            None => DecryptOutcome::Undecryptable,
                            Some(dk) => match chacha20poly1305_opened(dk, env.nonce, env.ciphertext + env.tag) {
                                None => DecryptOutcome::Undecryptable,
                                Some(pt) => DecryptOutcome::Plaintext(pt),
                            },
                        }
                    },
                },
            },
        }
    }
}

/// What ML-KEM decapsulation of a hybrid envelope's ciphertext yields for a read key: the
/// decapsulation key is that of the scope's ML-KEM key pair, which the key's secret
/// derived down to the scope gives.
pub open spec fn hybrid_kem_secret(env: EnvelopeView, k: ReadKeyView) -> Option<Seq<u8>> {
    match env.ephemeral_mlkem_ciphertext {
        Some(ct) => mlkem768_decapsulated(pq_keypair_of(hybrid_secret_for(env, k), env.scope).0, ct),
        None => None,
    }
}

/// What `hybrid_decrypt` gives.
pub open spec fn hybrid_decrypt_outcome(env: EnvelopeView, k: ReadKeyView, vk: Seq<u8>) -> DecryptOutcome {
    hybrid_outcome_with(env, k, vk, hybrid_kem_secret(env, k))
}

/// Whether `e` is a hybrid envelope of `pt` at `scope` for the hierarchy of `seed`, checked
/// against the verifying key `vk`: its ML-KEM ciphertext is an encapsulation of some
/// shared secret to the scope's ML-KEM encapsulation key, and every key of the hierarchy
/// at the scope or above decrypts it to `pt` when decapsulation yields that secret.
pub open spec fn hybrid_sealed_for(e: EnvelopeView, seed: Seq<u8>, vk: Seq<u8>, scope: Seq<char>, pt: Seq<u8>) -> bool {
    exists|ss: Seq<u8>|
        #![trigger hybrid_secret_of(e.ephemeral_x25519_public, ss)]
        ss.len() == 32 && (e.ephemeral_mlkem_ciphertext matches Some(ct) && crate::crypto::mlkem768_encapsulated(
            pq_keypair_of(scope_read_secret(seed, scope), scope).1,
            ss,
            ct,
        )) && forall|k: ReadKeyView|
            in_hierarchy(seed, k) && ancestor_path(k.scope, scope) ==> #[trigger] hybrid_outcome_with(
                e,
                k,
                vk,
                Some(ss),
            ) == DecryptOutcome::Plaintext(pt)
}

/// A read key decrypts no hybrid envelope outside its own subtree.
pub proof fn lemma_hybrid_no_access_outside_subtree(env: EnvelopeView, k: ReadKeyView, vk: Seq<u8>)
    requires
        !ancestor_path(k.scope, env.scope),
    ensures
        !(hybrid_decrypt_outcome(env, k, vk) is Plaintext),
{
}

/// Decrypt a hybrid envelope. The read key can be at the envelope's scope or any
/// ancestor scope; it is derived down to the envelope's scope when needed.
pub fn hybrid_decrypt(envelope: &EncryptedEnvelope, read_key: &ReadKeyPair, spend_verifying_key: &[u8; 32]) -> (r: Result<Vec<u8>>)
    ensures
        match hybrid_decrypt_outcome(envelope@, read_key@, spend_verifying_key@) {
            DecryptOutcome::Plaintext(pt) => r matches Ok(p) && p@ == pt,
            DecryptOutcome::BadSignature => r matches Err(e) && e is SignatureVerificationFailed,
            DecryptOutcome::ScopeMismatch => r matches Err(e) && e is ScopeMismatch,
            DecryptOutcome::NoEntry => r matches Err(e) && e is NoMatchingAccessEntry,
            DecryptOutcome::Undecryptable => r matches Err(e) && e is DecryptionError,
        },
{
    if envelope.algorithm != Algorithm::HybridX25519MlKemChaCha20 {
        return Err(RokError::DecryptionError(String::from_str("expected hybrid algorithm")));
    }
    let signable = envelope.signable_bytes();
    if !ed25519_verify(spend_verifying_key, signable.as_slice(), &envelope.signature) {
        return Err(RokError::SignatureVerificationFailed);
    }
    if !read_key.can_access(&envelope.scope) {
        return Err(
            RokError::ScopeMismatch {
                key_scope: String::from_str(read_key.scope().as_str()),
                data_scope: String::from_str(envelope.scope.as_str()),
            },
        );
    }
    proof {
        use_type_invariant(read_key);
    }
    let derived: ReadKeyPair;
    let decrypt_key: &ReadKeyPair;
    if read_key.scope() != &envelope.scope {
        derived = match read_key.derive_child(&envelope.scope) {
            Ok(k) => k,
            Err(e) => {
                return Err(e);
            },
        };
        decrypt_key = &derived;
    } else {
        decrypt_key = read_key;
    }
    proof {
        use_type_invariant(decrypt_key);
    }
    assert(decrypt_key@.secret == hybrid_secret_for(envelope@, read_key@));
    assert(decrypt_key@.public == hybrid_public_for(envelope@, read_key@));
    let my_key_id = decrypt_key.key_id();
    let mut i: usize = 0;
    let n = envelope.access_entries.len();
    while i < n && !crate::bytes::bytes_equal(envelope.access_entries[i].read_key_id.as_bytes(), my_key_id.as_bytes())
        invariant
            n == envelope.access_entries@.len(),
            i <= n,
            forall|j: int|
                0 <= j < i ==> (#[trigger] envelope@.access_entries[j]).read_key_id != my_key_id@,
        decreases n - i,
    {
        i = i + 1;
    }
    if i == n {
        proof {
            lemma_no_entry_pub(envelope@.access_entries, my_key_id@);
        }
        return Err(RokError::NoMatchingAccessEntry(my_key_id.to_base58()));
    }
    let entry = &envelope.access_entries[i];
    proof {
        assert(envelope@.access_entries[i as int] == entry@);
        lemma_first_entry_pub(envelope@.access_entries, my_key_id@, i as int);
    }
    let read_secret = decrypt_key.secret_bytes();
    let pq_keypair = derive_pq_keypair(&read_secret, &envelope.scope);
    let mlkem_ct = match &envelope.ephemeral_mlkem_ciphertext {
        Some(ct) => ct,
        None => {
            return Err(RokError::DecryptionError(String::from_str("hybrid envelope missing ML-KEM ciphertext")));
        },
    };
    let combined = hybrid_decapsulate(
        decrypt_key.secret(),
        &envelope.ephemeral_x25519_public,
        pq_keypair.decapsulation_key(),
        mlkem_ct.as_slice(),
    )?;
    let data_key = unwrap_data_key(entry, &combined, &my_key_id)?;
    decrypt_payload(&data_key, envelope.ciphertext.as_slice(), &envelope.nonce, &envelope.tag)
}

/// Whether `k` is a read key of the hierarchy of the spend seed: a valid key at a valid
/// scope whose secret is the one that the seed derives for that scope.
pub open spec fn in_hierarchy(seed: Seq<u8>, k: ReadKeyView) -> bool {
    &&& valid_scope(k.scope)
    &&& k.secret.len() == 32
    &&& k.public == x25519_public_key(k.secret)
    &&& k.secret == scope_read_secret(seed, k.scope)
}

proof fn lemma_hybrid_opens(
    e: EnvelopeView,
    seed: Seq<u8>,
    public: Seq<u8>,
    plaintext: Seq<u8>,
    data_key: Seq<u8>,
    eph: Seq<u8>,
    ss: Seq<u8>,
    k: ReadKeyView,
)
    requires
        valid_scope(e.scope),
        e.algorithm == Algorithm::HybridX25519MlKemChaCha20,
        ed25519_accepts(public, signable_seq(e), e.signature),
        e.ephemeral_x25519_public == x25519_public_key(eph),
        forall|other: Seq<u8>|
            other.len() == 32 ==> #[trigger] x25519_shared_secret(other, x25519_public_key(eph))
                == x25519_shared_secret(eph, x25519_public_key(other)),
        scope_read_secret(seed, e.scope).len() == 32,
        e.access_entries.len() == 1,
        e.access_entries[0].read_key_id == key_id_of(x25519_public_key(scope_read_secret(seed, e.scope))),
        unwrapped_key(
            e.access_entries[0],
            hybrid_secret_of(
                x25519_shared_secret(eph, x25519_public_key(scope_read_secret(seed, e.scope))),
                ss,
            ),
            e.access_entries[0].read_key_id,
        ) == Some(data_key),
        chacha20poly1305_opened(data_key, e.nonce, e.ciphertext + e.tag) == Some(plaintext),
        e.ephemeral_mlkem_ciphertext is Some,
        in_hierarchy(seed, k),
        ancestor_path(k.scope, e.scope),
    ensures
        hybrid_outcome_with(e, k, public, Some(ss)) == DecryptOutcome::Plaintext(plaintext),
{
    let secret = hybrid_secret_for(e, k);
    if k.scope != e.scope {
        crate::keys::scope::lemma_root_ancestor_of_all(k.scope);
        crate::keys::scope::lemma_valid_root();
        crate::derive::lemma_read_secret_stepwise(
            crate::derive::root_read_secret(seed),
            crate::keys::scope::root_path(),
            k.scope,
            e.scope,
        );
    }
    assert(secret == scope_read_secret(seed, e.scope));
    assert(hybrid_public_for(e, k) == x25519_public_key(secret));
    let kid = key_id_of(hybrid_public_for(e, k));
    lemma_first_entry_pub(e.access_entries, kid, 0);
    assert(x25519_shared_secret(secret, x25519_public_key(eph)) == x25519_shared_secret(
        eph,
        x25519_public_key(secret),
    ));
}

/// Encrypt plaintext in hybrid mode (X25519 + ML-KEM-768 + ChaCha20-Poly1305) at a
/// scope, signed by the spend key.
///
/// This is scope-based only: the spend key derives the scope's read key, from which both
/// the X25519 and the ML-KEM keys come, so any ancestor key holder can derive the same
/// keys and decrypt.
pub fn hybrid_encrypt(plaintext: &[u8], scope: &Scope, spend_key: &SpendKeyPair) -> (r: Result<EncryptedEnvelope>)
    ensures
        r is Ok <==> plaintext@.len() / 64 < 4294967295,
        r matches Err(e) ==> e is EncryptionError,
        r matches Ok(e) ==> {
            &&& e@.version == 2
            &&& e@.algorithm == Algorithm::HybridX25519MlKemChaCha20
            &&& e@.scope == scope@
            &&& e@.access_mode == AccessMode::ScopeBased
            &&& e@.spend_public_key == spend_key@.public
            &&& e@.access_entries.len() == 1
            &&& ed25519_accepts(spend_key@.public, signable_seq(e@), e@.signature)
            &&& e@.ephemeral_mlkem_ciphertext matches Some(ct) && ct.len() == 1088
            &&& e@.ciphertext.len() == plaintext@.len()
            &&& hybrid_sealed_for(e@, spend_key@.seed, spend_key@.public, scope@, plaintext@)
        },
{
    proof {
        use_type_invariant(scope);
        use_type_invariant(spend_key);
        crate::keys::scope::lemma_root_ancestor_of_all(scope@);
    }
    let root_read = spend_key.derive_root_read_key();
    let scope_key = if scope.is_root() {
        root_read
    } else {
        match root_read.derive_child(scope) {
            Ok(k) => k,
            Err(e) => {
                assert(false);
                return Err(e);
            },
        }
    };
    proof {
        use_type_invariant(&scope_key);
    }
    let ghost seed = spend_key@.seed;
    assert(scope_key@.secret == scope_read_secret(seed, scope@));
    let read_secret = scope_key.secret_bytes();
    let pq_keypair = derive_pq_keypair(&read_secret, scope);
    let data_key = array32(random_bytes(32).as_slice(), 0);
    let ephemeral_secret = array32(random_bytes(32).as_slice(), 0);
    let ephemeral_public = x25519_public(&ephemeral_secret);
    let key_id = scope_key.key_id();
    let ek = pq_keypair.encapsulation_key();
    let mut mlkem_encapsulation_key: Vec<u8> = Vec::new();
    crate::bytes::push_bytes(&mut mlkem_encapsulation_key, ek);
    let recipient = HybridRecipient {
        x25519_public: *scope_key.public_key(),
        mlkem_encapsulation_key,
        key_id,
    };
    let encap = hybrid_encapsulate(&recipient, &ephemeral_secret);
    let ghost ss = choose|ss: Seq<u8>|
        ss.len() == 32 && encap.combined_shared_secret@ == #[trigger] hybrid_secret_of(
            x25519_shared_secret(ephemeral_secret@, recipient.x25519_public@),
            ss,
        ) && crate::crypto::mlkem768_encapsulated(recipient.mlkem_encapsulation_key@, ss, encap.mlkem_ciphertext@);
    assert(recipient.mlkem_encapsulation_key@ == pq_keypair_of(scope_read_secret(seed, scope@), scope@).1);
    let (nonce, ciphertext, tag) = encrypt_payload(&data_key, plaintext)?;
    let entry = match wrap_data_key(&data_key, &encap.combined_shared_secret, &key_id) {
        Ok(e) => e,
        Err(e) => {
            return Err(e);
        },
    };
    let mut access_entries: Vec<crate::envelope::AccessEntry> = Vec::new();
    access_entries.push(entry);
    let mut envelope = EncryptedEnvelope {
        version: EncryptedEnvelope::CURRENT_VERSION,
        algorithm: Algorithm::HybridX25519MlKemChaCha20,
        scope: scope.clone(),
        ephemeral_x25519_public: ephemeral_public,
        ephemeral_mlkem_ciphertext: Some(encap.mlkem_ciphertext),
        access_entries,
        nonce,
        ciphertext,
        tag,
        signature: [0u8; 64],
        spend_public_key: spend_key.verifying_key(),
        access_mode: AccessMode::ScopeBased,
    };
    let ghost unsigned = envelope@;
    let signable = envelope.signable_bytes();
    envelope.signature = spend_key.sign_bytes(signable.as_slice());
    proof {
        let e = envelope@;
        assert(signable_seq(e) == signable_seq(unsigned));
        assert(e.access_entries[0] == entry@);
        assert(unwrapped_key(entry@, encap.combined_shared_secret@, key_id@) == Some(data_key@));
        assert forall|k: ReadKeyView|
            in_hierarchy(seed, k) && ancestor_path(k.scope, scope@) implies #[trigger] hybrid_outcome_with(
            e,
            k,
            spend_key@.public,
            Some(ss),
        ) == DecryptOutcome::Plaintext(plaintext@) by {
            lemma_hybrid_opens(e, seed, spend_key@.public, plaintext@, data_key@, ephemeral_secret@, ss, k);
        }
        assert(hybrid_secret_of(e.ephemeral_x25519_public, ss) == hybrid_secret_of(e.ephemeral_x25519_public, ss));
    }
    Ok(envelope)
}

} // verus!
