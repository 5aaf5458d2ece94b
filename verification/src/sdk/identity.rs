//! Credentials whose attributes are encrypted each under its own scope, for selective
//! disclosure.
use vstd::prelude::*;
use crate::encrypt::{decrypt, decrypt_outcome, sealed_for, DecryptOutcome, Recipient};
use crate::envelope::{EncryptedEnvelope, EnvelopeView};
use crate::error::{Result, RokError};
use crate::keys::read::{ReadKeyPair, ReadKeyView};
use crate::keys::scope::{ancestor_path, Scope};
use crate::keys::spend::SpendKeyPair;
use crate::sdk::vault::{encrypt_for, recipients_builder};

verus! {

/// An encrypted attribute within a credential.
#[derive(Debug, Clone)]
pub struct EncryptedAttribute {
    pub name: String,
    pub scope: Scope,
    pub envelope: EncryptedEnvelope,
}

/// The mathematical content of an encrypted attribute.
pub struct AttributeView {
    pub name: Seq<char>,
    pub scope: Seq<char>,
    pub envelope: EnvelopeView,
}

impl View for EncryptedAttribute {
    type V = AttributeView;

    open spec fn view(&self) -> AttributeView {
        AttributeView { name: self.name@, scope: self.scope@, envelope: self.envelope@ }
    }
}

/// The views of a sequence of attributes.
pub open spec fn attribute_views(v: Seq<EncryptedAttribute>) -> Seq<AttributeView> {
    v.map_values(|a: EncryptedAttribute| a@)
}

/// A credential with individually encrypted attributes.
///
/// Each attribute is encrypted under its own scope, enabling selective disclosure: a
/// verifier with a read key for `/identity/name` can see the name but not
/// `/identity/dob`.
pub struct Credential {
    pub issuer_verifying_key: [u8; 32],
    pub subject_id: String,
    pub attributes: Vec<EncryptedAttribute>,
}

/// Whether every attribute value is below the payload cipher's size limit.
pub open spec fn values_fit(attributes: Seq<(&str, &Scope, &[u8])>) -> bool {
    forall|i: int| 0 <= i < attributes.len() ==> (#[trigger] attributes[i]).2@.len() / 64 < 4294967295
}

/// What a read key discloses of the attributes, in order: an attribute outside its
/// scope, or one it is no recipient of, is skipped; any other failure fails the whole.
pub open spec fn disclosed(attrs: Seq<AttributeView>, k: ReadKeyView, vk: Seq<u8>) -> Option<Seq<(Seq<char>, Seq<u8>)>>
    decreases attrs.len(),
{
    if attrs.len() == 0 {
        Some(seq![])
    } else {
        match disclosed(attrs.drop_last(), k, vk) {
            None => None,
            Some(ds) => {
                let a = attrs.last();
                if !ancestor_path(k.scope, a.scope) {
                    Some(ds)
                } else {
                    match decrypt_outcome(a.envelope, k, vk) {
                        DecryptOutcome::Plaintext(pt) => Some(ds.push((a.name, pt))),
                        DecryptOutcome::NoEntry => Some(ds),
                        _ => None,
                    }
                }
            },
        }
    }
}

/// Law: a read key discloses every attribute it can read. Where a disclosure succeeds,
/// every attribute whose scope lies at or below the key's scope and whose envelope
/// decrypts under the key is disclosed with its plaintext.
#[verifier::rlimit(50)]
pub proof fn lemma_disclosed_complete(attrs: Seq<AttributeView>, k: ReadKeyView, vk: Seq<u8>)
    ensures
        disclosed(attrs, k, vk) matches Some(ds) ==> (forall|j: int|
            0 <= j < attrs.len() && ancestor_path(k.scope, (#[trigger] attrs[j]).scope) ==> (decrypt_outcome(
                attrs[j].envelope,
                k,
                vk,
            ) matches DecryptOutcome::Plaintext(pt) ==> ds.contains((attrs[j].name, pt)))),
    decreases attrs.len(),
{
    if attrs.len() > 0 {
        let a0 = attrs.drop_last();
        lemma_disclosed_complete(a0, k, vk);
        if disclosed(attrs, k, vk) is Some {
            let rest = disclosed(a0, k, vk)->Some_0;
            let ds = disclosed(attrs, k, vk)->Some_0;
            let n = attrs.len() - 1;
            let last = attrs[n];
            let o = decrypt_outcome(last.envelope, k, vk);
            assert(ancestor_path(k.scope, last.scope) && o is Plaintext ==> ds == rest.push((last.name, o->Plaintext_0)));
            assert(!(ancestor_path(k.scope, last.scope) && o is Plaintext) ==> ds == rest);
            assert forall|j: int|
                0 <= j < attrs.len() && ancestor_path(k.scope, (#[trigger] attrs[j]).scope) implies (decrypt_outcome(
                    attrs[j].envelope,
                    k,
                    vk,
                ) matches DecryptOutcome::Plaintext(pt) ==> ds.contains((attrs[j].name, pt))) by {
                if j < n {
                    assert(attrs[j] == a0[j]);
                    if decrypt_outcome(a0[j].envelope, k, vk) is Plaintext {
                        let pt = decrypt_outcome(a0[j].envelope, k, vk)->Plaintext_0;
                        assert(rest.contains((a0[j].name, pt)));
                        let x = choose|x: int| 0 <= x < rest.len() && rest[x] == (a0[j].name, pt);
                        assert(ds[x] == rest[x]);
                    }
                } else if o is Plaintext {
                    assert(ds[rest.len() as int] == (attrs[j].name, o->Plaintext_0));
                }
            }
        }
    }
}

/// Whether `p` is the name of an attribute whose scope lies at or below the key's scope,
/// with the plaintext its envelope decrypts to under the key.
pub open spec fn readable_pair(attrs: Seq<AttributeView>, k: ReadKeyView, vk: Seq<u8>, p: (Seq<char>, Seq<u8>)) -> bool {
    exists|j: int|
        #![trigger attrs[j]]
        0 <= j < attrs.len() && ancestor_path(k.scope, attrs[j].scope) && p.0 == attrs[j].name && decrypt_outcome(
            attrs[j].envelope,
            k,
            vk,
        ) == DecryptOutcome::Plaintext(p.1)
}

/// Law: a read key discloses only what it can read. Every disclosed pair is the name of
/// an attribute whose scope lies at or below the key's scope and the plaintext its
/// envelope decrypts to under the key.
#[verifier::rlimit(50)]
pub proof fn lemma_disclosed_sound(attrs: Seq<AttributeView>, k: ReadKeyView, vk: Seq<u8>)
    ensures
        disclosed(attrs, k, vk) matches Some(ds) ==> (forall|i: int|
            0 <= i < ds.len() ==> readable_pair(attrs, k, vk, #[trigger] ds[i])),
    decreases attrs.len(),
{
    if attrs.len() > 0 {
        let a0 = attrs.drop_last();
        lemma_disclosed_sound(a0, k, vk);
        if disclosed(attrs, k, vk) is Some {
            let rest = disclosed(a0, k, vk)->Some_0;
            let ds = disclosed(attrs, k, vk)->Some_0;
            let n = attrs.len() - 1;
            let last = attrs[n];
            let o = decrypt_outcome(last.envelope, k, vk);
            assert(ancestor_path(k.scope, last.scope) && o is Plaintext ==> ds == rest.push((last.name, o->Plaintext_0)));
            assert(!(ancestor_path(k.scope, last.scope) && o is Plaintext) ==> ds == rest);
            assert forall|i: int| 0 <= i < ds.len() implies readable_pair(attrs, k, vk, #[trigger] ds[i]) by {
                if i < rest.len() {
                    assert(ds[i] == rest[i]);
                    assert(readable_pair(a0, k, vk, rest[i]));
                    let j = choose|j: int|
                        #![trigger a0[j]]
                        0 <= j < a0.len() && ancestor_path(k.scope, a0[j].scope) && rest[i].0 == a0[j].name
                            && decrypt_outcome(a0[j].envelope, k, vk) == DecryptOutcome::Plaintext(rest[i].1);
                    assert(attrs[j] == a0[j]);
                } else {
                    assert(ds.len() != rest.len());
                    assert(ancestor_path(k.scope, last.scope) && o is Plaintext);
                    assert(ds[i] == (last.name, o->Plaintext_0));
                    assert(attrs[n] == last);
                }
            }
        }
    }
}

/// The views of disclosed (name, value) pairs.
pub open spec fn pair_views(v: Seq<(String, Vec<u8>)>) -> Seq<(Seq<char>, Seq<u8>)> {
    v.map_values(|p: (String, Vec<u8>)| (p.0@, p.1@))
}

proof fn lemma_disclosed_none_persists(attrs: Seq<AttributeView>, k: ReadKeyView, vk: Seq<u8>, i: int)
    requires
        0 <= i <= attrs.len(),
        disclosed(attrs.subrange(0, i), k, vk) is None,
    ensures
        disclosed(attrs, k, vk) is None,
    decreases attrs.len() - i,
{
    if i < attrs.len() {
        let pre = attrs.subrange(0, i + 1);
        assert(pre.drop_last() =~= attrs.subrange(0, i));
        lemma_disclosed_none_persists(attrs, k, vk, i + 1);
    } else {
        assert(attrs.subrange(0, i) =~= attrs);
    }
}

impl Credential {
    /// Issue a credential: encrypt each attribute under its own scope for all recipients.
    pub fn issue(
        spend_key: &SpendKeyPair,
        subject_id: &str,
        attributes: &[(&str, &Scope, &[u8])],
        recipients: &[Recipient],
    ) -> (r: Result<Credential>)
        ensures
            r is Ok <==> ((attributes@.len() == 0 || recipients@.len() > 0) && values_fit(attributes@)),
            r matches Err(e) ==> e is EncryptionError,
            r matches Ok(c) ==> {
                &&& c.issuer_verifying_key@ == spend_key@.public
                &&& c.subject_id@ == subject_id@
                &&& c.attributes@.len() == attributes@.len()
                &&& forall|i: int|
                    0 <= i < attributes@.len() ==> {
                        let a = #[trigger] c.attributes@[i];
                        &&& a.name@ == attributes@[i].0@
                        &&& a.scope@ == attributes@[i].1@
                        &&& sealed_for(
                            a.envelope@,
                            recipients_builder(spend_key@, attributes@[i].1@, recipients@),
                            attributes@[i].2@,
                        )
                    }
            },
    {
        let mut encrypted: Vec<EncryptedAttribute> = Vec::new();
        let mut i: usize = 0;
        while i < attributes.len()
            invariant
                i <= attributes@.len(),
                encrypted@.len() == i,
                forall|k: int| 0 <= k < i ==> (#[trigger] attributes@[k]).2@.len() / 64 < 4294967295,
                i > 0 ==> recipients@.len() > 0,
                forall|k: int|
                    0 <= k < i ==> {
                        let a = #[trigger] encrypted@[k];
                        &&& a.name@ == attributes@[k].0@
                        &&& a.scope@ == attributes@[k].1@
                        &&& sealed_for(
                            a.envelope@,
                            recipients_builder(spend_key@, attributes@[k].1@, recipients@),
                            attributes@[k].2@,
                        )
                    },
            decreases attributes@.len() - i,
        {
            let (name, scope, value) = attributes[i];
            let envelope = match encrypt_for(spend_key, scope, value, recipients) {
                Ok(e) => e,
                Err(e) => {
                    proof {
                        if recipients@.len() > 0 {
                            assert(!((attributes@[i as int]).2@.len() / 64 < 4294967295));
                        }
                    }
                    return Err(e);
                },
            };
            encrypted.push(EncryptedAttribute { name: String::from_str(name), scope: scope.clone(), envelope });
            i = i + 1;
        }
        Ok(
            Credential {
                issuer_verifying_key: spend_key.verifying_key(),
                subject_id: String::from_str(subject_id),
                attributes: encrypted,
            },
        )
    }

    /// Selective disclosure: decrypt the attributes that the read key may see, as
    /// (name, value) pairs; attributes outside its scope, or that it is no recipient of,
    /// are skipped.
    pub fn disclose(&self, read_key: &ReadKeyPair) -> (r: Result<Vec<(String, Vec<u8>)>>)
        ensures
            match disclosed(attribute_views(self.attributes@), read_key@, self.issuer_verifying_key@) {
                Some(ds) => r matches Ok(v) && pair_views(v@) == ds,
                None => r is Err,
            },
    {
        let ghost attrs = attribute_views(self.attributes@);
        let ghost vk = self.issuer_verifying_key@;
        let mut out: Vec<(String, Vec<u8>)> = Vec::new();
        let mut i: usize = 0;
        assert(attrs.subrange(0, 0) =~= Seq::<AttributeView>::empty());
        assert(pair_views(out@) =~= Seq::<(Seq<char>, Seq<u8>)>::empty());
        while i < self.attributes.len()
            invariant
                i <= self.attributes@.len(),
                attrs == attribute_views(self.attributes@),
                vk == self.issuer_verifying_key@,
                disclosed(attrs.subrange(0, i as int), read_key@, vk) == Some(pair_views(out@)),
            decreases self.attributes@.len() - i,
        {
            let attr = &self.attributes[i];
            let ghost before = out@;
            proof {
                let pre = attrs.subrange(0, i + 1);
                assert(pre.drop_last() =~= attrs.subrange(0, i as int));
                assert(pre.last() == attr@);
            }
            if read_key.can_access(&attr.scope) {
                match decrypt(&attr.envelope, read_key, &self.issuer_verifying_key) {
                    Ok(plaintext) => {
                        let pair = (attr.name.clone(), plaintext);
                        let ghost pv = (pair.0@, pair.1@);
                        out.push(pair);
                        assert(pair_views(out@) =~= pair_views(before).push(pv));
                    },
                    Err(RokError::NoMatchingAccessEntry(_)) => {},
                    Err(e) => {
                        proof {
                            lemma_disclosed_none_persists(attrs, read_key@, vk, i + 1);
                        }
                        return Err(e);
                    },
                }
            }
            i = i + 1;
        }
        assert(attrs.subrange(0, attrs.len() as int) =~= attrs);
        Ok(out)
    }

    /// Number of attributes in the credential.
    pub fn attribute_count(&self) -> (n: usize)
        ensures
            n == self.attributes@.len(),
    {
        self.attributes.len()
    }

    /// Attribute names and their scopes (without decrypting).
    pub fn attribute_names(&self) -> (r: Vec<(&str, &Scope)>)
        ensures
            r@.len() == self.attributes@.len(),
            forall|i: int|
                0 <= i < r@.len() ==> (#[trigger] r@[i]).0@ == self.attributes@[i].name@
                    && r@[i].1@ == self.attributes@[i].scope@,
    {
        let mut out: Vec<(&str, &Scope)> = Vec::new();
        let mut i: usize = 0;
        while i < self.attributes.len()
            invariant
                i <= self.attributes@.len(),
                out@.len() == i,
                forall|k: int|
                    0 <= k < i ==> (#[trigger] out@[k]).0@ == self.attributes@[k].name@
                        && out@[k].1@ == self.attributes@[k].scope@,
            decreases self.attributes@.len() - i,
        {
            let a = &self.attributes[i];
            out.push((a.name.as_str(), &a.scope));
            i = i + 1;
        }
        out
    }
}

} // verus!
