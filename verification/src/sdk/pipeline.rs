//! Encrypted data pipeline: chunks encrypted for a changing set of consumers.
use vstd::prelude::*;
use crate::encrypt::{decrypt, decrypt_outcome, sealed_for, DecryptOutcome, Recipient};
use crate::envelope::EncryptedEnvelope;
use crate::error::Result;
use crate::keys::key_id::KeyId;
use crate::keys::read::ReadKeyPair;
use crate::keys::scope::Scope;
use crate::keys::spend::{SpendKeyPair, SpendKeyView};
use crate::sdk::vault::{encrypt_for, recipients_builder};

verus! {

/// The mathematical content of a pipeline.
pub struct PipelineView {
    pub scope: Seq<char>,
    pub spend: SpendKeyView,
    pub consumers: Seq<Recipient>,
}

/// Encrypted data pipeline with scope-based consumer access.
///
/// A pipeline encrypts data chunks for a set of consumers, each holding a read key that
/// can decrypt the stream. Consumers can be added or removed at any time.
pub struct Pipeline {
    scope: Scope,
    spend_key: SpendKeyPair,
    consumers: Vec<Recipient>,
}

impl View for Pipeline {
    type V = PipelineView;

    closed spec fn view(&self) -> PipelineView {
        PipelineView { scope: self.scope@, spend: self.spend_key@, consumers: self.consumers@ }
    }
}

/// The predicate "does not carry the key identifier `kid`".
pub open spec fn not_keyed(kid: Seq<u8>) -> spec_fn(Recipient) -> bool {
    |r: Recipient| r.key_id@ != kid
}

impl Pipeline {
    /// Create a new pipeline for the given scope, without consumers.
    pub fn new(scope: Scope, spend_key: SpendKeyPair) -> (p: Pipeline)
        ensures
            p@ == (PipelineView { scope: scope@, spend: spend_key@, consumers: Seq::empty() }),
    {
        let p = Pipeline { scope, spend_key, consumers: Vec::new() };
        assert(p@.consumers =~= Seq::<Recipient>::empty());
        p
    }

    /// Add a consumer (read key) to the pipeline.
    pub fn add_consumer(&mut self, recipient: Recipient)
        ensures
            final(self)@ == (PipelineView { consumers: old(self)@.consumers.push(recipient), ..old(self)@ }),
    {
        self.consumers.push(recipient);
    }

    /// Remove every consumer with the given key identifier.
    pub fn remove_consumer(&mut self, key_id: &KeyId)
        ensures
            final(self)@ == (PipelineView {
                consumers: old(self)@.consumers.filter(not_keyed(key_id@)),
                ..old(self)@
            }),
    {
        let ghost old_c = self@.consumers;
        let mut kept: Vec<Recipient> = Vec::new();
        let mut i: usize = 0;
        while i < self.consumers.len()
            invariant
                i <= old_c.len(),
                old_c == self.consumers@,
                kept@ == old_c.subrange(0, i as int).filter(not_keyed(key_id@)),
            decreases old_c.len() - i,
        {
            let ghost before = kept@;
            let r = self.consumers[i];
            let differs = !(r.key_id == *key_id);
            if differs {
                kept.push(r);
            }
            i = i + 1;
            proof {
                let pre = old_c.subrange(0, i as int);
                assert(pre.drop_last() =~= old_c.subrange(0, i - 1));
                assert(pre.last() == r);
                reveal(Seq::filter);
                assert(not_keyed(key_id@)(r) == differs);
                assert(kept@ =~= pre.filter(not_keyed(key_id@)));
            }
        }
        assert(old_c.subrange(0, old_c.len() as int) =~= old_c);
        self.consumers = kept;
    }

    /// Number of current consumers.
    pub fn consumer_count(&self) -> (n: usize)
        ensures
            n == self@.consumers.len(),
    {
        self.consumers.len()
    }

    /// Encrypt a data chunk for all current consumers.
    pub fn encrypt_chunk(&self, data: &[u8]) -> (r: Result<EncryptedEnvelope>)
        ensures
            r is Ok <==> (self@.consumers.len() > 0 && data@.len() / 64 < 4294967295),
            r matches Err(e) ==> e is EncryptionError,
            r matches Ok(e) ==> sealed_for(e@, recipients_builder(self@.spend, self@.scope, self@.consumers), data@),
    {
        encrypt_for(&self.spend_key, &self.scope, data, self.consumers.as_slice())
    }

    /// Decrypt a chunk using a consumer's read key.
    pub fn decrypt_chunk(envelope: &EncryptedEnvelope, read_key: &ReadKeyPair, spend_verifying_key: &[u8; 32]) -> (r: Result<Vec<u8>>)
        ensures
            match decrypt_outcome(envelope@, read_key@, spend_verifying_key@) {
                DecryptOutcome::Plaintext(pt) => r matches Ok(p) && p@ == pt,
                _ => r is Err,
            },
    {
        decrypt(envelope, read_key, spend_verifying_key)
    }
}

} // verus!
