//! Content references and signature envelopes shared by all records.

use vstd::prelude::*;
use vstd::std_specs::cmp::PartialEqSpecImpl;

verus! {

/// A content reference: the digest algorithm and the lowercase hex digest.
#[derive(Debug, Clone)]
pub struct HashRef {
    pub algorithm: String,
    pub digest_hex: String,
}

/// A signature over a payload, with the signer and the key that made it.
#[derive(Debug, Clone)]
pub struct SignatureEnvelope {
    pub signer_id: String,
    pub signature_hex: String,
    pub key_id: String,
}

impl HashRef {
    /// A field-for-field copy.
    pub fn copied(&self) -> (r: HashRef)
        ensures
            r == *self,
    {
        HashRef { algorithm: self.algorithm.clone(), digest_hex: self.digest_hex.clone() }
    }
}

impl SignatureEnvelope {
    /// A field-for-field copy.
    pub fn copied(&self) -> (r: SignatureEnvelope)
        ensures
            r == *self,
    {
        SignatureEnvelope {
            signer_id: self.signer_id.clone(),
            signature_hex: self.signature_hex.clone(),
            key_id: self.key_id.clone(),
        }
    }
}

impl PartialEq for HashRef {
    fn eq(&self, other: &Self) -> (r: bool) {
        self.algorithm == other.algorithm && self.digest_hex == other.digest_hex
    }
}

impl PartialEqSpecImpl for HashRef {
    open spec fn obeys_eq_spec() -> bool {
        true
    }

    open spec fn eq_spec(&self, other: &Self) -> bool {
        self.algorithm@ == other.algorithm@ && self.digest_hex@ == other.digest_hex@
    }
}

impl Eq for HashRef {}

impl PartialEq for SignatureEnvelope {
    fn eq(&self, other: &Self) -> (r: bool) {
        self.signer_id == other.signer_id && self.signature_hex == other.signature_hex
            && self.key_id == other.key_id
    }
}

impl PartialEqSpecImpl for SignatureEnvelope {
    open spec fn obeys_eq_spec() -> bool {
        true
    }

    open spec fn eq_spec(&self, other: &Self) -> bool {
        self.signer_id@ == other.signer_id@ && self.signature_hex@ == other.signature_hex@
            && self.key_id@ == other.key_id@
    }
}

impl Eq for SignatureEnvelope {}

} // verus!
