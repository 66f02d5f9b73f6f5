use vstd::prelude::*;

use crate::{
    commit::{
        extract::{Extract, InclusionProof},
        Payload,
    },
    crypto::{Certificate, Digest},
    discovery::client::ClientState,
};

verus! {

/// A batch of payloads, with the root of their Merkle vector and a certificate,
/// by a plurality of a view, witnessing that root.
pub struct WitnessedBatch {
    view: Digest,
    root: Digest,
    payloads: Vec<Payload>,
    witness: Certificate,
}

/// Why a witnessed batch is refused.
#[derive(Debug, Clone, Copy, PartialEq, Eq, Structural)]
pub enum WitnessedBatchError {
    ViewUnknown,
    CertificateInvalid,
}

impl WitnessedBatch {
    pub closed spec fn spec_view(&self) -> Digest {
        self.view
    }

    pub closed spec fn spec_root(&self) -> Digest {
        self.root
    }

    pub closed spec fn spec_payloads(&self) -> Seq<Payload> {
        self.payloads@
    }

    pub closed spec fn spec_witness(&self) -> Certificate {
        self.witness
    }

    /// The batch of `payloads`, whose Merkle vector has root `root`, witnessed by `witness`.
    pub fn new(view: Digest, root: Digest, payloads: Vec<Payload>, witness: Certificate) -> (result:
        WitnessedBatch)
        ensures
            result.spec_view() == view,
            result.spec_root() == root,
            result.spec_payloads() == payloads@,
            result.spec_witness() == witness,
    {
        WitnessedBatch { view, root, payloads, witness }
    }

    pub fn root(&self) -> (result: Digest)
        ensures
            result == self.spec_root(),
    {
        self.root
    }

    pub fn payloads(&self) -> (result: &[Payload])
        ensures
            result@ == self.spec_payloads(),
    {
        self.payloads.as_slice()
    }

    pub fn witness(&self) -> (result: &Certificate)
        ensures
            *result == self.spec_witness(),
    {
        &self.witness
    }

    /// The extract of the payload at `index`, given `inclusion`, the proof that
    /// it belongs to the Merkle vector of the batch.
    pub fn extract(&self, index: usize, inclusion: InclusionProof) -> (result: Extract)
        requires
            index < self.spec_payloads().len(),
        ensures
            result.spec_view() == self.spec_view(),
            result.spec_root() == self.spec_root(),
            result.spec_witness().spec_signers() == self.spec_witness().spec_signers(),
            result.spec_witness().spec_signature() == self.spec_witness().spec_signature(),
            result.spec_payload() == self.spec_payloads()[index as int],
    {
        Extract::new(self.view, self.root, self.witness.clone(), inclusion, self.payloads[index])
    }

    /// Checks the batch against the views known to `discovery`: its view must be
    /// known, and its witness must have a plurality of signers of that view and a
    /// multi-signature that verified (`valid`) on the root.
    pub fn validate(&self, discovery: &ClientState, valid: bool) -> (result: Result<
        (),
        WitnessedBatchError,
    >)
        requires
            discovery.wf(),
        ensures
            result == if !discovery.database.views.spec_map().contains_key(self.spec_view()@) {
                Err(WitnessedBatchError::ViewUnknown)
            } else if self.spec_witness().spec_power()
                >= discovery.database.views.spec_map()[self.spec_view()@].spec_plurality() && valid {
                Ok::<(), WitnessedBatchError>(())
            } else {
                Err(WitnessedBatchError::CertificateInvalid)
            },
    {
        let view = match discovery.view(&self.view) {
            Some(view) => view,
            None => return Err(WitnessedBatchError::ViewUnknown),
        };
        match self.witness.verify_plurality(view, valid) {
            Ok(()) => Ok(()),
            Err(_) => Err(WitnessedBatchError::CertificateInvalid),
        }
    }
}

} // verus!
