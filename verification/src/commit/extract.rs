use vstd::prelude::*;

use crate::{
    account::{Entry, Id, Operation},
    commit::Payload,
    crypto::{Certificate, Digest},
    discovery::client::ClientState,
};

verus! {

/// A proof that an item belongs to the Merkle vector of some root, as encoded bytes.
pub struct InclusionProof {
    pub bytes: Vec<u8>,
}

/// A payload, extracted from a witnessed batch, with the witness of the batch
/// and the proof that the payload belongs to it.
pub struct Extract {
    view: Digest,
    root: Digest,
    witness: Certificate,
    inclusion: InclusionProof,
    payload: Payload,
}

/// Why an extract is refused.
#[derive(Debug, Clone, Copy, PartialEq, Eq, Structural)]
pub enum ExtractError {
    ViewUnknown,
    WitnessInvalid,
    InclusionProofInvalid,
}

impl Extract {
    pub closed spec fn spec_view(&self) -> Digest {
        self.view
    }

    pub closed spec fn spec_root(&self) -> Digest {
        self.root
    }

    pub closed spec fn spec_witness(&self) -> Certificate {
        self.witness
    }

    pub closed spec fn spec_payload(&self) -> Payload {
        self.payload
    }

    pub closed spec fn spec_inclusion(&self) -> InclusionProof {
        self.inclusion
    }

    pub fn new(
        view: Digest,
        root: Digest,
        witness: Certificate,
        inclusion: InclusionProof,
        payload: Payload,
    ) -> (result: Extract)
        ensures
            result.spec_view() == view,
            result.spec_root() == root,
            result.spec_witness() == witness,
            result.spec_payload() == payload,
            result.spec_inclusion() == inclusion,
    {
        Extract { view, root, witness, inclusion, payload }
    }

    pub fn payload(&self) -> (result: &Payload)
        ensures
            *result == self.spec_payload(),
    {
        &self.payload
    }

    pub fn id(&self) -> (result: Id)
        ensures
            result == self.spec_payload().spec_entry().id,
    {
        self.payload.id()
    }

    pub fn height(&self) -> (result: u64)
        ensures
            result == self.spec_payload().spec_entry().height,
    {
        self.payload.height()
    }

    pub fn entry(&self) -> (result: Entry)
        ensures
            result == self.spec_payload().spec_entry(),
    {
        self.payload.entry()
    }

    pub fn operation(&self) -> (result: &Operation)
        ensures
            *result == self.spec_payload().spec_operation(),
    {
        self.payload.operation()
    }

    pub fn inclusion(&self) -> (result: &InclusionProof)
        ensures
            *result == self.spec_inclusion(),
    {
        &self.inclusion
    }

    /// Checks the extract against the views known to `discovery`: its view must
    /// be known; its witness must have a plurality of signers of that view and a
    /// multi-signature that verified (`witness_valid`) on the root; and its
    /// inclusion proof must have verified (`inclusion_valid`) the payload against the root.
    pub fn validate(&self, discovery: &ClientState, witness_valid: bool, inclusion_valid: bool) -> (result:
        Result<(), ExtractError>)
        requires
            discovery.wf(),
        ensures
            result == if !discovery.database.views.spec_map().contains_key(self.spec_view()@) {
                Err(ExtractError::ViewUnknown)
            } else if !(self.spec_witness().spec_power()
                >= discovery.database.views.spec_map()[self.spec_view()@].spec_plurality()
                && witness_valid) {
                Err(ExtractError::WitnessInvalid)
            } else if !inclusion_valid {
                Err(ExtractError::InclusionProofInvalid)
            } else {
                Ok::<(), ExtractError>(())
            },
    {
        let view = match discovery.view(&self.view) {
            Some(view) => view,
            None => return Err(ExtractError::ViewUnknown),
        };
        if self.witness.verify_plurality(view, witness_valid).is_err() {
            return Err(ExtractError::WitnessInvalid);
        }
        if !inclusion_valid {
            return Err(ExtractError::InclusionProofInvalid);
        }
        Ok(())
    }
}

} // verus!
