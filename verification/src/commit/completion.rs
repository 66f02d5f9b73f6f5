use vstd::prelude::*;

use crate::{
    commit::{extract::InclusionProof, BatchCompletion, Payload},
    discovery::client::ClientState,
};

verus! {

/// The proof that a payload was completed: the completion of its batch and the
/// proof that the payload belongs to the batch.
pub struct CompletionProof {
    batch: BatchCompletion,
    inclusion: InclusionProof,
}

/// Why a completion proof is refused.
#[derive(Debug, Clone, Copy, PartialEq, Eq, Structural)]
pub enum CompletionProofError {
    BatchCompletionInvalid,
    InclusionInvalid,
}

impl CompletionProof {
    pub closed spec fn spec_batch(&self) -> BatchCompletion {
        self.batch
    }

    pub closed spec fn spec_inclusion(&self) -> InclusionProof {
        self.inclusion
    }

    pub fn new(batch: BatchCompletion, inclusion: InclusionProof) -> (result: CompletionProof)
        ensures
            result.spec_batch() == batch,
            result.spec_inclusion() == inclusion,
    {
        CompletionProof { batch, inclusion }
    }

    pub fn batch(&self) -> (result: &BatchCompletion)
        ensures
            *result == self.spec_batch(),
    {
        &self.batch
    }

    pub fn inclusion(&self) -> (result: &InclusionProof)
        ensures
            *result == self.spec_inclusion(),
    {
        &self.inclusion
    }

    /// Checks the proof: the batch completion must pass its own validation with
    /// the multi-signature outcome `batch_valid`, and the inclusion proof must
    /// have verified (`inclusion_valid`) the payload against the root of the batch.
    pub fn validate(&self, discovery: &ClientState, batch_valid: bool, inclusion_valid: bool) -> (result:
        Result<(), CompletionProofError>)
        requires
            discovery.wf(),
        ensures
            result == if !(discovery.database.views.spec_map().contains_key(
                self.spec_batch().spec_view()@,
            ) && self.spec_batch().spec_certificate().spec_power()
                >= discovery.database.views.spec_map()[self.spec_batch().spec_view()@].spec_quorum()
                && batch_valid) {
                Err(CompletionProofError::BatchCompletionInvalid)
            } else if !inclusion_valid {
                Err(CompletionProofError::InclusionInvalid)
            } else {
                Ok::<(), CompletionProofError>(())
            },
    {
        if self.batch.validate(discovery, batch_valid).is_err() {
            return Err(CompletionProofError::BatchCompletionInvalid);
        }
        if !inclusion_valid {
            return Err(CompletionProofError::InclusionInvalid);
        }
        Ok(())
    }
}

/// A payload together with the proof of its completion.
pub struct Completion {
    proof: CompletionProof,
    payload: Payload,
}

impl Completion {
    pub closed spec fn spec_proof(&self) -> CompletionProof {
        self.proof
    }

    pub closed spec fn spec_payload(&self) -> Payload {
        self.payload
    }

    pub fn new(proof: CompletionProof, payload: Payload) -> (result: Completion)
        ensures
            result.spec_proof() == proof,
            result.spec_payload() == payload,
    {
        Completion { proof, payload }
    }

    /// Checks the proof of completion of the payload (see `CompletionProof::validate`).
    pub fn validate(&self, discovery: &ClientState, batch_valid: bool, inclusion_valid: bool) -> (result:
        Result<(), CompletionProofError>)
        requires
            discovery.wf(),
        ensures
            result == if !(discovery.database.views.spec_map().contains_key(
                self.spec_proof().spec_batch().spec_view()@,
            ) && self.spec_proof().spec_batch().spec_certificate().spec_power()
                >= discovery.database.views.spec_map()[self.spec_proof().spec_batch().spec_view()@].spec_quorum()
                && batch_valid) {
                Err(CompletionProofError::BatchCompletionInvalid)
            } else if !inclusion_valid {
                Err(CompletionProofError::InclusionInvalid)
            } else {
                Ok::<(), CompletionProofError>(())
            },
    {
        self.proof.validate(discovery, batch_valid, inclusion_valid)
    }
}

} // verus!
