use vstd::prelude::*;

use crate::commit::{BatchCompletion, WitnessedBatch};

verus! {

/// A witnessed batch kept by a replica, with the completion of the batch once known.
pub struct BatchHolder {
    batch: WitnessedBatch,
    completion: Option<BatchCompletion>,
}

impl BatchHolder {
    pub closed spec fn spec_batch(&self) -> WitnessedBatch {
        self.batch
    }

    pub closed spec fn spec_completion(&self) -> Option<BatchCompletion> {
        self.completion
    }

    pub fn new(batch: WitnessedBatch) -> (result: BatchHolder)
        ensures
            result.spec_batch() == batch,
            result.spec_completion() is None,
    {
        BatchHolder { batch, completion: None }
    }

    pub fn batch(&self) -> (result: &WitnessedBatch)
        ensures
            *result == self.spec_batch(),
    {
        &self.batch
    }

    pub fn completion(&self) -> (result: Option<&BatchCompletion>)
        ensures
            match result {
                Some(completion) => self.spec_completion() == Some(*completion),
                None => self.spec_completion() is None,
            },
    {
        self.completion.as_ref()
    }

    /// Records the completion of the batch.
    pub fn attach(&mut self, completion: BatchCompletion)
        ensures
            final(self).spec_batch() == old(self).spec_batch(),
            final(self).spec_completion() == Some(completion),
    {
        self.completion = Some(completion);
    }
}

} // verus!
