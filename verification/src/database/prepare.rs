use vstd::prelude::*;

use bit_vec::BitVec;

use crate::crypto::bits::{bits_from_elem, bits_of, bits_set};

verus! {

/// A batch of prepares kept by a replica: which of its prepares are still
/// referenced, and the commit of the batch once known.
pub struct BatchHolder<Batch, BatchCommit> {
    batch: Batch,
    references: BitVec,
    commit: Option<BatchCommit>,
}

impl<Batch, BatchCommit> BatchHolder<Batch, BatchCommit> {
    pub closed spec fn spec_batch(&self) -> Batch {
        self.batch
    }

    /// Whether each prepare of the batch is still referenced.
    pub closed spec fn spec_references(&self) -> Seq<bool> {
        bits_of(self.references)
    }

    pub closed spec fn spec_commit(&self) -> Option<BatchCommit> {
        self.commit
    }

    /// Holds `batch`, of `size` prepares, all referenced.
    pub fn new(batch: Batch, size: usize) -> (result: BatchHolder<Batch, BatchCommit>)
        ensures
            result.spec_batch() == batch,
            result.spec_references() == Seq::new(size as nat, |i: int| true),
            result.spec_commit() is None,
    {
        BatchHolder { batch, references: bits_from_elem(size, true), commit: None }
    }

    pub fn batch(&self) -> (result: &Batch)
        ensures
            *result == self.spec_batch(),
    {
        &self.batch
    }

    pub fn commit(&self) -> (result: Option<&BatchCommit>)
        ensures
            match result {
                Some(commit) => self.spec_commit() == Some(*commit),
                None => self.spec_commit() is None,
            },
    {
        self.commit.as_ref()
    }

    /// Records the commit of the batch.
    pub fn attach(&mut self, commit: BatchCommit)
        ensures
            final(self).spec_batch() == old(self).spec_batch(),
            final(self).spec_references() == old(self).spec_references(),
            final(self).spec_commit() == Some(commit),
    {
        self.commit = Some(commit);
    }

    /// Marks the prepare at `index` as no longer referenced.
    pub fn unref(&mut self, index: usize)
        requires
            index < old(self).spec_references().len(),
        ensures
            final(self).spec_batch() == old(self).spec_batch(),
            final(self).spec_commit() == old(self).spec_commit(),
            final(self).spec_references() == old(self).spec_references().update(index as int, false),
    {
        bits_set(&mut self.references, index, false);
    }
}

} // verus!
