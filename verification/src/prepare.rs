use vstd::prelude::*;

use crate::{account::{Entry, Id}, crypto::Digest};

verus! {

/// The commitment of an account to the operation of one of its entries.
#[derive(Clone, Copy, Debug)]
pub struct Prepare {
    pub entry: Entry,
    pub commitment: Digest,
}

impl Prepare {
    pub fn new(entry: Entry, commitment: Digest) -> (result: Prepare)
        ensures
            result.entry == entry,
            result.commitment == commitment,
    {
        Prepare { entry, commitment }
    }

    pub fn entry(&self) -> (result: Entry)
        ensures
            result == self.entry,
    {
        self.entry
    }

    pub fn id(&self) -> (result: Id)
        ensures
            result == self.entry.id,
    {
        self.entry.id
    }

    pub fn height(&self) -> (result: u64)
        ensures
            result == self.entry.height,
    {
        self.entry.height
    }

    pub fn commitment(&self) -> (result: Digest)
        ensures
            result == self.commitment,
    {
        self.commitment
    }
}

} // verus!
