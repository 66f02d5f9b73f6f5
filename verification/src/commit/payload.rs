use vstd::prelude::*;

use crate::{
    account::{Entry, Id, Operation},
    crypto::Digest,
    prepare::Prepare,
};

verus! {

/// An operation together with the entry it occupies.
#[derive(Clone, Copy, Debug, PartialEq, Eq, Structural)]
pub struct Payload {
    entry: Entry,
    operation: Operation,
}

impl Payload {
    pub closed spec fn spec_entry(&self) -> Entry {
        self.entry
    }

    pub closed spec fn spec_operation(&self) -> Operation {
        self.operation
    }

    /// The payload of `operation` at `entry`.
    pub closed spec fn new_spec(entry: Entry, operation: Operation) -> Payload {
        Payload { entry, operation }
    }

    pub proof fn lemma_new_spec(entry: Entry, operation: Operation)
        ensures
            #[trigger] Self::new_spec(entry, operation).spec_entry() == entry,
            Self::new_spec(entry, operation).spec_operation() == operation,
    {
    }

    pub fn new(entry: Entry, operation: Operation) -> (result: Payload)
        ensures
            result.spec_entry() == entry,
            result.spec_operation() == operation,
            result == Self::new_spec(entry, operation),
    {
        Payload { entry, operation }
    }

    pub fn entry(&self) -> (result: Entry)
        ensures
            result == self.spec_entry(),
    {
        self.entry
    }

    pub fn id(&self) -> (result: Id)
        ensures
            result == self.spec_entry().id,
    {
        self.entry.id
    }

    pub fn height(&self) -> (result: u64)
        ensures
            result == self.spec_entry().height,
    {
        self.entry.height
    }

    pub fn operation(&self) -> (result: &Operation)
        ensures
            *result == self.spec_operation(),
    {
        &self.operation
    }

    pub fn dependency(&self) -> (result: Option<Entry>)
        ensures
            result == self.spec_operation().spec_dependency(),
    {
        self.operation.dependency()
    }

    /// The `Prepare` that commits the entry of this payload to its operation,
    /// given `identifier`, the digest of the operation.
    pub fn prepare(&self, identifier: Digest) -> (result: Prepare)
        ensures
            result.entry == self.spec_entry(),
            result.commitment == identifier,
    {
        Prepare::new(self.entry, identifier)
    }
}

} // verus!
