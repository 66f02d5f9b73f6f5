use vstd::prelude::*;

verus! {

/// The identifier of an account.
pub type Id = u64;

/// A slot in the history of an account: the operation of account `id` at `height`.
#[derive(Clone, Copy, Debug, PartialEq, Eq, Structural)]
pub struct Entry {
    pub id: Id,
    pub height: u64,
}

/// An operation on an account.
///
/// A withdrawal moves `amount` out of the account towards `beneficiary`, to be
/// collected at `slot`; a deposit collects `amount` from the withdrawal at `withdrawal`.
#[derive(Clone, Copy, Debug, PartialEq, Eq, Structural)]
pub enum Operation {
    Withdraw { beneficiary: Id, slot: u64, amount: u64 },
    Deposit { withdrawal: Entry, amount: u64 },
}

impl Operation {
    /// The entry that must be completed before this operation can be applied.
    pub open spec fn spec_dependency(&self) -> Option<Entry> {
        match *self {
            Operation::Withdraw { .. } => None,
            Operation::Deposit { withdrawal, .. } => Some(withdrawal),
        }
    }

    pub fn withdraw(beneficiary: Id, slot: u64, amount: u64) -> (result: Operation)
        ensures
            result == (Operation::Withdraw { beneficiary, slot, amount }),
    {
        Operation::Withdraw { beneficiary, slot, amount }
    }

    pub fn deposit(withdrawal: Entry, amount: u64) -> (result: Operation)
        ensures
            result == (Operation::Deposit { withdrawal, amount }),
    {
        Operation::Deposit { withdrawal, amount }
    }

    pub fn dependency(&self) -> (result: Option<Entry>)
        ensures
            result == self.spec_dependency(),
    {
        match self {
            Operation::Withdraw { .. } => None,
            Operation::Deposit { withdrawal, .. } => Some(*withdrawal),
        }
    }
}

} // verus!
