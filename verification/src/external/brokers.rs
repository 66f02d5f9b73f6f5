use vstd::prelude::*;

verus! {

/// The failure of a benchmark client.
#[derive(Debug, Clone, Copy, PartialEq, Eq, Structural)]
pub enum ClientError {
    Fail,
}

/// A broker that signs up a fixed number of clients and then prepares their operations.
#[derive(Debug, Clone, Copy, PartialEq, Eq, Structural)]
pub struct FastBroker {}

/// The failure of a `FastBroker`.
#[derive(Debug, Clone, Copy, PartialEq, Eq, Structural)]
pub enum FastBrokerError {
    Fail,
}

/// A broker that runs the signup, prepare and commit services; the running
/// services are held by the program that starts them.
#[derive(Debug, Clone, Copy, PartialEq, Eq, Structural)]
pub struct FullBroker {}

/// The failure of a `FullBroker`.
#[derive(Debug, Clone, Copy, PartialEq, Eq, Structural)]
pub enum FullBrokerError {
    Fail,
}

/// A replica; its processor is held by the program that starts it.
#[derive(Debug, Clone, Copy, PartialEq, Eq, Structural)]
pub struct Replica {}

/// The failure of a `Replica`.
#[derive(Debug, Clone, Copy, PartialEq, Eq, Structural)]
pub enum ReplicaError {
    Fail,
}

} // verus!
