use vstd::prelude::*;

verus! {

/// The failure to read or write a parameters file.
#[derive(Debug, Clone, Copy, PartialEq, Eq, Structural)]
pub enum ParametersError {
    Fail,
}

/// The parameters of a deployment.
#[derive(Debug, Clone, Copy, PartialEq, Eq, Structural)]
pub struct Parameters {
    pub broker: BrokerParameters,
}

/// The parameters of a replica (none so far).
#[derive(Debug, Clone, Copy, PartialEq, Eq, Structural)]
pub struct ReplicaParameters {}

/// The parameters of a broker: how many batches of signups it submits, and how large.
#[derive(Debug, Clone, Copy, PartialEq, Eq, Structural)]
pub struct BrokerParameters {
    pub signup_batch_number: usize,
    pub signup_batch_size: usize,
}

impl Default for BrokerParameters {
    fn default() -> (result: BrokerParameters)
        ensures
            result.signup_batch_number == 10,
            result.signup_batch_size == 5000,
    {
        BrokerParameters { signup_batch_number: 10, signup_batch_size: 5_000 }
    }
}

impl Default for Parameters {
    fn default() -> (result: Parameters)
        ensures
            result.broker.signup_batch_number == 10,
            result.broker.signup_batch_size == 5000,
    {
        Parameters { broker: BrokerParameters::default() }
    }
}

impl Default for ReplicaParameters {
    fn default() -> (result: ReplicaParameters)
        ensures
            result == (ReplicaParameters {}),
    {
        ReplicaParameters {}
    }
}

} // verus!
