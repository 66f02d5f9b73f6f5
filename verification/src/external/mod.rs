pub mod brokers;
pub mod client;
pub mod fast_signup_broker;
pub mod parameters;

pub use brokers::{
    ClientError, FastBroker, FastBrokerError, FullBroker, FullBrokerError, Replica, ReplicaError,
};
pub use parameters::{BrokerParameters, Parameters, ParametersError, ReplicaParameters};
