use vstd::prelude::*;

use crate::view::Install;

verus! {

/// What a client asks of a discovery server.
#[derive(Debug, Clone, Copy)]
pub enum Request {
    /// Make an install known.
    Publish(Install),
    /// Send the installs that lead from the given height to the top of the
    /// frame, then every improvement of the frame.
    LightSubscribe(u64),
    /// Send every install that the client lacks, then every new install.
    FullSubscribe,
    /// Keep a subscription open.
    KeepAlive,
}

/// What a discovery server answers.
#[derive(Debug, Clone)]
pub enum Response {
    /// Installs to acquire, in order.
    Update(Vec<Install>),
    AcknowledgePublish,
    KeepAlive,
}

} // verus!
