use vstd::prelude::*;

verus! {

/// The capacities of the channels of a discovery server.
#[derive(Debug, Clone, Copy)]
pub struct ServerSettings {
    pub install_channel_capacity: usize,
    pub update_channel_capacity: usize,
}

impl Default for ServerSettings {
    fn default() -> (result: ServerSettings)
        ensures
            result.install_channel_capacity == 32,
            result.update_channel_capacity == 32,
    {
        ServerSettings { install_channel_capacity: 32, update_channel_capacity: 32 }
    }
}

} // verus!
