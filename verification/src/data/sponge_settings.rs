use vstd::prelude::*;

use std::time::Duration;

use crate::time::{duration_from_secs, seconds};

verus! {

/// How many items a `Sponge` gathers, and for how long, before it flushes them.
#[derive(Debug, Clone, Copy)]
pub struct SpongeSettings {
    pub capacity: usize,
    pub timeout: Duration,
}

impl Default for SpongeSettings {
    fn default() -> (result: SpongeSettings)
        ensures
            result.capacity == 50000,
            result.timeout == duration_from_secs(1),
    {
        SpongeSettings { capacity: 50000, timeout: seconds(1) }
    }
}

} // verus!
