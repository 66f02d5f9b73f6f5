use vstd::prelude::*;

use std::time::Duration;

verus! {

/// The duration of `secs` whole seconds.
pub uninterp spec fn duration_from_secs(secs: u64) -> Duration;

/// Calls `Duration::from_secs`: the result is named `duration_from_secs(secs)`.
#[verifier::external_body]
pub(crate) fn seconds(secs: u64) -> (result: Duration)
    ensures
        result == duration_from_secs(secs),
{
    Duration::from_secs(secs)
}

} // verus!
