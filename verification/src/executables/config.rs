use vstd::prelude::*;

verus! {

/// The parameters of a replica program (none so far).
#[derive(Debug, Clone, Copy, PartialEq, Eq, Structural)]
pub struct Parameters {}

impl Default for Parameters {
    fn default() -> (result: Parameters)
        ensures
            result == (Parameters {}),
    {
        Parameters {}
    }
}

} // verus!
