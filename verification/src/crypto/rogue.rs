use vstd::prelude::*;

use crate::crypto::{MultiSignature, Signature};

verus! {

/// The proof that a key card owns the secret keys of its public keys: a
/// signature and a multi-signature on the fixed rogue-key challenge.
pub struct Rogue {
    pub sign: Signature,
    pub multi: MultiSignature,
}

/// Why a proof of key ownership is refused.
#[derive(Debug, Clone, Copy, PartialEq, Eq, Structural)]
pub enum RogueError {
    InvalidSignature,
    InvalidMultiSignature,
}

impl Rogue {
    /// The proof made of the two signatures on the challenge.
    pub fn new(sign: Signature, multi: MultiSignature) -> (result: Rogue)
        ensures
            result.sign == sign,
            result.multi == multi,
    {
        Rogue { sign, multi }
    }

    /// Checks the proof against a key card: the signature is checked first
    /// (`sign_valid`, the outcome of verifying it against the card), then the
    /// multi-signature (`multi_valid`).
    pub fn validate(&self, sign_valid: bool, multi_valid: bool) -> (result: Result<(), RogueError>)
        ensures
            result == if !sign_valid {
                Err(RogueError::InvalidSignature)
            } else if !multi_valid {
                Err(RogueError::InvalidMultiSignature)
            } else {
                Ok::<(), RogueError>(())
            },
    {
        if !sign_valid {
            return Err(RogueError::InvalidSignature);
        }
        if !multi_valid {
            return Err(RogueError::InvalidMultiSignature);
        }
        Ok(())
    }
}

} // verus!
