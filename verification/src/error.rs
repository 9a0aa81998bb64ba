//! Errors raised while decoding wire bytes and dispatching instructions.
use vstd::prelude::*;

verus! {

/// Errors that arise as messages are created, stored and removed.
#[derive(Clone, Copy, Debug, PartialEq, Eq)]
pub enum Sol2SolError {
    /// The system program address handed in is not the expected one.
    IncorrectSystemProgramAddress,
    /// The instruction bytes are malformed or truncated, or carry an
    /// unrecognized tag.
    InvalidInstructionData,
    /// The configured number of slots fails the sanity check.
    SolBoxInvalidNumSpots,
    /// The target region does not meet the funding rule.
    InsufficientFunds,
    /// Stored bytes fail structural validation.
    InvalidAccountData,
    /// The slot table has no room for another message.
    SolBoxNoSpaceLeft,
    /// The caller or a region authority is not the required identity.
    OwnerMismatch,
}

/// The numeric code of each error, following declaration order.
pub open spec fn spec_error_code(e: Sol2SolError) -> u32 {
    match e {
        Sol2SolError::IncorrectSystemProgramAddress => 0,
        Sol2SolError::InvalidInstructionData => 1,
        Sol2SolError::SolBoxInvalidNumSpots => 2,
        Sol2SolError::InsufficientFunds => 3,
        Sol2SolError::InvalidAccountData => 4,
        Sol2SolError::SolBoxNoSpaceLeft => 5,
        Sol2SolError::OwnerMismatch => 6,
    }
}

impl Sol2SolError {
    /// The opaque numeric code under which the error is reported outward.
    pub fn code(&self) -> (r: u32)
        ensures
            r == spec_error_code(*self),
    {
        match self {
            Sol2SolError::IncorrectSystemProgramAddress => 0,
            Sol2SolError::InvalidInstructionData => 1,
            Sol2SolError::SolBoxInvalidNumSpots => 2,
            Sol2SolError::InsufficientFunds => 3,
            Sol2SolError::InvalidAccountData => 4,
            Sol2SolError::SolBoxNoSpaceLeft => 5,
            Sol2SolError::OwnerMismatch => 6,
        }
    }
}

} // verus!
