//! The ways in which an operation on the staking data can fail.

use vstd::prelude::*;

verus! {

/// None of these is recovered from inside the library: each aborts the
/// operation, and the caller abandons the block.
#[derive(Clone, Copy, Debug, PartialEq, Eq, Structural)]
pub enum StakingError {
    /// The requested pair of validator states is not a transition the state
    /// machine allows.
    IllegalTransition,
    /// A record that must exist for the operation is absent from the state.
    MissingInvariantRecord,
    /// A voting power lies above the largest power the consensus engine takes.
    OutOfBoundsVotingPower,
    /// Evidence of misbehaviour names an address that no validator registered.
    UnknownValidatorEvidence,
    /// A rate, an amount or a token supply left the range of its integer type.
    ArithmeticOverflow,
    /// A rate record belongs to another epoch than the one being processed.
    EpochMismatch,
    /// A block height does not follow the height an uptime tracker saw last.
    NonSequentialHeight,
}

} // verus!
