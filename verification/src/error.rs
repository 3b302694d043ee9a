//! Why an operation was refused.
use vstd::prelude::*;

verus! {

/// What was wrong with an argument.
#[derive(Clone, Copy, Debug, PartialEq, Eq)]
pub enum InputFault {
    /// The deposit that opens a match is under the floor `minimum`.
    DepositBelowMinimum { minimum: u128 },
    /// The deposit that joins a match is under its `stake`.
    DepositBelowStake { stake: u128 },
    /// `cell` is no index of the grid.
    CellOutOfRange { cell: usize },
    /// `cell` already holds a mark.
    CellOccupied { cell: usize },
}

/// Why an operation was refused. A refused operation changes nothing.
#[derive(Clone, Copy, Debug, PartialEq, Eq)]
pub enum Error {
    /// No match has the identifier `game_id`.
    NotFound { game_id: u64 },
    /// The match is in a state that does not allow the operation.
    InvalidPhase,
    /// The caller is not the participant who may do this now.
    Unauthorized,
    /// An argument was refused.
    InvalidInput { fault: InputFault },
    /// The move deadline has not passed; `elapsed` is the time since the last move.
    DeadlineNotElapsed { elapsed: u64 },
    /// An amount, a count or a time left the range of its type.
    ArithmeticOverflow,
}

} // verus!
