//! A two-player staked match on a three-by-three grid, with escrowed deposits.
//!
//! Two participants each lock the same stake, play the match out, and the
//! engine decides how the pooled stakes are paid back: to the winner, to both
//! on a draw, to the waiting participant when the other lets the move deadline
//! pass, or to whoever withdraws before the first move. The protocol keeps a
//! fixed fee from every payout that ends a match.
//!
//! The crate is the engine alone. It is handed the caller's identity, the
//! amount attached to a call and the current time as plain values, and it
//! hands back the transfers to perform; reaching a host chain is the business
//! of whatever embeds it.
//!
//! * [`error`]: why an operation was refused.
//! * [`escrow`]: fee and payout arithmetic.
//! * [`board`]: the grid, its eight lines and the win predicate.
//! * [`game`]: one match and its transitions.
//! * [`contract`]: the registry of matches and the operations on it.
//! * [`laws`]: properties of the above that hold for every input.
pub mod board;
pub mod contract;
pub mod error;
pub mod escrow;
pub mod game;
pub mod laws;

pub use crate::contract::Contract;
pub use crate::contract::GameId;
pub use crate::error::Error;
pub use crate::error::InputFault;
pub use crate::escrow::Balance;
pub use crate::game::AccountId;
pub use crate::game::Game;
pub use crate::game::GameState;
