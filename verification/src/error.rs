//! Configuration errors.  Every failure of the game is a structured error;
//! nothing in the library panics.

use vstd::prelude::*;

verus! {

/// A configuration error: bad input to a setup or movement command.
#[derive(Clone, Copy, PartialEq, Eq, Structural, Debug)]
pub enum GameError {
    /// A board dimension was zero.
    ZeroDimension,
    /// The board would hold more cells than the machine can address.
    BoardTooLarge,
    /// More players requested than there are identities ('A' through 'Z').
    TooManyPlayers,
    /// A `snake`, `ladder` or `powerup` cell index lies outside the board.
    OutOfRange,
    /// A roll was requested while the dice sequence is empty.
    EmptyDice,
    /// A command argument was missing or not a number in range.
    Malformed,
}

} // verus!
