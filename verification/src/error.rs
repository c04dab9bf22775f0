//! The ways a request can be refused.

use vstd::prelude::*;

verus! {

/// Why a request was refused. A refused request changes nothing.
#[derive(Clone, Copy, Debug, PartialEq, Eq, Structural)]
pub enum ContractError {
    /// The table already seats as many players as it allows.
    SessionFull,
    /// The identity is already seated at the table.
    AlreadyJoined,
    /// The identity is not seated at the table.
    PlayerNotFound,
    /// The game has not started yet.
    NotStarted,
    /// The request came from a player other than the one whose turn it is.
    NotYourTurn,
    /// The player does not hold the card.
    CardNotInHand,
    /// The card matches neither the active colour nor the rank on top of the
    /// discard pile.
    IllegalPlay,
    /// A wild card was played without naming one of the four colours.
    MissingColorDeclaration,
    /// The deck has no card left to draw.
    DeckEmpty,
    /// The game is over.
    GameOver,
}

} // verus!
