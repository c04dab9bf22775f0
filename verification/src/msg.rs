//! The requests a table accepts and the answers it gives to queries.

use crate::card::{Card, Color};
use crate::state::Phase;
use vstd::prelude::*;

verus! {

/// The request that opens a table. It carries nothing: the sender becomes
/// the first player, and the table gets the default number of seats.
#[derive(Clone, Copy, Debug, PartialEq, Eq, Structural)]
pub struct InstantiateMsg {}

/// A request that changes the game. The sender is passed beside it.
#[derive(Clone, Copy, Debug, PartialEq, Eq)]
pub enum ExecuteMsg {
    /// Take a seat.
    JoinGame {},
    /// Draw the top card of the deck.
    DrawCard {},
    /// Leave the table.
    LeaveGame {},
    /// Play `card`; for a wild card, `declared_color` names the colour to
    /// follow.
    PlayCard { card: Card, declared_color: Option<Color> },
}

/// A request that reads the game.
#[derive(Clone, Debug, PartialEq, Eq)]
pub enum QueryMsg {
    /// Ask for the summary of the game.
    GetGameState {},
    /// Ask for the cards that `address` holds.
    GetPlayerHand { address: String },
}

/// The summary of a game: who is seated, in turn order, and where the game
/// stands. Hands are not part of it.
#[derive(Clone, Debug, PartialEq, Eq)]
pub struct GameStateResp {
    pub players: Vec<String>,
    pub current_turn: usize,
    pub direction: i8,
    pub phase: Phase,
    pub winner: Option<String>,
}

/// The model of a `GameStateResp`.
pub struct GameStateView {
    pub players: Seq<Seq<char>>,
    pub current_turn: nat,
    pub direction: int,
    pub phase: Phase,
    pub winner: Option<Seq<char>>,
}

impl View for GameStateResp {
    type V = GameStateView;

    open spec fn view(&self) -> GameStateView {
        GameStateView {
            players: self.players@.map_values(|a: String| a@),
            current_turn: self.current_turn as nat,
            direction: self.direction as int,
            phase: self.phase,
            winner: match self.winner {
                Some(w) => Some(w@),
                None => None,
            },
        }
    }
}

/// The cards one player holds.
#[derive(Clone, Debug, PartialEq, Eq)]
pub struct PlayerHandResp {
    pub hand: Vec<Card>,
    pub player: String,
}

/// The model of a `PlayerHandResp`.
pub struct PlayerHandView {
    pub hand: Seq<Card>,
    pub player: Seq<char>,
}

impl View for PlayerHandResp {
    type V = PlayerHandView;

    open spec fn view(&self) -> PlayerHandView {
        PlayerHandView { hand: self.hand@, player: self.player@ }
    }
}

/// The answer to a query.
#[derive(Clone, Debug, PartialEq, Eq)]
pub enum QueryResponse {
    GameState(GameStateResp),
    PlayerHand(PlayerHandResp),
}

/// An unsigned amount of 128 bits.
#[derive(Clone, Copy, Debug, PartialEq, Eq, Structural)]
pub struct Uint128(pub u128);

/// An amount of one denomination.
#[derive(Clone, Debug, PartialEq, Eq)]
pub struct Coin {
    pub denom: String,
    pub amount: Uint128,
}

} // verus!
