//! The entry points of a table: opening it, changing it, reading it.

use crate::card::Card;
use crate::error::ContractError;
use crate::msg::{
    ExecuteMsg, GameStateResp, GameStateView, InstantiateMsg, PlayerHandResp, PlayerHandView, QueryMsg,
    QueryResponse,
};
use crate::registry::{find_player, join_game, leave_game};
use crate::rules::{draw_card, play_card, Outcome};
use crate::state::{
    addresses, seat_of, State, StateView, DEFAULT_REQUIRED_PLAYERS, DEFAULT_REQUIRED_PLAYERS_MAX,
};
use vstd::prelude::*;

verus! {

impl StateView {
    /// What a request of `sender` does, whichever it is: the refusal, or the
    /// state after it together with what is reported back.
    pub open spec fn execute(self, sender: Seq<char>, msg: ExecuteMsg) -> Result<
        (StateView, Outcome),
        ContractError,
    > {
        match msg {
            ExecuteMsg::JoinGame {  } => match self.join(sender) {
                Ok(s) => Ok((s, Outcome::Applied)),
                Err(e) => Err(e),
            },
            ExecuteMsg::DrawCard {  } => match self.draw(sender) {
                Ok(s) => Ok((s, Outcome::Applied)),
                Err(e) => Err(e),
            },
            ExecuteMsg::LeaveGame {  } => match self.leave(sender) {
                Ok(s) => Ok((s, Outcome::Applied)),
                Err(e) => Err(e),
            },
            ExecuteMsg::PlayCard { card, declared_color } => self.play(sender, card, declared_color),
        }
    }

    /// The summary of the game: everything but the cards.
    pub open spec fn summary(self) -> GameStateView {
        GameStateView {
            players: addresses(self.players),
            current_turn: self.current_turn,
            direction: self.direction,
            phase: self.phase,
            winner: self.winner,
        }
    }

    /// The hand of `who`, if seated.
    pub open spec fn hand_of(self, who: Seq<char>) -> Result<PlayerHandView, ContractError> {
        match seat_of(self.players, who) {
            Some(seat) => Ok(PlayerHandView { hand: self.players[seat].hand, player: who }),
            None => Err(ContractError::PlayerNotFound),
        }
    }
}

/// Opens a table with `sender` as its first player: a fresh deck, nothing
/// dealt, waiting for players. The game starts with two players, and the
/// table seats four.
pub fn instantiate(sender: String, msg: InstantiateMsg) -> (state: State)
    ensures
        state@ == StateView::initial(
            sender@,
            DEFAULT_REQUIRED_PLAYERS as nat,
            DEFAULT_REQUIRED_PLAYERS_MAX as nat,
        ),
        state@.wf(),
        state@.total_cards() == 72,
{
    let opened = State::new(sender, DEFAULT_REQUIRED_PLAYERS, DEFAULT_REQUIRED_PLAYERS_MAX);
    opened.unwrap()
}

/// Carries out the request `msg` of `sender` on `state`, or refuses it and
/// leaves `state` as it is.
pub fn execute(state: &mut State, sender: String, msg: ExecuteMsg) -> (res: Result<Outcome, ContractError>)
    requires
        old(state)@.wf(),
    ensures
        match res {
            Ok(outcome) => old(state)@.execute(sender@, msg) == Ok::<(StateView, Outcome), ContractError>(
                (final(state)@, outcome),
            ),
            Err(e) => old(state)@.execute(sender@, msg) == Err::<(StateView, Outcome), ContractError>(e)
                && *final(state) == *old(state),
        },
        final(state)@.wf(),
        !(msg is LeaveGame) ==> final(state)@.total_cards() == old(state)@.total_cards(),
{
    match msg {
        ExecuteMsg::JoinGame {  } => match join_game(state, sender) {
            Ok(_) => Ok(Outcome::Applied),
            Err(e) => Err(e),
        },
        ExecuteMsg::DrawCard {  } => match draw_card(state, sender) {
            Ok(_) => Ok(Outcome::Applied),
            Err(e) => Err(e),
        },
        ExecuteMsg::LeaveGame {  } => match leave_game(state, sender) {
            Ok(_) => Ok(Outcome::Applied),
            Err(e) => Err(e),
        },
        ExecuteMsg::PlayCard { card, declared_color } => play_card(state, sender, card, declared_color),
    }
}

/// The summary of the game: the players in turn order, whose turn it is,
/// the direction, the phase and the winner. Hands are left out.
pub fn get_game_state(state: &State) -> (resp: GameStateResp)
    ensures
        resp@ == state@.summary(),
{
    let mut players: Vec<String> = Vec::new();
    let mut i: usize = 0;
    while i < state.players.len()
        invariant
            i <= state.players.len(),
            players@.len() == i,
            forall|k: int| 0 <= k < i ==> (#[trigger] players@[k])@ == state.players@[k].address@,
        decreases state.players.len() - i,
    {
        players.push(state.players[i].address.clone());
        i = i + 1;
    }
    let winner = match &state.winner {
        Some(w) => Some(w.clone()),
        None => None,
    };
    let resp = GameStateResp {
        players,
        current_turn: state.current_turn,
        direction: state.direction,
        phase: state.phase,
        winner,
    };
    proof {
        assert(resp@.players =~= state@.summary().players);
    }
    resp
}

/// The cards that `address` holds. Refused with `PlayerNotFound` when
/// `address` is not seated.
pub fn get_player_hand(state: &State, address: String) -> (resp: Result<PlayerHandResp, ContractError>)
    ensures
        match resp {
            Ok(r) => state@.hand_of(address@) == Ok::<PlayerHandView, ContractError>(r@),
            Err(e) => state@.hand_of(address@) == Err::<PlayerHandView, ContractError>(e),
        },
{
    match find_player(&state.players, &address) {
        Some(seat) => {
            let held = &state.players[seat].hand;
            let mut hand: Vec<Card> = Vec::new();
            let mut i: usize = 0;
            while i < held.len()
                invariant
                    i <= held.len(),
                    hand@ == held@.take(i as int),
                decreases held.len() - i,
            {
                hand.push(held[i]);
                assert(held@.take(i + 1) =~= held@.take(i as int).push(held@[i as int]));
                i = i + 1;
            }
            proof {
                assert(held@.take(held@.len() as int) =~= held@);
                assert(state@.players[seat as int] == state.players@[seat as int]@);
            }
            Ok(PlayerHandResp { hand, player: address })
        },
        None => Err(ContractError::PlayerNotFound),
    }
}

/// Answers the query `msg` about `state`.
pub fn query(state: &State, msg: QueryMsg) -> (resp: Result<QueryResponse, ContractError>)
    ensures
        match msg {
            QueryMsg::GetGameState {  } => resp matches Ok(QueryResponse::GameState(r)) && r@
                == state@.summary(),
            QueryMsg::GetPlayerHand { address } => match state@.hand_of(address@) {
                Ok(hand) => resp matches Ok(QueryResponse::PlayerHand(r)) && r@ == hand,
                Err(e) => resp == Err::<QueryResponse, ContractError>(e),
            },
        },
{
    match msg {
        QueryMsg::GetGameState {  } => Ok(QueryResponse::GameState(get_game_state(state))),
        QueryMsg::GetPlayerHand { address } => match get_player_hand(state, address) {
            Ok(r) => Ok(QueryResponse::PlayerHand(r)),
            Err(e) => Err(e),
        },
    }
}

} // verus!
