//! What holds of the game as a whole: statements about the model of the
//! state and of the requests, each proved from their definitions.

use crate::card::{Card, Color};
use crate::deck::{initial_deck, lemma_shuffle_permutes, shuffled, DECK_SIZE};
use crate::error::ContractError;
use crate::msg::ExecuteMsg;
use crate::registry::{lemma_join_preserves, lemma_leave_preserves, lemma_seat_of, lemma_seat_of_is};
use crate::rules::{
    lemma_draw_preserves, lemma_play_preserves, lemma_remove_value, names_color, playable, Outcome,
};
use crate::state::{lemma_initial_is_wf, seat_of, StateView, INITIAL_HAND_SIZE};
use crate::turn::lemma_deal_full_hands;
use vstd::prelude::*;

verus! {

/// A request as the table receives it: who sent it and what it asks for.
pub struct Request {
    pub sender: Seq<char>,
    pub msg: ExecuteMsg,
}

impl StateView {
    /// The state after a request: what the request made of it, or the state
    /// itself where the request was refused.
    pub open spec fn after(self, request: Request) -> StateView {
        match self.execute(request.sender, request.msg) {
            Ok((s, _)) => s,
            Err(_) => self,
        }
    }

    /// The state after a sequence of requests, taken in order.
    pub open spec fn after_all(self, requests: Seq<Request>) -> StateView
        decreases requests.len(),
    {
        if requests.len() == 0 {
            self
        } else {
            self.after_all(requests.drop_last()).after(requests.last())
        }
    }

    /// The number of cards a request takes out of the game: the hand of a
    /// player who leaves, and nothing otherwise.
    pub open spec fn abandoned_by(self, request: Request) -> nat {
        if request.msg is LeaveGame && self.leave(request.sender) is Ok {
            self.players[seat_of(self.players, request.sender)->0].hand.len()
        } else {
            0
        }
    }

    /// The number of cards a sequence of requests takes out of the game.
    pub open spec fn abandoned(self, requests: Seq<Request>) -> nat
        decreases requests.len(),
    {
        if requests.len() == 0 {
            0
        } else {
            self.abandoned(requests.drop_last()) + self.after_all(requests.drop_last()).abandoned_by(
                requests.last(),
            )
        }
    }
}

/// No request breaks a well-formed state, and no request but a leave
/// changes the number of cards in play: a leave takes out the hand of the
/// player who left.
pub proof fn theorem_request_preserves(s: StateView, request: Request)
    requires
        s.wf(),
    ensures
        s.after(request).wf(),
        s.after(request).total_cards() + s.abandoned_by(request) == s.total_cards(),
{
    let sender = request.sender;
    match request.msg {
        ExecuteMsg::JoinGame {  } => {
            if s.join(sender) is Ok {
                lemma_join_preserves(s, sender);
            }
        },
        ExecuteMsg::DrawCard {  } => {
            if s.draw(sender) is Ok {
                lemma_draw_preserves(s, sender);
            }
        },
        ExecuteMsg::LeaveGame {  } => {
            if s.leave(sender) is Ok {
                lemma_leave_preserves(s, sender);
            }
        },
        ExecuteMsg::PlayCard { card, declared_color } => {
            if s.play(sender, card, declared_color) is Ok {
                lemma_play_preserves(s, sender, card, declared_color);
            }
        },
    }
}

/// Whatever requests arrive, the state stays well formed, and the cards in
/// play together with the cards that left with their players are the cards
/// there were at the start.
pub proof fn theorem_inventory(s: StateView, requests: Seq<Request>)
    requires
        s.wf(),
    ensures
        s.after_all(requests).wf(),
        s.after_all(requests).total_cards() + s.abandoned(requests) == s.total_cards(),
    decreases requests.len(),
{
    if requests.len() > 0 {
        theorem_inventory(s, requests.drop_last());
        theorem_request_preserves(s.after_all(requests.drop_last()), requests.last());
    }
}

/// Shuffling the deck of a well-formed state leaves the state well formed
/// and the number of cards in play unchanged.
pub proof fn theorem_shuffle_preserves(s: StateView, picks: Seq<u64>)
    requires
        s.wf(),
    ensures
        s.with_deck(shuffled(s.deck, picks)).wf(),
        s.with_deck(shuffled(s.deck, picks)).total_cards() == s.total_cards(),
{
    let t = s.with_deck(shuffled(s.deck, picks));
    lemma_shuffle_permutes(s.deck, picks);
    assert forall|i: int| 0 <= i < t.deck.len() implies (#[trigger] t.deck[i]).wf() by {
        let c = t.deck[i];
        assert(shuffled(s.deck, picks)[i] == c);
        assert(shuffled(s.deck, picks).contains(c));
        assert(s.deck.contains(c));
        let k = choose|k: int| 0 <= k < s.deck.len() && s.deck[k] == c;
        assert(s.deck[k].wf());
    }
}

/// Inventory conservation: at a table opened with a fresh deck, shuffled or
/// not, the state stays well formed whatever requests arrive, and the deck,
/// the discard pile and the hands hold between them the 72 cards of the deck
/// less those that left with their players. As long as nobody asks to
/// leave, that is all 72.
pub proof fn theorem_inventory_conservation(
    founder: Seq<char>,
    required_players: nat,
    required_players_max: nat,
    picks: Seq<u64>,
    requests: Seq<Request>,
)
    requires
        2 <= required_players <= required_players_max,
    ensures
        ({
            let opened = StateView::initial(founder, required_players, required_players_max).with_deck(
                shuffled(initial_deck(), picks),
            );
            &&& opened.after_all(requests).wf()
            &&& opened.after_all(requests).total_cards() + opened.abandoned(requests) == DECK_SIZE
            &&& no_leave(requests) ==> opened.after_all(requests).total_cards() == DECK_SIZE
        }),
{
    let fresh = StateView::initial(founder, required_players, required_players_max);
    lemma_initial_is_wf(founder, required_players, required_players_max);
    theorem_shuffle_preserves(fresh, picks);
    let opened = fresh.with_deck(shuffled(initial_deck(), picks));
    theorem_inventory(opened, requests);
    if no_leave(requests) {
        lemma_nothing_abandoned(opened, requests);
    }
}

/// Whether none of `requests` asks to leave.
pub open spec fn no_leave(requests: Seq<Request>) -> bool {
    forall|i: int| 0 <= i < requests.len() ==> !((#[trigger] requests[i]).msg is LeaveGame)
}

/// Requests among which there is no leave take no card out of the game.
pub proof fn lemma_nothing_abandoned(s: StateView, requests: Seq<Request>)
    requires
        no_leave(requests),
    ensures
        s.abandoned(requests) == 0,
    decreases requests.len(),
{
    if requests.len() > 0 {
        assert(!(requests[requests.len() - 1].msg is LeaveGame));
        assert forall|i: int| 0 <= i < requests.drop_last().len() implies !((
        #[trigger] requests.drop_last()[i]).msg is LeaveGame) by {
            assert(requests.drop_last()[i] == requests[i]);
        }
        lemma_nothing_abandoned(s, requests.drop_last());
    }
}

/// Join boundary: at a table whose seats are all taken a join is refused
/// with `SessionFull`; at a table with a free seat, a player who is seated
/// is refused with `AlreadyJoined`.
pub proof fn theorem_join_boundary(s: StateView, who: Seq<char>)
    requires
        !(s.phase is Finished),
    ensures
        s.players.len() >= s.required_players_max ==> s.join(who) == Err::<StateView, ContractError>(
            ContractError::SessionFull,
        ),
        s.players.len() < s.required_players_max && s.seated(who) ==> s.join(who) == Err::<
            StateView,
            ContractError,
        >(ContractError::AlreadyJoined),
        s.players.len() < s.required_players_max && !s.seated(who) ==> s.join(who) is Ok,
{
}

/// A player who has just joined cannot join again: the second request is
/// refused.
pub proof fn theorem_rejoin_refused(s: StateView, who: Seq<char>)
    requires
        s.join(who) is Ok,
    ensures
        s.join(who)->Ok_0.join(who) is Err,
        s.join(who)->Ok_0.players.len() < s.required_players_max ==> s.join(who)->Ok_0.join(who) == Err::<
            StateView,
            ContractError,
        >(ContractError::AlreadyJoined),
{
    let t = s.join(who)->Ok_0;
    let seat = s.players.len() as int;
    lemma_seat_of(s.players, who);
    assert(t.players.len() == seat + 1);
    assert(t.players[seat].address == who);
    assert forall|k: int| 0 <= k < seat implies (#[trigger] t.players[k]).address != who by {
        assert(t.players[k].address == s.players[k].address);
    }
    lemma_seat_of_is(t.players, who, seat);
}

/// The join that completes the table starts the game, and where the deck
/// has seven cards for each player, as a fresh deck has for up to ten
/// players, every player is dealt exactly seven.
pub proof fn theorem_join_starts_game(s: StateView, who: Seq<char>)
    requires
        s.wf(),
        s.phase is WaitingForPlayers,
        s.players.len() + 1 == s.required_players,
        s.join(who) is Ok,
    ensures
        s.join(who)->Ok_0.phase is Active,
        s.join(who)->Ok_0.players.len() == s.required_players,
        s.join(who)->Ok_0.current_turn == s.current_turn,
        INITIAL_HAND_SIZE * s.required_players <= s.deck.len() ==> {
            &&& s.join(who)->Ok_0.deck.len() == s.deck.len() - INITIAL_HAND_SIZE * s.required_players
            &&& forall|i: int|
                0 <= i < s.required_players ==> (#[trigger] s.join(who)->Ok_0.players[i]).hand.len()
                    == INITIAL_HAND_SIZE
        },
{
    let seated = s.with_player(who);
    let t = s.join(who)->Ok_0;
    if INITIAL_HAND_SIZE * s.required_players <= s.deck.len() {
        assert forall|i: int| 0 <= i < s.required_players implies (#[trigger] t.players[i]).hand.len()
            == INITIAL_HAND_SIZE by {
            lemma_deal_full_hands(seated.players, seated.deck, i);
            if i < s.players.len() {
                assert(seated.players[i] == s.players[i]);
            }
        }
        lemma_deal_full_hands(seated.players, seated.deck, 0);
    }
}

/// Turn ownership: while the game is active, a request to play or to draw
/// from anybody but the player whose turn it is is refused with
/// `NotYourTurn`.
pub proof fn theorem_turn_ownership(s: StateView, who: Seq<char>, card: Card, declared: Option<Color>)
    requires
        s.phase is Active,
        who != s.players[s.current_turn as int].address,
    ensures
        s.play(who, card, declared) == Err::<(StateView, Outcome), ContractError>(
            ContractError::NotYourTurn,
        ),
        s.draw(who) == Err::<StateView, ContractError>(ContractError::NotYourTurn),
{
}

/// Legality: when the player whose turn it is plays a card they hold, and
/// names one of the four colours if the card is wild, the card is accepted
/// if and only if it is wild, or has the colour of the card on top of the
/// pile, or has its rank. Every other card is refused with `IllegalPlay`.
pub proof fn theorem_legality(s: StateView, who: Seq<char>, card: Card, declared: Option<Color>)
    requires
        s.phase is Active,
        who == s.players[s.current_turn as int].address,
        s.players[s.current_turn as int].hand.contains(card),
        card.rank.is_wild() ==> names_color(declared),
    ensures
        s.play(who, card, declared) is Ok <==> {
            ||| card.rank.is_wild()
            ||| s.discard_pile.len() > 0 && card.color == s.discard_pile.last().color
            ||| s.discard_pile.len() > 0 && card.rank == s.discard_pile.last().rank
        },
        !(s.play(who, card, declared) is Ok) ==> s.play(who, card, declared) == Err::<
            (StateView, Outcome),
            ContractError,
        >(ContractError::IllegalPlay),
        s.play(who, card, declared) is Ok <==> playable(card, s.discard_pile),
{
}

/// Win detection: a play that takes the last card from the hand ends the
/// game with the player as winner; any other play leaves the game active
/// and without a winner.
pub proof fn theorem_win_detection(s: StateView, who: Seq<char>, card: Card, declared: Option<Color>)
    requires
        s.wf(),
        s.play(who, card, declared) is Ok,
    ensures
        s.players[s.current_turn as int].hand.len() == 1 <==> s.play(who, card, declared)->Ok_0.0.phase
            is Finished,
        s.players[s.current_turn as int].hand.len() == 1 ==> s.play(who, card, declared)->Ok_0.0.winner
            == Some(who),
        s.players[s.current_turn as int].hand.len() != 1 ==> s.play(who, card, declared)->Ok_0.0.phase
            is Active && s.play(who, card, declared)->Ok_0.0.winner is None,
{
    lemma_remove_value(s.players[s.current_turn as int].hand, card);
}

/// Once the game is over, every request that would change it is refused
/// with `GameOver`.
pub proof fn theorem_game_over(s: StateView, request: Request)
    requires
        s.phase is Finished,
    ensures
        s.execute(request.sender, request.msg) == Err::<(StateView, Outcome), ContractError>(
            ContractError::GameOver,
        ),
        s.after(request) == s,
{
}

/// A game that is over stays as it is, whatever requests arrive.
pub proof fn theorem_finished_is_final(s: StateView, requests: Seq<Request>)
    requires
        s.phase is Finished,
    ensures
        s.after_all(requests) == s,
    decreases requests.len(),
{
    if requests.len() > 0 {
        theorem_finished_is_final(s, requests.drop_last());
        theorem_game_over(s, requests.last());
    }
}

/// The game leaves the waiting phase only for the active phase, and that
/// only by a join; it never returns to it.
pub proof fn theorem_phase_order(s: StateView, request: Request)
    requires
        s.wf(),
    ensures
        s.phase is Active ==> !(s.after(request).phase is WaitingForPlayers),
        s.phase is WaitingForPlayers && !(request.msg is JoinGame) ==> s.after(request).phase
            is WaitingForPlayers,
        s.phase is WaitingForPlayers ==> !(s.after(request).phase is Finished),
{
}

} // verus!
