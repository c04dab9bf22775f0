//! The rule validator: who may act, which card may be played, and what a
//! played card does.

use crate::card::{Card, Color, Rank};
use crate::deck::{draw_cards, drawable, pop_draw, top_cards, without_top};
use crate::error::ContractError;
use crate::registry::lemma_hands_update;
use crate::state::{addresses, wf_played, Phase, PlayerView, State, StateView};
use crate::turn::{advance, lemma_next_seat, next_seat};
use vstd::prelude::*;
use vstd::seq_lib::to_multiset_remove;

verus! {

/// What a request that was carried out reports back.
#[derive(Clone, Copy, Debug, PartialEq, Eq, Structural)]
pub enum Outcome {
    /// The request was carried out in full.
    Applied,
    /// The card was played, but the deck ran out before the next player had
    /// drawn all the cards the card demands.
    ShortDraw,
}

/// Whether `card` may be played on `pile`: a wild card always; any other
/// card if it has the colour or the rank of the card on top. Nothing but a
/// wild card can open an empty pile.
pub open spec fn playable(card: Card, pile: Seq<Card>) -> bool {
    ||| card.rank.is_wild()
    ||| pile.len() > 0 && card.color == pile.last().color
    ||| pile.len() > 0 && card.rank == pile.last().rank
}

/// Whether the player after the one who played `rank` loses their turn. At
/// a table of two, reversing the direction has the same effect as a skip.
pub open spec fn skips_next(rank: Rank, seats: nat) -> bool {
    ||| rank == Rank::Skip
    ||| rank == Rank::DrawTwo
    ||| rank == Rank::WildDrawFour
    ||| rank == Rank::Reverse && seats == 2
}

/// Whether `declared` names one of the four colours.
pub open spec fn names_color(declared: Option<Color>) -> bool {
    declared matches Some(c) && c.is_concrete()
}

impl StateView {
    /// Why `who` may not act now, if anything stands in the way: a game that
    /// is over, one that has not started, or somebody else's turn, in this
    /// order.
    pub open spec fn turn_refusal(self, who: Seq<char>) -> Option<ContractError> {
        if self.phase is Finished {
            Some(ContractError::GameOver)
        } else if self.phase is WaitingForPlayers {
            Some(ContractError::NotStarted)
        } else if self.players[self.current_turn as int].address != who {
            Some(ContractError::NotYourTurn)
        } else {
            None
        }
    }

    /// What a request of `who` to draw does: the refusal, or the state with
    /// the top card of the deck moved to the hand of `who`. The turn stays
    /// with `who`.
    pub open spec fn draw(self, who: Seq<char>) -> Result<StateView, ContractError> {
        match self.turn_refusal(who) {
            Some(e) => Err(e),
            None => if self.deck.len() == 0 {
                Err(ContractError::DeckEmpty)
            } else {
                let seat = self.current_turn as int;
                Ok(
                    StateView {
                        deck: self.deck.drop_last(),
                        players: self.players.update(
                            seat,
                            PlayerView { address: who, hand: self.players[seat].hand.push(self.deck.last()) },
                        ),
                        ..self
                    },
                )
            },
        }
    }

    /// Why `who` may not play `card` now, if anything stands in the way:
    /// what stops them from acting at all, a card they do not hold, a card
    /// that does not go on the pile, or a wild card without one of the four
    /// colours named, in this order.
    pub open spec fn play_refusal(self, who: Seq<char>, card: Card, declared: Option<Color>) -> Option<
        ContractError,
    > {
        match self.turn_refusal(who) {
            Some(e) => Some(e),
            None => if !self.players[self.current_turn as int].hand.contains(card) {
                Some(ContractError::CardNotInHand)
            } else if !playable(card, self.discard_pile) {
                Some(ContractError::IllegalPlay)
            } else if card.rank.is_wild() && !names_color(declared) {
                Some(ContractError::MissingColorDeclaration)
            } else {
                None
            },
        }
    }

    /// The state after the player whose turn it is has played `card`.
    ///
    /// The card goes from the hand to the pile, a wild card in the colour
    /// named. A reverse flips the direction. Where the card makes the next
    /// player lose their turn, the pointer moves on to that player, who
    /// draws what the card demands, or what the deck still has. Then either
    /// the hand is empty, and the game is over with the player as winner, or
    /// the pointer moves one seat on.
    pub open spec fn played(self, card: Card, declared: Option<Color>) -> StateView {
        let actor = self.current_turn as int;
        let seats = self.players.len();
        let direction = if card.rank == Rank::Reverse {
            -self.direction
        } else {
            self.direction
        };
        let target = if skips_next(card.rank, seats) {
            next_seat(actor, direction, seats as int)
        } else {
            actor
        };
        let penalty = drawable(self.deck, card.rank.penalty());
        let hand = self.players[actor].hand.remove_value(card);
        let after_play = self.players.update(actor, PlayerView { address: self.players[actor].address, hand });
        let after_draw = after_play.update(
            target,
            PlayerView {
                address: after_play[target].address,
                hand: after_play[target].hand + top_cards(self.deck, penalty),
            },
        );
        let won = hand.len() == 0;
        StateView {
            deck: without_top(self.deck, penalty),
            discard_pile: self.discard_pile.push(card.resolved(declared)),
            players: after_draw,
            current_turn: if won {
                target as nat
            } else {
                next_seat(target, direction, seats as int) as nat
            },
            direction,
            phase: if won {
                Phase::Finished
            } else {
                Phase::Active
            },
            winner: if won {
                Some(self.players[actor].address)
            } else {
                None
            },
            ..self
        }
    }

    /// What playing `card` reports back: a short draw where the deck could
    /// not supply all the cards the card demands.
    pub open spec fn play_outcome(self, card: Card) -> Outcome {
        if drawable(self.deck, card.rank.penalty()) < card.rank.penalty() {
            Outcome::ShortDraw
        } else {
            Outcome::Applied
        }
    }

    /// What a request of `who` to play `card` does: the refusal, or the
    /// state after the play together with what is reported back.
    pub open spec fn play(self, who: Seq<char>, card: Card, declared: Option<Color>) -> Result<
        (StateView, Outcome),
        ContractError,
    > {
        match self.play_refusal(who, card, declared) {
            Some(e) => Err(e),
            None => Ok((self.played(card, declared), self.play_outcome(card))),
        }
    }
}

/// A hand without the first copy of a card it holds is one card shorter: as
/// a multiset, it is the hand with one copy of the card taken out.
pub proof fn lemma_remove_value(hand: Seq<Card>, card: Card)
    requires
        hand.contains(card),
    ensures
        hand.index_of_first(card) is Some,
        0 <= hand.index_of_first(card)->0 < hand.len(),
        hand[hand.index_of_first(card)->0] == card,
        hand.remove_value(card) == hand.remove(hand.index_of_first(card)->0),
        hand.remove_value(card).len() == hand.len() - 1,
        hand.remove_value(card).to_multiset() == hand.to_multiset().remove(card),
        forall|j: int|
            0 <= j < hand.remove_value(card).len() ==> hand.contains(#[trigger] hand.remove_value(card)[j]),
{
    hand.index_of_first_ensures(card);
    let at = hand.index_of_first(card)->0;
    to_multiset_remove(hand, at);
    assert forall|j: int| 0 <= j < hand.remove(at).len() implies hand.contains(#[trigger] hand.remove(at)[j]) by {
        let j0 = if j < at { j } else { j + 1 };
        assert(hand[j0] == hand.remove(at)[j]);
    }
}

/// A successful draw keeps the state well formed and the number of cards in
/// play unchanged.
pub proof fn lemma_draw_preserves(s: StateView, who: Seq<char>)
    requires
        s.wf(),
        s.draw(who) is Ok,
    ensures
        s.draw(who)->Ok_0.wf(),
        s.draw(who)->Ok_0.total_cards() == s.total_cards(),
{
    let t = s.draw(who)->Ok_0;
    let seat = s.current_turn as int;
    lemma_hands_update(s.players, seat, t.players[seat]);
    assert(addresses(t.players) =~= addresses(s.players));
    assert forall|i: int, j: int| 0 <= i < t.players.len() && 0 <= j < t.players[i].hand.len() implies (
    #[trigger] t.players[i].hand[j]).wf() by {
        if i == seat && j == s.players[seat].hand.len() {
            assert(s.deck[s.deck.len() - 1].wf());
        } else {
            assert(t.players[i].hand[j] == s.players[i].hand[j]);
        }
    }
}

/// A successful play keeps the state well formed and the number of cards in
/// play unchanged.
pub proof fn lemma_play_preserves(s: StateView, who: Seq<char>, card: Card, declared: Option<Color>)
    requires
        s.wf(),
        s.play(who, card, declared) is Ok,
    ensures
        s.play(who, card, declared)->Ok_0.0.wf(),
        s.play(who, card, declared)->Ok_0.0.total_cards() == s.total_cards(),
{
    let t = s.played(card, declared);
    let actor = s.current_turn as int;
    let seats = s.players.len();
    let direction = t.direction;
    let target = if skips_next(card.rank, seats) {
        next_seat(actor, direction, seats as int)
    } else {
        actor
    };
    let penalty = drawable(s.deck, card.rank.penalty());
    let old_hand = s.players[actor].hand;
    let hand = old_hand.remove_value(card);
    let after_play = s.players.update(actor, PlayerView { address: s.players[actor].address, hand });
    lemma_next_seat(actor, direction, seats as int);
    lemma_next_seat(target, direction, seats as int);
    lemma_remove_value(old_hand, card);
    lemma_hands_update(s.players, actor, after_play[actor]);
    lemma_hands_update(after_play, target, t.players[target]);
    assert(addresses(t.players) =~= addresses(s.players));
    assert(wf_played(card.resolved(declared))) by {
        let at = old_hand.index_of_first(card)->0;
        assert(s.players[actor].hand[at].wf());
    }
    assert forall|i: int, j: int| 0 <= i < t.players.len() && 0 <= j < t.players[i].hand.len() implies (
    #[trigger] t.players[i].hand[j]).wf() by {
        let before = after_play[i].hand;
        if j < before.len() {
            assert(t.players[i].hand[j] == before[j]);
            if i == actor {
                assert(old_hand.contains(hand[j]));
                let k = choose|k: int| 0 <= k < old_hand.len() && old_hand[k] == hand[j];
                assert(s.players[actor].hand[k].wf());
            } else {
                assert(before[j] == s.players[i].hand[j]);
            }
        } else {
            assert(i == target);
            assert(t.players[i].hand[j] == s.deck[s.deck.len() - 1 - (j - before.len())]);
        }
    }
}

/// Finds the first copy of `card` in `hand`.
pub fn find_card(hand: &Vec<Card>, card: Card) -> (at: Option<usize>)
    ensures
        match at {
            Some(i) => hand@.index_of_first(card) == Some(i as int) && i < hand.len() && hand@.contains(card),
            None => !hand@.contains(card),
        },
{
    let mut i: usize = 0;
    while i < hand.len()
        invariant
            i <= hand.len(),
            forall|k: int| 0 <= k < i ==> hand@[k] != card,
        decreases hand.len() - i,
    {
        if hand[i] == card {
            proof {
                hand@.index_of_first_ensures(card);
            }
            return Some(i);
        }
        i = i + 1;
    }
    None
}

/// Tells whether `card` may be played on `pile`.
pub fn is_playable(card: Card, pile: &Vec<Card>) -> (b: bool)
    ensures
        b == playable(card, pile@),
{
    if card.rank.wild() {
        return true;
    }
    if pile.len() == 0 {
        return false;
    }
    let top = pile[pile.len() - 1];
    card.color == top.color || card.rank == top.rank
}

/// Tells whether the player after the one who played `rank` at a table of
/// `seats` loses their turn.
pub fn is_skipping(rank: Rank, seats: usize) -> (b: bool)
    ensures
        b == skips_next(rank, seats as nat),
{
    match rank {
        Rank::Skip | Rank::DrawTwo | Rank::WildDrawFour => true,
        Rank::Reverse => seats == 2,
        _ => false,
    }
}

/// Checks that `sender` may act now.
fn check_turn(state: &State, sender: &String) -> (res: Result<(), ContractError>)
    requires
        state@.wf(),
    ensures
        match res {
            Ok(_) => state@.turn_refusal(sender@) is None && state.current_turn < state.players.len(),
            Err(e) => state@.turn_refusal(sender@) == Some(e),
        },
{
    match state.phase {
        Phase::Finished => Err(ContractError::GameOver),
        Phase::WaitingForPlayers => Err(ContractError::NotStarted),
        Phase::Active => {
            assert(state@.players[state.current_turn as int] == state.players@[state.current_turn as int]@);
            if state.players[state.current_turn].address != *sender {
                Err(ContractError::NotYourTurn)
            } else {
                Ok(())
            }
        },
    }
}

/// Moves the top card of the deck to the hand of `sender`. The turn stays
/// with `sender`.
///
/// Refused with `GameOver` once the game is over, with `NotStarted` before
/// it has started, with `NotYourTurn` when it is not the turn of `sender`,
/// and with `DeckEmpty` when there is nothing to draw, in this order.
pub fn draw_card(state: &mut State, sender: String) -> (res: Result<(), ContractError>)
    requires
        old(state)@.wf(),
    ensures
        match res {
            Ok(_) => old(state)@.draw(sender@) == Ok::<StateView, ContractError>(final(state)@),
            Err(e) => old(state)@.draw(sender@) == Err::<StateView, ContractError>(e) && *final(state) == *old(
                state,
            ),
        },
        final(state)@.wf(),
        final(state)@.total_cards() == old(state)@.total_cards(),
{
    match check_turn(state, &sender) {
        Err(e) => {
            return Err(e);
        },
        Ok(_) => {},
    }
    let card = match pop_draw(&mut state.deck) {
        Err(e) => {
            return Err(e);
        },
        Ok(card) => card,
    };
    let seat = state.current_turn;
    state.players[seat].hand.push(card);
    proof {
        let expected = old(state)@.draw(sender@)->Ok_0;
        assert(state@.players =~= expected.players);
        assert(state@ == expected);
        lemma_draw_preserves(old(state)@, sender@);
    }
    Ok(())
}

/// Plays `card` from the hand of `sender`. A wild card takes
/// `declared_color`, which must then be one of the four colours; for any
/// other card `declared_color` is ignored.
///
/// Refused with `GameOver` once the game is over, with `NotStarted` before
/// it has started, with `NotYourTurn` when it is not the turn of `sender`,
/// with `CardNotInHand` when `sender` does not hold the card, with
/// `IllegalPlay` when the card does not go on the pile, and with
/// `MissingColorDeclaration` when a wild card comes without a colour, in
/// this order.
pub fn play_card(state: &mut State, sender: String, card: Card, declared_color: Option<Color>) -> (res: Result<
    Outcome,
    ContractError,
>)
    requires
        old(state)@.wf(),
    ensures
        match res {
            Ok(outcome) => old(state)@.play(sender@, card, declared_color) == Ok::<
                (StateView, Outcome),
                ContractError,
            >((final(state)@, outcome)),
            Err(e) => old(state)@.play(sender@, card, declared_color) == Err::<(StateView, Outcome), ContractError>(
                e,
            ) && *final(state) == *old(state),
        },
        final(state)@.wf(),
        final(state)@.total_cards() == old(state)@.total_cards(),
{
    match check_turn(state, &sender) {
        Err(e) => {
            return Err(e);
        },
        Ok(_) => {},
    }
    let actor = state.current_turn;
    let seats = state.players.len();
    assert(old(state)@.players[actor as int] == old(state).players@[actor as int]@);
    let at = match find_card(&state.players[actor].hand, card) {
        None => {
            return Err(ContractError::CardNotInHand);
        },
        Some(at) => at,
    };
    if !is_playable(card, &state.discard_pile) {
        return Err(ContractError::IllegalPlay);
    }
    let resolved = if card.rank.wild() {
        match declared_color {
            Some(color) => {
                if !color.concrete() {
                    return Err(ContractError::MissingColorDeclaration);
                }
                Card { color, rank: card.rank }
            },
            None => {
                return Err(ContractError::MissingColorDeclaration);
            },
        }
    } else {
        card
    };
    proof {
        lemma_remove_value(old(state)@.players[actor as int].hand, card);
    }
    state.players[actor].hand.remove(at);
    let won = state.players[actor].hand.len() == 0;
    state.discard_pile.push(resolved);
    if card.rank == Rank::Reverse {
        state.direction = -state.direction;
    }
    let target = if is_skipping(card.rank, seats) {
        advance(actor, state.direction, seats)
    } else {
        actor
    };
    let want = card.rank.forced_draws();
    let drawn = draw_cards(&mut state.deck, &mut state.players[target].hand, want);
    if won {
        state.phase = Phase::Finished;
        state.winner = Some(sender);
        state.current_turn = target;
    } else {
        state.current_turn = advance(target, state.direction, seats);
    }
    proof {
        let expected = old(state)@.played(card, declared_color);
        assert(state@.players =~= expected.players);
        assert(state@ == expected);
        lemma_play_preserves(old(state)@, sender@, card, declared_color);
    }
    if drawn < want {
        Ok(Outcome::ShortDraw)
    } else {
        Ok(Outcome::Applied)
    }
}

} // verus!
