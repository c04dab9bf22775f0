//! The player registry: taking a seat at the table and leaving it.

use crate::error::ContractError;
use crate::state::{
    addresses, cards_in_hands, seat_of, view_players, Phase, Player, PlayerView, State, StateView,
};
use crate::turn::{
    deal, deal_opening_hands, deck_after_deal, lemma_deal_moves_cards, reindex_turn, turn_after_leave,
};
use vstd::prelude::*;

verus! {

impl StateView {
    /// Why `who` cannot take a seat, if anything stands in the way: a game
    /// that is over, a full table, or the same identity already seated, in
    /// this order.
    pub open spec fn join_refusal(self, who: Seq<char>) -> Option<ContractError> {
        if self.phase is Finished {
            Some(ContractError::GameOver)
        } else if self.players.len() >= self.required_players_max {
            Some(ContractError::SessionFull)
        } else if self.seated(who) {
            Some(ContractError::AlreadyJoined)
        } else {
            None
        }
    }

    /// Whether one more player makes the game start.
    pub open spec fn starts_on_join(self) -> bool {
        self.phase is WaitingForPlayers && self.players.len() + 1 == self.required_players
    }

    /// The state with `who` seated last, holding nothing.
    pub open spec fn with_player(self, who: Seq<char>) -> StateView {
        StateView { players: self.players.push(PlayerView { address: who, hand: Seq::empty() }), ..self }
    }

    /// The state after the opening deal.
    pub open spec fn started(self) -> StateView {
        StateView {
            deck: deck_after_deal(self.deck, self.players.len()),
            players: deal(self.players, self.deck),
            phase: Phase::Active,
            ..self
        }
    }

    /// What a request of `who` to join does: the refusal, or the state with
    /// `who` seated and, if that makes the table complete, the game started.
    pub open spec fn join(self, who: Seq<char>) -> Result<StateView, ContractError> {
        match self.join_refusal(who) {
            Some(e) => Err(e),
            None => Ok(
                if self.starts_on_join() {
                    self.with_player(who).started()
                } else {
                    self.with_player(who)
                },
            ),
        }
    }

    /// What a request of `who` to leave does: the refusal, or the state
    /// without that player and their cards. An active game that is left with
    /// too few players is over, without a winner.
    pub open spec fn leave(self, who: Seq<char>) -> Result<StateView, ContractError> {
        if self.phase is Finished {
            Err(ContractError::GameOver)
        } else {
            match seat_of(self.players, who) {
                None => Err(ContractError::PlayerNotFound),
                Some(seat) => {
                    let remaining = self.players.remove(seat);
                    Ok(
                        StateView {
                            players: remaining,
                            current_turn: turn_after_leave(self.current_turn, seat, remaining.len()),
                            phase: if self.phase is Active && remaining.len() < self.required_players {
                                Phase::Finished
                            } else {
                                self.phase
                            },
                            ..self
                        },
                    )
                },
            }
        }
    }
}

/// Adding a player adds their cards to the count.
pub proof fn lemma_hands_push(players: Seq<PlayerView>, player: PlayerView)
    ensures
        cards_in_hands(players.push(player)) == cards_in_hands(players) + player.hand.len(),
{
    assert(players.push(player).drop_last() =~= players);
}

/// Replacing a player's hand changes the count by the difference in size.
pub proof fn lemma_hands_update(players: Seq<PlayerView>, seat: int, player: PlayerView)
    requires
        0 <= seat < players.len(),
    ensures
        cards_in_hands(players.update(seat, player)) == cards_in_hands(players) - players[seat].hand.len()
            + player.hand.len(),
    decreases players.len(),
{
    if seat == players.len() - 1 {
        assert(players.update(seat, player).drop_last() =~= players.drop_last());
    } else {
        assert(players.update(seat, player).drop_last() =~= players.drop_last().update(seat, player));
        lemma_hands_update(players.drop_last(), seat, player);
    }
}

/// Removing a player takes their cards out of the count.
pub proof fn lemma_hands_remove(players: Seq<PlayerView>, seat: int)
    requires
        0 <= seat < players.len(),
    ensures
        cards_in_hands(players.remove(seat)) == cards_in_hands(players) - players[seat].hand.len(),
    decreases players.len(),
{
    if seat == players.len() - 1 {
        assert(players.remove(seat) =~= players.drop_last());
    } else {
        assert(players.remove(seat).drop_last() =~= players.drop_last().remove(seat));
        assert(players.remove(seat).last() == players.last());
        lemma_hands_remove(players.drop_last(), seat);
    }
}

/// What `seat_of` finds: the first seat that carries the identity, or that
/// no seat does.
pub proof fn lemma_seat_of(players: Seq<PlayerView>, who: Seq<char>)
    ensures
        match seat_of(players, who) {
            Some(seat) => {
                &&& 0 <= seat < players.len()
                &&& players[seat].address == who
                &&& forall|k: int| 0 <= k < seat ==> (#[trigger] players[k]).address != who
            },
            None => forall|k: int| 0 <= k < players.len() ==> (#[trigger] players[k]).address != who,
        },
{
    let names = addresses(players);
    names.index_of_first_ensures(who);
    match seat_of(players, who) {
        Some(seat) => {
            assert forall|k: int| 0 <= k < seat implies (#[trigger] players[k]).address != who by {
                assert(names[k] != who);
            }
        },
        None => {
            assert forall|k: int| 0 <= k < players.len() implies (#[trigger] players[k]).address != who by {
                assert(names[k] == players[k].address);
            }
        },
    }
}

/// A seat that carries the identity and has none before it that does is the
/// seat `seat_of` finds.
pub proof fn lemma_seat_of_is(players: Seq<PlayerView>, who: Seq<char>, seat: int)
    requires
        0 <= seat < players.len(),
        players[seat].address == who,
        forall|k: int| 0 <= k < seat ==> (#[trigger] players[k]).address != who,
    ensures
        seat_of(players, who) == Some(seat),
{
    lemma_seat_of(players, who);
    assert(addresses(players)[seat] == who);
}

/// A successful join keeps the state well formed and the number of cards in
/// play unchanged.
pub proof fn lemma_join_preserves(s: StateView, who: Seq<char>)
    requires
        s.wf(),
        s.join(who) is Ok,
    ensures
        s.join(who)->Ok_0.wf(),
        s.join(who)->Ok_0.total_cards() == s.total_cards(),
{
    let newcomer = PlayerView { address: who, hand: Seq::empty() };
    let seated = s.with_player(who);
    let t = s.join(who)->Ok_0;
    lemma_hands_push(s.players, newcomer);
    lemma_seat_of(s.players, who);
    assert(addresses(seated.players) =~= addresses(s.players).push(who));
    assert(addresses(seated.players).no_duplicates()) by {
        let names = addresses(s.players);
        assert forall|a: int, b: int| 0 <= a < seated.players.len() && 0 <= b < seated.players.len() && a != b implies addresses(
            seated.players,
        )[a] != addresses(seated.players)[b] by {
            if a < names.len() && b < names.len() {
                assert(names[a] != names[b]);
            } else if a < names.len() {
                assert(s.players[a].address != who);
            } else {
                assert(s.players[b].address != who);
            }
        }
    }
    if s.starts_on_join() {
        lemma_deal_moves_cards(seated.players, seated.deck);
        assert(addresses(t.players) =~= addresses(seated.players));
        assert forall|i: int, j: int| 0 <= i < t.players.len() && 0 <= j < t.players[i].hand.len() implies (
        #[trigger] t.players[i].hand[j]).wf() by {
            assert(seated.players[i].hand.len() == 0);
        }
    } else {
        assert forall|i: int, j: int| 0 <= i < t.players.len() && 0 <= j < t.players[i].hand.len() implies (
        #[trigger] t.players[i].hand[j]).wf() by {
            if i < s.players.len() {
                assert(t.players[i] == s.players[i]);
            }
        }
        if s.phase is WaitingForPlayers {
            assert forall|i: int| 0 <= i < t.players.len() implies (#[trigger] t.players[i]).hand.len() == 0 by {
                if i < s.players.len() {
                    assert(t.players[i] == s.players[i]);
                }
            }
        }
    }
}

/// A successful leave keeps the state well formed; the cards in play are
/// fewer by the hand that left with the player.
pub proof fn lemma_leave_preserves(s: StateView, who: Seq<char>)
    requires
        s.wf(),
        s.leave(who) is Ok,
    ensures
        s.leave(who)->Ok_0.wf(),
        seat_of(s.players, who) is Some,
        s.leave(who)->Ok_0.total_cards() + s.players[seat_of(s.players, who)->0].hand.len() == s.total_cards(),
{
    lemma_seat_of(s.players, who);
    let seat = seat_of(s.players, who)->0;
    let t = s.leave(who)->Ok_0;
    lemma_hands_remove(s.players, seat);
    assert(addresses(t.players) =~= addresses(s.players).remove(seat));
    assert(addresses(t.players).no_duplicates()) by {
        let names = addresses(s.players);
        assert forall|a: int, b: int| 0 <= a < t.players.len() && 0 <= b < t.players.len() && a != b implies addresses(
            t.players,
        )[a] != addresses(t.players)[b] by {
            let a0 = if a < seat { a } else { a + 1 };
            let b0 = if b < seat { b } else { b + 1 };
            assert(names[a0] != names[b0]);
        }
    }
    assert forall|i: int, j: int| 0 <= i < t.players.len() && 0 <= j < t.players[i].hand.len() implies (
    #[trigger] t.players[i].hand[j]).wf() by {
        let i0 = if i < seat { i } else { i + 1 };
        assert(t.players[i] == s.players[i0]);
    }
    if t.phase is WaitingForPlayers {
        assert forall|i: int| 0 <= i < t.players.len() implies (#[trigger] t.players[i]).hand.len() == 0 by {
            let i0 = if i < seat { i } else { i + 1 };
            assert(t.players[i] == s.players[i0]);
        }
    }
}

/// Finds the seat of `who`.
pub fn find_player(players: &Vec<Player>, who: &String) -> (seat: Option<usize>)
    ensures
        match seat {
            Some(i) => seat_of(view_players(players@), who@) == Some(i as int) && i < players.len(),
            None => seat_of(view_players(players@), who@) is None,
        },
{
    let mut i: usize = 0;
    while i < players.len()
        invariant
            i <= players.len(),
            forall|k: int| 0 <= k < i ==> (#[trigger] view_players(players@)[k]).address != who@,
        decreases players.len() - i,
    {
        if players[i].address == *who {
            proof {
                lemma_seat_of_is(view_players(players@), who@, i as int);
            }
            return Some(i);
        }
        assert(view_players(players@)[i as int].address != who@);
        i = i + 1;
    }
    proof {
        lemma_seat_of(view_players(players@), who@);
    }
    None
}

/// Seats `sender` at the table. When that brings the table to the number of
/// players the game needs, the opening hands are dealt and the game starts.
///
/// Refused with `GameOver` once the game is over, with `SessionFull` when
/// every seat is taken, and with `AlreadyJoined` when `sender` is seated.
pub fn join_game(state: &mut State, sender: String) -> (res: Result<(), ContractError>)
    ensures
        match res {
            Ok(_) => old(state)@.join(sender@) == Ok::<StateView, ContractError>(final(state)@),
            Err(e) => old(state)@.join(sender@) == Err::<StateView, ContractError>(e) && *final(state) == *old(
                state,
            ),
        },
        old(state)@.wf() ==> final(state)@.wf() && final(state)@.total_cards() == old(state)@.total_cards(),
{
    if state.phase == Phase::Finished {
        return Err(ContractError::GameOver);
    }
    if state.players.len() >= state.required_players_max {
        return Err(ContractError::SessionFull);
    }
    if find_player(&state.players, &sender).is_some() {
        return Err(ContractError::AlreadyJoined);
    }
    let ghost who = sender@;
    state.players.push(Player { address: sender, hand: Vec::new() });
    proof {
        assert(state@.players =~= old(state)@.with_player(who).players);
    }
    if state.phase == Phase::WaitingForPlayers && state.players.len() == state.required_players {
        state.phase = Phase::Active;
        deal_opening_hands(&mut state.deck, &mut state.players);
    }
    proof {
        assert(state@ == old(state)@.join(who)->Ok_0);
        if old(state)@.wf() {
            lemma_join_preserves(old(state)@, who);
        }
    }
    Ok(())
}

/// Takes `sender` from the table. Their cards leave the game with them.
/// The turn pointer keeps pointing at the same player, or, if it was the
/// leaver's turn, at the player who sat next. An active game left with
/// fewer players than it needs is over, without a winner.
///
/// Refused with `GameOver` once the game is over and with `PlayerNotFound`
/// when `sender` is not seated.
pub fn leave_game(state: &mut State, sender: String) -> (res: Result<(), ContractError>)
    ensures
        match res {
            Ok(_) => old(state)@.leave(sender@) == Ok::<StateView, ContractError>(final(state)@),
            Err(e) => old(state)@.leave(sender@) == Err::<StateView, ContractError>(e) && *final(state) == *old(
                state,
            ),
        },
        old(state)@.wf() ==> final(state)@.wf(),
        old(state)@.wf() && res is Ok ==> final(state)@.total_cards() + old(state)@.players[seat_of(
            old(state)@.players,
            sender@,
        )->0].hand.len() == old(state)@.total_cards(),
{
    if state.phase == Phase::Finished {
        return Err(ContractError::GameOver);
    }
    let seat = match find_player(&state.players, &sender) {
        Some(seat) => seat,
        None => {
            return Err(ContractError::PlayerNotFound);
        },
    };
    state.players.remove(seat);
    state.current_turn = reindex_turn(state.current_turn, seat, state.players.len());
    if state.phase == Phase::Active && state.players.len() < state.required_players {
        state.phase = Phase::Finished;
    }
    proof {
        assert(state@.players =~= old(state)@.players.remove(seat as int));
        assert(state@ == old(state)@.leave(sender@)->Ok_0);
        if old(state)@.wf() {
            lemma_leave_preserves(old(state)@, sender@);
        }
    }
    Ok(())
}

} // verus!
