//! The turn engine: whose turn comes next, the opening deal, and where the
//! turn pointer goes when a player leaves.

use crate::card::Card;
use crate::deck::{draw_cards, drawable, top_cards, without_top};
use crate::state::{cards_in_hands, view_players, Player, PlayerView, INITIAL_HAND_SIZE};
use vstd::arithmetic::div_mod::lemma_fundamental_div_mod_converse_mod;
use vstd::prelude::*;

verus! {

/// The seat that follows `seat` at a table of `seats` when turns pass in
/// `direction`.
pub open spec fn next_seat(seat: int, direction: int, seats: int) -> int
    recommends
        0 <= seat < seats,
        direction == 1 || direction == -1,
{
    (seat + direction) % seats
}

/// The seat following `seat` is the neighbour on the side `direction` points
/// to, wrapping round the table.
pub proof fn lemma_next_seat(seat: int, direction: int, seats: int)
    requires
        0 <= seat < seats,
        direction == 1 || direction == -1,
    ensures
        0 <= next_seat(seat, direction, seats) < seats,
        direction == 1 ==> next_seat(seat, direction, seats) == if seat + 1 == seats {
            0
        } else {
            seat + 1
        },
        direction == -1 ==> next_seat(seat, direction, seats) == if seat == 0 {
            seats - 1
        } else {
            seat - 1
        },
        seats >= 2 ==> next_seat(seat, direction, seats) != seat,
        seats == 2 ==> next_seat(next_seat(seat, direction, seats), direction, seats) == seat,
{
    let x = seat + direction;
    if x == seats {
        assert(x == 1 * seats + 0);
        lemma_fundamental_div_mod_converse_mod(x, seats, 1, 0);
    } else if x == -1 {
        assert(x == (-1) * seats + (seats - 1));
        lemma_fundamental_div_mod_converse_mod(x, seats, -1, seats - 1);
    } else {
        assert(x == 0 * seats + x);
        lemma_fundamental_div_mod_converse_mod(x, seats, 0, x);
    }
    if seats == 2 {
        let y = next_seat(seat, direction, seats) + direction;
        if y == seats {
            assert(y == 1 * seats + 0);
            lemma_fundamental_div_mod_converse_mod(y, seats, 1, 0);
        } else if y == -1 {
            assert(y == (-1) * seats + (seats - 1));
            lemma_fundamental_div_mod_converse_mod(y, seats, -1, seats - 1);
        } else {
            assert(y == 0 * seats + y);
            lemma_fundamental_div_mod_converse_mod(y, seats, 0, y);
        }
    }
}

/// Moves the turn pointer one seat on.
pub fn advance(seat: usize, direction: i8, seats: usize) -> (next: usize)
    requires
        seat < seats,
        direction == 1 || direction == -1,
    ensures
        next == next_seat(seat as int, direction as int, seats as int),
        next < seats,
{
    proof {
        lemma_next_seat(seat as int, direction as int, seats as int);
    }
    if direction == 1 {
        if seat + 1 == seats {
            0
        } else {
            seat + 1
        }
    } else {
        if seat == 0 {
            seats - 1
        } else {
            seat - 1
        }
    }
}

/// Where the turn pointer stands after the player in seat `left` has gone
/// and `remaining` players are left: the seats after `left` move down by
/// one, so a pointer beyond it moves down with them; a pointer on it now
/// points at the player who sat next. With nobody left it is 0.
pub open spec fn turn_after_leave(turn: nat, left: int, remaining: nat) -> nat {
    if remaining == 0 {
        0
    } else if left < turn {
        ((turn - 1) % (remaining as int)) as nat
    } else {
        (turn % remaining) as nat
    }
}

/// Computes `turn_after_leave`.
pub fn reindex_turn(turn: usize, left: usize, remaining: usize) -> (next: usize)
    ensures
        next == turn_after_leave(turn as nat, left as int, remaining as nat),
        remaining > 0 ==> next < remaining,
{
    if remaining == 0 {
        0
    } else if left < turn {
        (turn - 1) % remaining
    } else {
        turn % remaining
    }
}

/// The cards the player in `seat` receives in the opening deal from `deck`:
/// seven from the top of what the seats before left over, or as many as
/// there are.
pub open spec fn opening_hand(deck: Seq<Card>, seat: int) -> Seq<Card> {
    let rest = without_top(deck, drawable(deck, (INITIAL_HAND_SIZE * seat) as nat));
    top_cards(rest, drawable(rest, INITIAL_HAND_SIZE as nat))
}

/// The players after the opening deal: in seat order, each adds an opening
/// hand to what they hold.
pub open spec fn deal(players: Seq<PlayerView>, deck: Seq<Card>) -> Seq<PlayerView> {
    Seq::new(
        players.len(),
        |i: int| PlayerView { address: players[i].address, hand: players[i].hand + opening_hand(deck, i) },
    )
}

/// The deck after the opening deal to `seats` players.
pub open spec fn deck_after_deal(deck: Seq<Card>, seats: nat) -> Seq<Card> {
    without_top(deck, drawable(deck, (INITIAL_HAND_SIZE * seats) as nat))
}

/// The opening deal moves cards from the deck to the hands and loses none:
/// the hands grow by what the deck shrinks by.
pub proof fn lemma_deal_moves_cards(players: Seq<PlayerView>, deck: Seq<Card>)
    ensures
        deal(players, deck).len() == players.len(),
        cards_in_hands(deal(players, deck)) == cards_in_hands(players) + drawable(
            deck,
            (INITIAL_HAND_SIZE * players.len()) as nat,
        ),
        deck_after_deal(deck, players.len()).len() + drawable(deck, (INITIAL_HAND_SIZE * players.len()) as nat)
            == deck.len(),
    decreases players.len(),
{
    if players.len() > 0 {
        let before = players.drop_last();
        lemma_deal_moves_cards(before, deck);
        assert(deal(players, deck).drop_last() =~= deal(before, deck));
    }
}

/// With enough cards in the deck, the opening deal gives every player
/// exactly seven.
pub proof fn lemma_deal_full_hands(players: Seq<PlayerView>, deck: Seq<Card>, seat: int)
    requires
        0 <= seat < players.len(),
        INITIAL_HAND_SIZE * players.len() <= deck.len(),
    ensures
        deal(players, deck)[seat].hand.len() == players[seat].hand.len() + INITIAL_HAND_SIZE,
        deck_after_deal(deck, players.len()).len() == deck.len() - INITIAL_HAND_SIZE * players.len(),
{
}

/// Deals the opening hands: in seat order each player draws seven cards. A
/// deck that runs out leaves the later players with short hands.
pub fn deal_opening_hands(deck: &mut Vec<Card>, players: &mut Vec<Player>)
    ensures
        view_players(final(players)@) == deal(view_players(old(players)@), old(deck)@),
        final(deck)@ == deck_after_deal(old(deck)@, old(players)@.len()),
{
    let seats = players.len();
    let mut seat: usize = 0;
    while seat < seats
        invariant
            seat <= seats,
            players.len() == seats,
            old(players).len() == seats,
            deck@ == without_top(old(deck)@, drawable(old(deck)@, (INITIAL_HAND_SIZE * seat) as nat)),
            forall|k: int|
                0 <= k < seat ==> (#[trigger] players@[k])@ == deal(view_players(old(players)@), old(deck)@)[k],
            forall|k: int| seat <= k < seats ==> #[trigger] players@[k] == old(players)@[k],
        decreases seats - seat,
    {
        let ghost before = players@;
        draw_cards(deck, &mut players[seat].hand, INITIAL_HAND_SIZE);
        proof {
            assert(players@[seat as int].address == before[seat as int].address);
            assert(deck@ =~= without_top(
                old(deck)@,
                drawable(old(deck)@, (INITIAL_HAND_SIZE * (seat + 1)) as nat),
            ));
        }
        seat = seat + 1;
    }
    proof {
        assert(view_players(players@) =~= deal(view_players(old(players)@), old(deck)@));
    }
}

} // verus!
