//! The deck: its fixed starting composition and drawing from its top.
//!
//! The deck is a stack whose top is the last element. It is built in a fixed
//! order. A host that wants another order shuffles it before the first deal,
//! with `shuffle` and picks from a source of randomness of its own.

use crate::card::{Card, Color, Rank};
use crate::error::ContractError;
use vstd::arithmetic::div_mod::lemma_mod_bound;
use vstd::prelude::*;
use vstd::seq_lib::{to_multiset_contains, to_multiset_update};

verus! {

/// Number of cards in a fresh deck.
pub const DECK_SIZE: usize = 72;

/// The three coloured action cards of one colour, in deck order.
pub open spec fn action_cards(color: Color) -> Seq<Card> {
    seq![
        Card { color, rank: Rank::Skip },
        Card { color, rank: Rank::DrawTwo },
        Card { color, rank: Rank::Reverse },
    ]
}

/// The ten number cards of one colour, 1 to 10 in rising order.
pub open spec fn number_cards(color: Color) -> Seq<Card> {
    Seq::new(10, |i: int| Card { color, rank: Rank::Number((i + 1) as u8) })
}

/// The sixteen cards of one colour: its numbers, then its action cards twice.
pub open spec fn color_cards(color: Color) -> Seq<Card> {
    number_cards(color) + action_cards(color) + action_cards(color)
}

/// One wild card of each kind.
pub open spec fn wild_cards() -> Seq<Card> {
    seq![
        Card { color: Color::Wild, rank: Rank::WildChangeColor },
        Card { color: Color::Wild, rank: Rank::WildDrawFour },
    ]
}

/// The fresh deck, bottom first: red, yellow, blue, green, then the wild
/// cards four times over.
pub open spec fn initial_deck() -> Seq<Card> {
    color_cards(Color::Red) + color_cards(Color::Yellow) + color_cards(Color::Blue) + color_cards(
        Color::Green,
    ) + wild_cards() + wild_cards() + wild_cards() + wild_cards()
}

/// How many cards of `cards` satisfy `kind`.
pub open spec fn count_of(cards: Seq<Card>, kind: spec_fn(Card) -> bool) -> nat
    decreases cards.len(),
{
    if cards.len() == 0 {
        0
    } else {
        count_of(cards.drop_last(), kind) + if kind(cards.last()) {
            1nat
        } else {
            0nat
        }
    }
}

/// The `k` cards that `k` draws take from `deck`, in the order drawn.
pub open spec fn top_cards(deck: Seq<Card>, k: nat) -> Seq<Card>
    recommends
        k <= deck.len(),
{
    Seq::new(k, |j: int| deck[deck.len() - 1 - j])
}

/// What is left of `deck` after `k` draws.
pub open spec fn without_top(deck: Seq<Card>, k: nat) -> Seq<Card>
    recommends
        k <= deck.len(),
{
    deck.take(deck.len() - k)
}

/// How many cards a player who must draw `want` cards gets from `deck`.
pub open spec fn drawable(deck: Seq<Card>, want: nat) -> nat {
    if want <= deck.len() {
        want
    } else {
        deck.len()
    }
}

/// `cards` with the cards at `i` and `j` exchanged.
pub open spec fn exchanged(cards: Seq<Card>, i: int, j: int) -> Seq<Card>
    recommends
        0 <= i < cards.len(),
        0 <= j < cards.len(),
{
    cards.update(i, cards[j]).update(j, cards[i])
}

/// The position whose card goes to position `i` of a deck of `len` cards
/// when the pick for that position is `pick`: one of the positions from `i`
/// on.
pub open spec fn picked(len: nat, i: int, pick: u64) -> int
    recommends
        0 <= i < len,
{
    i + (pick as int) % (len - i)
}

/// The deck after the first `steps` exchanges of a shuffle by `picks`: for
/// each position in turn, from the bottom, the card there changes places
/// with the card at the position picked for it.
pub open spec fn shuffle_steps(deck: Seq<Card>, picks: Seq<u64>, steps: nat) -> Seq<Card>
    recommends
        steps <= deck.len(),
        steps <= picks.len(),
    decreases steps,
{
    if steps == 0 {
        deck
    } else {
        let i = steps - 1;
        exchanged(shuffle_steps(deck, picks, i as nat), i, picked(deck.len(), i, picks[i]))
    }
}

/// The deck shuffled by `picks`. There is one exchange per pick, and at
/// most one per card: no picks leave the deck as it is.
pub open spec fn shuffled(deck: Seq<Card>, picks: Seq<u64>) -> Seq<Card> {
    shuffle_steps(
        deck,
        picks,
        if picks.len() <= deck.len() {
            picks.len()
        } else {
            deck.len()
        },
    )
}

/// Counting distributes over concatenation.
pub proof fn lemma_count_concat(a: Seq<Card>, b: Seq<Card>, kind: spec_fn(Card) -> bool)
    ensures
        count_of(a + b, kind) == count_of(a, kind) + count_of(b, kind),
    decreases b.len(),
{
    if b.len() == 0 {
        assert(a + b =~= a);
    } else {
        assert((a + b).drop_last() =~= a + b.drop_last());
        lemma_count_concat(a, b.drop_last(), kind);
    }
}

/// Where every card is of the kind, the count is the length.
pub proof fn lemma_count_all(cards: Seq<Card>, kind: spec_fn(Card) -> bool)
    requires
        forall|i: int| 0 <= i < cards.len() ==> kind(#[trigger] cards[i]),
    ensures
        count_of(cards, kind) == cards.len(),
    decreases cards.len(),
{
    if cards.len() > 0 {
        lemma_count_all(cards.drop_last(), kind);
    }
}

/// Where no card is of the kind, the count is zero.
pub proof fn lemma_count_none(cards: Seq<Card>, kind: spec_fn(Card) -> bool)
    requires
        forall|i: int| 0 <= i < cards.len() ==> !kind(#[trigger] cards[i]),
    ensures
        count_of(cards, kind) == 0,
    decreases cards.len(),
{
    if cards.len() > 0 {
        lemma_count_none(cards.drop_last(), kind);
    }
}

/// Among the sixteen cards of `color`, `kind` counts `numbers` of the ten
/// number cards if it holds of all of them (else none), and likewise for the
/// six action cards.
proof fn lemma_count_color_cards(color: Color, kind: spec_fn(Card) -> bool, numbers: bool, actions: bool)
    requires
        forall|c: Card| #![trigger kind(c)] c.color == color && c.rank is Number ==> kind(c) == numbers,
        forall|c: Card| #![trigger kind(c)] c.color == color && c.rank.is_action() ==> kind(c) == actions,
    ensures
        count_of(color_cards(color), kind) == (if numbers { 10nat } else { 0nat }) + (if actions { 6nat } else { 0nat }),
{
    let nums = number_cards(color);
    let acts = action_cards(color);
    if numbers {
        lemma_count_all(nums, kind);
    } else {
        lemma_count_none(nums, kind);
    }
    if actions {
        lemma_count_all(acts, kind);
    } else {
        lemma_count_none(acts, kind);
    }
    lemma_count_concat(nums, acts, kind);
    lemma_count_concat(nums + acts, acts, kind);
}

/// Among the eight wild cards, `kind` counts four for each of the two wild
/// ranks that it holds of.
proof fn lemma_count_wild_cards(kind: spec_fn(Card) -> bool) -> (n: nat)
    ensures
        n == count_of(wild_cards() + wild_cards() + wild_cards() + wild_cards(), kind),
        n == (if kind(Card { color: Color::Wild, rank: Rank::WildChangeColor }) { 4nat } else { 0nat })
            + (if kind(Card { color: Color::Wild, rank: Rank::WildDrawFour }) { 4nat } else { 0nat }),
{
    let w = wild_cards();
    assert(w.drop_last().drop_last().len() == 0);
    assert(count_of(w.drop_last(), kind) == if kind(w[0]) { 1nat } else { 0nat }) by {
        assert(w.drop_last().last() == w[0]);
        assert(count_of(w.drop_last().drop_last(), kind) == 0);
    }
    assert(w.last() == w[1]);
    lemma_count_concat(w, w, kind);
    lemma_count_concat(w + w, w, kind);
    lemma_count_concat(w + w + w, w, kind);
    count_of(w + w + w + w, kind)
}

/// How many cards of the fresh deck satisfy `kind`, given what `kind` says of
/// the number cards and of the action cards of each colour.
proof fn lemma_count_initial_deck(kind: spec_fn(Card) -> bool, numbers: spec_fn(Color) -> bool, actions: spec_fn(Color) -> bool) -> (n: nat)
    requires
        forall|c: Card| #![trigger kind(c)] c.rank is Number ==> kind(c) == numbers(c.color),
        forall|c: Card| #![trigger kind(c)] c.rank.is_action() ==> kind(c) == actions(c.color),
    ensures
        n == count_of(initial_deck(), kind),
        n == color_share(numbers, actions, Color::Red) + color_share(numbers, actions, Color::Yellow)
            + color_share(numbers, actions, Color::Blue) + color_share(numbers, actions, Color::Green)
            + (if kind(Card { color: Color::Wild, rank: Rank::WildChangeColor }) { 4nat } else { 0nat })
            + (if kind(Card { color: Color::Wild, rank: Rank::WildDrawFour }) { 4nat } else { 0nat }),
{
    let r = color_cards(Color::Red);
    let y = color_cards(Color::Yellow);
    let b = color_cards(Color::Blue);
    let g = color_cards(Color::Green);
    let w = wild_cards();
    lemma_count_color_cards(Color::Red, kind, numbers(Color::Red), actions(Color::Red));
    lemma_count_color_cards(Color::Yellow, kind, numbers(Color::Yellow), actions(Color::Yellow));
    lemma_count_color_cards(Color::Blue, kind, numbers(Color::Blue), actions(Color::Blue));
    lemma_count_color_cards(Color::Green, kind, numbers(Color::Green), actions(Color::Green));
    let wilds = lemma_count_wild_cards(kind);
    lemma_count_concat(r, y, kind);
    lemma_count_concat(r + y, b, kind);
    lemma_count_concat(r + y + b, g, kind);
    assert(initial_deck() =~= (r + y + b + g) + (w + w + w + w));
    lemma_count_concat(r + y + b + g, w + w + w + w, kind);
    count_of(initial_deck(), kind)
}

/// What one colour adds to a count over the fresh deck.
spec fn color_share(numbers: spec_fn(Color) -> bool, actions: spec_fn(Color) -> bool, color: Color) -> nat {
    (if numbers(color) { 10nat } else { 0nat }) + (if actions(color) { 6nat } else { 0nat })
}

/// Composition of the fresh deck: 72 cards, of which 40 are number cards, 24
/// are coloured action cards and 8 are wild; every card is well formed.
pub proof fn lemma_initial_deck_composition()
    ensures
        initial_deck().len() == DECK_SIZE,
        count_of(initial_deck(), |c: Card| c.rank is Number) == 40,
        count_of(initial_deck(), |c: Card| c.rank.is_action()) == 24,
        count_of(initial_deck(), |c: Card| c.rank.is_wild()) == 8,
        count_of(initial_deck(), |c: Card| c.rank == Rank::WildChangeColor) == 4,
        count_of(initial_deck(), |c: Card| c.rank == Rank::WildDrawFour) == 4,
        forall|i: int| 0 <= i < initial_deck().len() ==> (#[trigger] initial_deck()[i]).wf(),
{
    lemma_count_initial_deck(|c: Card| c.rank is Number, |k: Color| true, |k: Color| false);
    lemma_count_initial_deck(|c: Card| c.rank.is_action(), |k: Color| false, |k: Color| true);
    lemma_count_initial_deck(|c: Card| c.rank.is_wild(), |k: Color| false, |k: Color| false);
    lemma_count_initial_deck(|c: Card| c.rank == Rank::WildChangeColor, |k: Color| false, |k: Color| false);
    lemma_count_initial_deck(|c: Card| c.rank == Rank::WildDrawFour, |k: Color| false, |k: Color| false);
}

/// Each of the four colours has ten number cards and six action cards in the
/// fresh deck.
pub proof fn lemma_initial_deck_per_color(color: Color)
    requires
        color.is_concrete(),
    ensures
        count_of(initial_deck(), |c: Card| c.color == color && c.rank is Number) == 10,
        count_of(initial_deck(), |c: Card| c.color == color && c.rank.is_action()) == 6,
        count_of(initial_deck(), |c: Card| c.color == color) == 16,
{
    lemma_count_initial_deck(|c: Card| c.color == color && c.rank is Number, |k: Color| k == color, |k: Color| false);
    lemma_count_initial_deck(|c: Card| c.color == color && c.rank.is_action(), |k: Color| false, |k: Color| k == color);
    lemma_count_initial_deck(|c: Card| c.color == color, |k: Color| k == color, |k: Color| k == color);
}

/// A shuffle moves cards and neither adds nor loses any: the shuffled deck
/// holds the same cards, each as often as before.
pub proof fn lemma_shuffle_permutes(deck: Seq<Card>, picks: Seq<u64>)
    ensures
        shuffled(deck, picks).len() == deck.len(),
        shuffled(deck, picks).to_multiset() == deck.to_multiset(),
        forall|c: Card| shuffled(deck, picks).contains(c) <==> deck.contains(c),
{
    let steps = if picks.len() <= deck.len() {
        picks.len()
    } else {
        deck.len()
    };
    lemma_shuffle_steps_permute(deck, picks, steps);
    assert forall|c: Card| shuffled(deck, picks).contains(c) <==> deck.contains(c) by {
        to_multiset_contains(shuffled(deck, picks), c);
        to_multiset_contains(deck, c);
    }
}

/// Each exchange of a shuffle keeps the cards of the deck.
proof fn lemma_shuffle_steps_permute(deck: Seq<Card>, picks: Seq<u64>, steps: nat)
    requires
        steps <= deck.len(),
        steps <= picks.len(),
    ensures
        shuffle_steps(deck, picks, steps).len() == deck.len(),
        shuffle_steps(deck, picks, steps).to_multiset() == deck.to_multiset(),
    decreases steps,
{
    if steps > 0 {
        let i = steps - 1;
        let before = shuffle_steps(deck, picks, i as nat);
        lemma_shuffle_steps_permute(deck, picks, i as nat);
        let j = picked(deck.len(), i, picks[i]);
        lemma_picked_in_range(deck.len(), i, picks[i]);
        let half = before.update(i, before[j]);
        to_multiset_update(before, i, before[j]);
        to_multiset_update(half, j, before[i]);
        before.to_multiset_ensures();
        assert(exchanged(before, i, j).to_multiset() =~= before.to_multiset());
    }
}

/// The position picked for `i` lies between `i` and the top of the deck.
pub proof fn lemma_picked_in_range(len: nat, i: int, pick: u64)
    requires
        0 <= i < len,
    ensures
        i <= picked(len, i, pick) < len,
{
    lemma_mod_bound(pick as int, len - i);
}

/// Puts the sixteen cards of one colour on top of `deck`.
fn push_color_cards(deck: &mut Vec<Card>, color: Color)
    ensures
        final(deck)@ == old(deck)@ + color_cards(color),
{
    let mut number: u8 = 1;
    while number <= 10
        invariant
            1 <= number <= 11,
            deck@ == old(deck)@ + number_cards(color).take(number - 1),
        decreases 11 - number,
    {
        deck.push(Card { color, rank: Rank::Number(number) });
        assert(number_cards(color).take(number as int) =~= number_cards(color).take(number - 1).push(
            Card { color, rank: Rank::Number(number) },
        ));
        number = number + 1;
    }
    assert(number_cards(color).take(10) =~= number_cards(color));
    let mut round: u8 = 0;
    while round < 2
        invariant
            round <= 2,
            deck@ == old(deck)@ + number_cards(color) + if round == 0 {
                Seq::<Card>::empty()
            } else if round == 1 {
                action_cards(color)
            } else {
                action_cards(color) + action_cards(color)
            },
        decreases 2 - round,
    {
        deck.push(Card { color, rank: Rank::Skip });
        deck.push(Card { color, rank: Rank::DrawTwo });
        deck.push(Card { color, rank: Rank::Reverse });
        round = round + 1;
    }
}

/// Builds the fresh deck. Nothing is shuffled: the result is the same on
/// every call.
pub fn create_initial_deck() -> (deck: Vec<Card>)
    ensures
        deck@ == initial_deck(),
        deck@.len() == DECK_SIZE,
        count_of(deck@, |c: Card| c.rank is Number) == 40,
        count_of(deck@, |c: Card| c.rank.is_action()) == 24,
        count_of(deck@, |c: Card| c.rank.is_wild()) == 8,
{
    let mut deck: Vec<Card> = Vec::new();
    push_color_cards(&mut deck, Color::Red);
    push_color_cards(&mut deck, Color::Yellow);
    push_color_cards(&mut deck, Color::Blue);
    push_color_cards(&mut deck, Color::Green);
    let ghost colored = deck@;
    let mut round: u8 = 0;
    while round < 4
        invariant
            round <= 4,
            deck@ == colored + if round == 0 {
                Seq::<Card>::empty()
            } else if round == 1 {
                wild_cards()
            } else if round == 2 {
                wild_cards() + wild_cards()
            } else if round == 3 {
                wild_cards() + wild_cards() + wild_cards()
            } else {
                wild_cards() + wild_cards() + wild_cards() + wild_cards()
            },
        decreases 4 - round,
    {
        deck.push(Card { color: Color::Wild, rank: Rank::WildChangeColor });
        deck.push(Card { color: Color::Wild, rank: Rank::WildDrawFour });
        round = round + 1;
    }
    proof {
        assert(deck@ =~= initial_deck());
        lemma_initial_deck_composition();
    }
    deck
}

/// Shuffles the deck by `picks`, the draws of whatever source of randomness
/// the host has. For each position in turn, from the bottom of the deck, the
/// card there changes places with one of the cards from that position on:
/// the one that the pick for the position selects. Meant for the deck of a
/// table that has not dealt yet.
pub fn shuffle(deck: &mut Vec<Card>, picks: &Vec<u64>)
    ensures
        final(deck)@ == shuffled(old(deck)@, picks@),
        final(deck)@.len() == old(deck)@.len(),
        final(deck)@.to_multiset() == old(deck)@.to_multiset(),
{
    let len = deck.len();
    let steps = if picks.len() <= len {
        picks.len()
    } else {
        len
    };
    let mut i: usize = 0;
    while i < steps
        invariant
            i <= steps,
            steps <= len,
            steps <= picks.len(),
            deck.len() == len,
            old(deck).len() == len,
            deck@ == shuffle_steps(old(deck)@, picks@, i as nat),
        decreases steps - i,
    {
        let rest = len - i;
        proof {
            lemma_picked_in_range(len as nat, i as int, picks[i as int]);
        }
        let j = i + (picks[i] % (rest as u64)) as usize;
        let lower = deck[i];
        let upper = deck[j];
        deck[i] = upper;
        deck[j] = lower;
        i = i + 1;
    }
    proof {
        lemma_shuffle_permutes(old(deck)@, picks@);
    }
}

/// Takes the top card off the deck. An empty deck is an ordinary outcome,
/// reported as `DeckEmpty`.
pub fn pop_draw(deck: &mut Vec<Card>) -> (drawn: Result<Card, ContractError>)
    ensures
        match drawn {
            Ok(card) => {
                &&& old(deck)@.len() > 0
                &&& card == old(deck)@.last()
                &&& final(deck)@ == old(deck)@.drop_last()
            },
            Err(e) => {
                &&& e == ContractError::DeckEmpty
                &&& old(deck)@.len() == 0
                &&& *final(deck) == *old(deck)
            },
        },
{
    if deck.len() == 0 {
        return Err(ContractError::DeckEmpty);
    }
    let card = deck.remove(deck.len() - 1);
    proof {
        assert(deck@ =~= old(deck)@.drop_last());
    }
    Ok(card)
}

/// Draws up to `want` cards from the deck into `hand`, one at a time, and
/// stops early when the deck runs out. Returns how many cards were drawn.
pub fn draw_cards(deck: &mut Vec<Card>, hand: &mut Vec<Card>, want: usize) -> (drawn: usize)
    ensures
        drawn == drawable(old(deck)@, want as nat),
        final(deck)@ == without_top(old(deck)@, drawn as nat),
        final(hand)@ == old(hand)@ + top_cards(old(deck)@, drawn as nat),
{
    let mut drawn: usize = 0;
    while drawn < want
        invariant
            drawn <= want,
            drawn <= old(deck)@.len(),
            deck@ == without_top(old(deck)@, drawn as nat),
            hand@ == old(hand)@ + top_cards(old(deck)@, drawn as nat),
        ensures
            drawn == drawable(old(deck)@, want as nat),
            deck@ == without_top(old(deck)@, drawn as nat),
            hand@ == old(hand)@ + top_cards(old(deck)@, drawn as nat),
        decreases want - drawn,
    {
        match pop_draw(deck) {
            Ok(card) => {
                hand.push(card);
                drawn = drawn + 1;
            },
            Err(_) => {
                break ;
            },
        }
    }
    drawn
}

} // verus!
