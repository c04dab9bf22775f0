//! The game state and its mathematical model.
//!
//! `State` is the value that is stored between requests. Its view,
//! `StateView`, is what the contracts of this crate speak of: the same record
//! with sequences in place of vectors. `StateView::wf` collects what holds of
//! every state that the rules can produce.

use crate::card::{Card, Color, Rank, MAX_NUMBER};
use crate::deck::{create_initial_deck, initial_deck, lemma_initial_deck_composition};
use vstd::prelude::*;

verus! {

/// Number of cards each player is dealt when the game starts.
pub const INITIAL_HAND_SIZE: usize = 7;

/// Number of players at which a game starts unless the table says otherwise.
pub const DEFAULT_REQUIRED_PLAYERS: usize = 2;

/// Number of seats at a table unless the table says otherwise.
pub const DEFAULT_REQUIRED_PLAYERS_MAX: usize = 4;

/// Where a game stands.
#[derive(Clone, Copy, Debug, PartialEq, Eq, Structural)]
pub enum Phase {
    /// Fewer players than the game needs are seated; nothing is dealt.
    WaitingForPlayers,
    /// Cards are dealt and players take turns.
    Active,
    /// The game is over: somebody won, or too few players were left.
    Finished,
}

/// A seated player.
#[derive(Clone, Debug, PartialEq, Eq)]
pub struct Player {
    /// The player's identity, unique at the table.
    pub address: String,
    /// The cards the player holds.
    pub hand: Vec<Card>,
}

/// The model of a `Player`.
pub struct PlayerView {
    pub address: Seq<char>,
    pub hand: Seq<Card>,
}

impl View for Player {
    type V = PlayerView;

    open spec fn view(&self) -> PlayerView {
        PlayerView { address: self.address@, hand: self.hand@ }
    }
}

/// One game.
#[derive(Clone, Debug, PartialEq, Eq)]
pub struct State {
    /// The draw stack; its top is the last element.
    pub deck: Vec<Card>,
    /// The cards played so far; the last one is on top.
    pub discard_pile: Vec<Card>,
    /// The seated players in turn order.
    pub players: Vec<Player>,
    /// Index into `players` of the player whose turn it is.
    pub current_turn: usize,
    /// `1` while turns pass to the next seat, `-1` while they pass to the
    /// previous one.
    pub direction: i8,
    pub phase: Phase,
    /// The player who emptied their hand, once somebody has.
    pub winner: Option<String>,
    /// Number of players at which the game starts.
    pub required_players: usize,
    /// Number of seats at the table.
    pub required_players_max: usize,
}

/// The model of a `State`.
pub struct StateView {
    pub deck: Seq<Card>,
    pub discard_pile: Seq<Card>,
    pub players: Seq<PlayerView>,
    pub current_turn: nat,
    pub direction: int,
    pub phase: Phase,
    pub winner: Option<Seq<char>>,
    pub required_players: nat,
    pub required_players_max: nat,
}

impl View for State {
    type V = StateView;

    open spec fn view(&self) -> StateView {
        StateView {
            deck: self.deck@,
            discard_pile: self.discard_pile@,
            players: view_players(self.players@),
            current_turn: self.current_turn as nat,
            direction: self.direction as int,
            phase: self.phase,
            winner: match self.winner {
                Some(w) => Some(w@),
                None => None,
            },
            required_players: self.required_players as nat,
            required_players_max: self.required_players_max as nat,
        }
    }
}

/// The models of `players`, in seat order.
pub open spec fn view_players(players: Seq<Player>) -> Seq<PlayerView> {
    players.map_values(|p: Player| p@)
}

/// A card as it may lie on the discard pile: like a card in the deck, but a
/// wild card may have taken the colour its player named.
pub open spec fn wf_played(card: Card) -> bool {
    &&& card.rank matches Rank::Number(n) ==> n <= MAX_NUMBER
    &&& card.color == Color::Wild ==> card.rank.is_wild()
}

/// The identities of `players`, in seat order.
pub open spec fn addresses(players: Seq<PlayerView>) -> Seq<Seq<char>> {
    players.map_values(|p: PlayerView| p.address)
}

/// The seat of `who`, if seated.
pub open spec fn seat_of(players: Seq<PlayerView>, who: Seq<char>) -> Option<int> {
    addresses(players).index_of_first(who)
}

/// Total number of cards held by `players`.
pub open spec fn cards_in_hands(players: Seq<PlayerView>) -> nat
    decreases players.len(),
{
    if players.len() == 0 {
        0
    } else {
        cards_in_hands(players.drop_last()) + players.last().hand.len()
    }
}

impl StateView {
    /// The table right after it was opened by `founder`: a fresh deck, the
    /// founder alone in seat 0, nothing dealt.
    pub open spec fn initial(founder: Seq<char>, required_players: nat, required_players_max: nat) -> StateView {
        StateView {
            deck: initial_deck(),
            discard_pile: Seq::empty(),
            players: seq![PlayerView { address: founder, hand: Seq::empty() }],
            current_turn: 0,
            direction: 1,
            phase: Phase::WaitingForPlayers,
            winner: None,
            required_players,
            required_players_max,
        }
    }

    /// The state with `deck` in place of its deck.
    pub open spec fn with_deck(self, deck: Seq<Card>) -> StateView {
        StateView { deck, ..self }
    }

    /// Whether `who` is seated.
    pub open spec fn seated(self, who: Seq<char>) -> bool {
        seat_of(self.players, who) is Some
    }

    /// Number of cards in the deck, on the discard pile and in all hands
    /// together.
    pub open spec fn total_cards(self) -> nat {
        self.deck.len() + self.discard_pile.len() + cards_in_hands(self.players)
    }

    /// What holds of every state the rules produce.
    pub open spec fn wf(self) -> bool {
        &&& 2 <= self.required_players <= self.required_players_max
        &&& self.players.len() <= self.required_players_max
        &&& (self.direction == 1 || self.direction == -1)
        &&& (if self.players.len() > 0 {
            self.current_turn < self.players.len()
        } else {
            self.current_turn == 0
        })
        &&& addresses(self.players).no_duplicates()
        &&& (self.phase is WaitingForPlayers ==> {
            &&& self.players.len() < self.required_players
            &&& forall|i: int| 0 <= i < self.players.len() ==> (#[trigger] self.players[i]).hand.len() == 0
        })
        &&& (self.phase is Active ==> self.players.len() >= self.required_players)
        &&& (self.winner is Some ==> self.phase is Finished)
        &&& forall|i: int| 0 <= i < self.deck.len() ==> (#[trigger] self.deck[i]).wf()
        &&& forall|i: int| 0 <= i < self.discard_pile.len() ==> wf_played(#[trigger] self.discard_pile[i])
        &&& forall|i: int, j: int|
            0 <= i < self.players.len() && 0 <= j < self.players[i].hand.len() ==> (#[trigger] self.players[i].hand[j]).wf()
    }
}

/// Checks that every card of `cards` is one a deck can contain.
fn all_wf(cards: &Vec<Card>) -> (b: bool)
    ensures
        b == forall|i: int| 0 <= i < cards@.len() ==> (#[trigger] cards@[i]).wf(),
{
    let mut i: usize = 0;
    while i < cards.len()
        invariant
            i <= cards.len(),
            forall|k: int| 0 <= k < i ==> (#[trigger] cards@[k]).wf(),
        decreases cards.len() - i,
    {
        if !cards[i].is_wf() {
            return false;
        }
        i = i + 1;
    }
    true
}

/// Checks that every card of `cards` may lie on a discard pile.
fn all_wf_played(cards: &Vec<Card>) -> (b: bool)
    ensures
        b == forall|i: int| 0 <= i < cards@.len() ==> wf_played(#[trigger] cards@[i]),
{
    let mut i: usize = 0;
    while i < cards.len()
        invariant
            i <= cards.len(),
            forall|k: int| 0 <= k < i ==> wf_played(#[trigger] cards@[k]),
        decreases cards.len() - i,
    {
        let card = cards[i];
        let in_range = match card.rank {
            Rank::Number(n) => n <= MAX_NUMBER,
            _ => true,
        };
        if !in_range || (!card.color.concrete() && !card.rank.wild()) {
            return false;
        }
        i = i + 1;
    }
    true
}

/// Looks for `who` among the first `upto` players.
fn seated_before(players: &Vec<Player>, upto: usize, who: &String) -> (found: bool)
    requires
        upto <= players.len(),
    ensures
        found == exists|k: int| 0 <= k < upto && (#[trigger] players@[k]).address@ == who@,
{
    let mut k: usize = 0;
    while k < upto
        invariant
            k <= upto <= players.len(),
            forall|j: int| 0 <= j < k ==> (#[trigger] players@[j]).address@ != who@,
        decreases upto - k,
    {
        if players[k].address == *who {
            return true;
        }
        k = k + 1;
    }
    false
}

impl State {
    /// Opens a table for `founder` with a fresh deck. The game will start
    /// once `required_players` are seated, and the table has
    /// `required_players_max` seats. Bounds that make no game are refused: a
    /// game needs two players at least, and seats for all it needs.
    pub fn new(founder: String, required_players: usize, required_players_max: usize) -> (state: Option<State>)
        ensures
            match state {
                Some(s) => {
                    &&& 2 <= required_players <= required_players_max
                    &&& s@ == StateView::initial(founder@, required_players as nat, required_players_max as nat)
                    &&& s@.wf()
                    &&& s@.total_cards() == 72
                },
                None => !(2 <= required_players <= required_players_max),
            },
    {
        if required_players < 2 || required_players > required_players_max {
            return None;
        }
        let ghost who = founder@;
        let mut players: Vec<Player> = Vec::new();
        players.push(Player { address: founder, hand: Vec::new() });
        let state = State {
            deck: create_initial_deck(),
            discard_pile: Vec::new(),
            players,
            current_turn: 0,
            direction: 1,
            phase: Phase::WaitingForPlayers,
            winner: None,
            required_players,
            required_players_max,
        };
        proof {
            let expected = StateView::initial(who, required_players as nat, required_players_max as nat);
            assert(state@.players =~= expected.players);
            assert(state@.discard_pile =~= expected.discard_pile);
            lemma_initial_deck_composition();
            lemma_initial_is_wf(who, required_players as nat, required_players_max as nat);
        }
        Some(state)
    }

    /// Checks the state against `StateView::wf`. A host that loads a state
    /// from storage calls this before it hands the state to the rules.
    pub fn is_wf(&self) -> (b: bool)
        ensures
            b == self@.wf(),
    {
        if self.required_players < 2 || self.required_players > self.required_players_max {
            return false;
        }
        if self.players.len() > self.required_players_max {
            return false;
        }
        if self.direction != 1 && self.direction != -1 {
            return false;
        }
        if self.current_turn > 0 && self.current_turn >= self.players.len() {
            return false;
        }
        match self.phase {
            Phase::WaitingForPlayers => {
                if self.players.len() >= self.required_players {
                    return false;
                }
            },
            Phase::Active => {
                if self.players.len() < self.required_players {
                    return false;
                }
            },
            Phase::Finished => {},
        }
        if self.winner.is_some() && self.phase != Phase::Finished {
            return false;
        }
        if !all_wf(&self.deck) {
            proof {
                let k = choose|k: int| 0 <= k < self.deck@.len() && !(#[trigger] self.deck@[k]).wf();
                assert(!self@.deck[k].wf());
            }
            return false;
        }
        if !all_wf_played(&self.discard_pile) {
            proof {
                let k = choose|k: int|
                    0 <= k < self.discard_pile@.len() && !wf_played(#[trigger] self.discard_pile@[k]);
                assert(!wf_played(self@.discard_pile[k]));
            }
            return false;
        }
        let waiting = self.phase == Phase::WaitingForPlayers;
        let ghost names = addresses(self@.players);
        let mut i: usize = 0;
        while i < self.players.len()
            invariant
                i <= self.players.len(),
                names == addresses(self@.players),
                waiting == (self.phase is WaitingForPlayers),
                forall|a: int, b: int| 0 <= a < b < i ==> names[a] != names[b],
                waiting ==> forall|k: int| 0 <= k < i ==> (#[trigger] self@.players[k]).hand.len() == 0,
                forall|k: int, j: int|
                    0 <= k < i && 0 <= j < self@.players[k].hand.len() ==> (#[trigger] self@.players[k].hand[j]).wf(),
            decreases self.players.len() - i,
        {
            let player = &self.players[i];
            assert(self@.players[i as int] == player@);
            if waiting && player.hand.len() > 0 {
                return false;
            }
            if !all_wf(&player.hand) {
                proof {
                    let j = choose|j: int| 0 <= j < player.hand@.len() && !(#[trigger] player.hand@[j]).wf();
                    assert(!self@.players[i as int].hand[j].wf());
                }
                return false;
            }
            if seated_before(&self.players, i, &player.address) {
                proof {
                    let k = choose|k: int| 0 <= k < i && (#[trigger] self.players@[k]).address@ == player.address@;
                    assert(names[k] == names[i as int]);
                }
                return false;
            }
            assert forall|a: int, b: int| 0 <= a < b < i + 1 implies names[a] != names[b] by {
                if b == i {
                    assert(self.players@[a].address@ == names[a]);
                }
            }
            i = i + 1;
        }
        true
    }
}

/// A freshly opened table is well formed and holds the whole deck.
pub proof fn lemma_initial_is_wf(founder: Seq<char>, required_players: nat, required_players_max: nat)
    requires
        2 <= required_players <= required_players_max,
    ensures
        StateView::initial(founder, required_players, required_players_max).wf(),
        StateView::initial(founder, required_players, required_players_max).total_cards() == 72,
{
    let s = StateView::initial(founder, required_players, required_players_max);
    lemma_initial_deck_composition();
    assert(cards_in_hands(s.players.drop_last()) == 0);
}

} // verus!
