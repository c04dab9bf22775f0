//! The card vocabulary: colours, ranks and the card value itself.

use vstd::prelude::*;

verus! {

/// The largest face value printed on a number card.
pub const MAX_NUMBER: u8 = 10;

/// A card colour. `Wild` is the absence of a colour: it is what a wild card
/// carries while it sits in the deck or in a hand.
#[derive(Clone, Copy, Debug, PartialEq, Eq, Structural)]
pub enum Color {
    Red,
    Yellow,
    Blue,
    Green,
    Wild,
}

/// What a card does when it is played.
#[derive(Clone, Copy, Debug, PartialEq, Eq, Structural)]
pub enum Rank {
    /// A plain number card with its face value.
    Number(u8),
    /// The next player loses their turn.
    Skip,
    /// The direction of play flips.
    Reverse,
    /// The next player draws two cards and loses their turn.
    DrawTwo,
    /// The player names the colour to follow.
    WildChangeColor,
    /// The player names the colour to follow; the next player draws four
    /// cards and loses their turn.
    WildDrawFour,
}

/// A single card.
#[derive(Clone, Copy, Debug, PartialEq, Eq, Structural)]
pub struct Card {
    pub color: Color,
    pub rank: Rank,
}

impl Color {
    /// True for the four colours a card can be matched on.
    pub open spec fn is_concrete(self) -> bool {
        self != Color::Wild
    }

    /// Tells whether this is one of the four colours a card can be matched on.
    pub fn concrete(self) -> (b: bool)
        ensures
            b == self.is_concrete(),
    {
        match self {
            Color::Wild => false,
            _ => true,
        }
    }
}

impl Rank {
    /// True for the two ranks that have no colour of their own.
    pub open spec fn is_wild(self) -> bool {
        self == Rank::WildChangeColor || self == Rank::WildDrawFour
    }

    /// True for the three coloured ranks that carry an effect.
    pub open spec fn is_action(self) -> bool {
        self == Rank::Skip || self == Rank::Reverse || self == Rank::DrawTwo
    }

    /// How many cards the next player is made to draw when a card of this
    /// rank is played.
    pub open spec fn penalty(self) -> nat {
        match self {
            Rank::DrawTwo => 2,
            Rank::WildDrawFour => 4,
            _ => 0,
        }
    }

    /// Tells whether the rank is one of the two wild ranks.
    pub fn wild(self) -> (b: bool)
        ensures
            b == self.is_wild(),
    {
        match self {
            Rank::WildChangeColor | Rank::WildDrawFour => true,
            _ => false,
        }
    }

    /// The number of cards the next player must draw after this rank.
    pub fn forced_draws(self) -> (n: usize)
        ensures
            n == self.penalty(),
    {
        match self {
            Rank::DrawTwo => 2,
            Rank::WildDrawFour => 4,
            _ => 0,
        }
    }
}

impl Card {
    /// A card as it exists before it is played: a number stays within the
    /// printed range, a coloured rank has one of the four colours, and a wild
    /// rank has none.
    pub open spec fn wf(self) -> bool {
        &&& self.rank matches Rank::Number(n) ==> n <= MAX_NUMBER
        &&& self.rank.is_wild() <==> self.color == Color::Wild
    }

    /// True for a card of one of the two wild ranks.
    pub open spec fn is_wild(self) -> bool {
        self.rank.is_wild()
    }

    /// The card as it lies on the discard pile: a wild card takes the colour
    /// its player named, every other card stays as it is.
    pub open spec fn resolved(self, declared: Option<Color>) -> Card {
        if self.rank.is_wild() && declared is Some {
            Card { color: declared->0, rank: self.rank }
        } else {
            self
        }
    }

    /// Builds a card, refusing combinations that no deck contains.
    pub fn new(color: Color, rank: Rank) -> (card: Option<Card>)
        ensures
            card == if (Card { color, rank }).wf() {
                Some(Card { color, rank })
            } else {
                None::<Card>
            },
    {
        let in_range = match rank {
            Rank::Number(n) => n <= MAX_NUMBER,
            _ => true,
        };
        if in_range && rank.wild() == !color.concrete() {
            Some(Card { color, rank })
        } else {
            None
        }
    }

    /// Checks that the card is one a deck can contain.
    pub fn is_wf(&self) -> (b: bool)
        ensures
            b == self.wf(),
    {
        let in_range = match self.rank {
            Rank::Number(n) => n <= MAX_NUMBER,
            _ => true,
        };
        in_range && self.rank.wild() == !self.color.concrete()
    }
}

} // verus!
