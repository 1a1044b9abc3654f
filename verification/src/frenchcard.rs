//! French playing cards: a rank and a suit with simple comparison helpers.
//! They give the deck interface in the crate root a second, ordinary
//! instance beside the symbol-matching cards.

use vstd::prelude::*;

verus! {

/// The suits of the French card game.
#[derive(Debug, PartialEq, Eq, Structural, Clone, Copy, Hash)]
pub enum FrenchSuit {
    /// A club (not a clover).
    Club,
    /// A diamond.
    Diamond,
    /// A heart.
    Heart,
    /// A spade.
    Spade,
}

/// The ranks of the French card game, from Two up to the Ace.
#[derive(Debug, PartialEq, Eq, Structural, Clone, Copy, Hash)]
pub enum FrenchRank {
    Two,
    Three,
    Four,
    Five,
    Six,
    Seven,
    Eight,
    Nine,
    Ten,
    Jack,
    Queen,
    King,
    Ace,
}

/// The traditional numeric value of a rank: 2 to 10 for the number cards,
/// 11 to 13 for Jack, Queen and King, and 14 for the Ace.
pub open spec fn rank_value(r: FrenchRank) -> int {
    match r {
        FrenchRank::Two => 2,
        FrenchRank::Three => 3,
        FrenchRank::Four => 4,
        FrenchRank::Five => 5,
        FrenchRank::Six => 6,
        FrenchRank::Seven => 7,
        FrenchRank::Eight => 8,
        FrenchRank::Nine => 9,
        FrenchRank::Ten => 10,
        FrenchRank::Jack => 11,
        FrenchRank::Queen => 12,
        FrenchRank::King => 13,
        FrenchRank::Ace => 14,
    }
}

/// The suit at position `i` of the fixed suit enumeration.
pub open spec fn suit_at(i: int) -> FrenchSuit {
    if i == 0 {
        FrenchSuit::Club
    } else if i == 1 {
        FrenchSuit::Diamond
    } else if i == 2 {
        FrenchSuit::Heart
    } else {
        FrenchSuit::Spade
    }
}

/// The rank at position `i` of the fixed rank enumeration.
pub open spec fn rank_at(i: int) -> FrenchRank {
    if i <= 0 {
        FrenchRank::Two
    } else if i >= 12 {
        FrenchRank::Ace
    } else {
        rank_of_value(i + 2)
    }
}

/// The rank whose numeric value is `v`, for `v` between 2 and 14.
pub open spec fn rank_of_value(v: int) -> FrenchRank {
    if v <= 2 {
        FrenchRank::Two
    } else if v == 3 {
        FrenchRank::Three
    } else if v == 4 {
        FrenchRank::Four
    } else if v == 5 {
        FrenchRank::Five
    } else if v == 6 {
        FrenchRank::Six
    } else if v == 7 {
        FrenchRank::Seven
    } else if v == 8 {
        FrenchRank::Eight
    } else if v == 9 {
        FrenchRank::Nine
    } else if v == 10 {
        FrenchRank::Ten
    } else if v == 11 {
        FrenchRank::Jack
    } else if v == 12 {
        FrenchRank::Queen
    } else if v == 13 {
        FrenchRank::King
    } else {
        FrenchRank::Ace
    }
}

impl FrenchRank {
    /// The traditional numeric value of the rank.
    pub fn value(&self) -> (v: u8)
        ensures
            v == rank_value(*self),
    {
        match self {
            FrenchRank::Two => 2,
            FrenchRank::Three => 3,
            FrenchRank::Four => 4,
            FrenchRank::Five => 5,
            FrenchRank::Six => 6,
            FrenchRank::Seven => 7,
            FrenchRank::Eight => 8,
            FrenchRank::Nine => 9,
            FrenchRank::Ten => 10,
            FrenchRank::Jack => 11,
            FrenchRank::Queen => 12,
            FrenchRank::King => 13,
            FrenchRank::Ace => 14,
        }
    }
}

/// All four suits, in their fixed enumeration order.
pub fn all_suits() -> (v: Vec<FrenchSuit>)
    ensures
        v@.len() == 4,
        forall|i: int| 0 <= i < 4 ==> v@[i] == suit_at(i),
{
    let mut v: Vec<FrenchSuit> = Vec::new();
    v.push(FrenchSuit::Club);
    v.push(FrenchSuit::Diamond);
    v.push(FrenchSuit::Heart);
    v.push(FrenchSuit::Spade);
    v
}

/// All thirteen ranks, in their fixed enumeration order.
pub fn all_ranks() -> (v: Vec<FrenchRank>)
    ensures
        v@.len() == 13,
        forall|i: int| 0 <= i < 13 ==> v@[i] == rank_at(i),
{
    let mut v: Vec<FrenchRank> = Vec::new();
    v.push(FrenchRank::Two);
    v.push(FrenchRank::Three);
    v.push(FrenchRank::Four);
    v.push(FrenchRank::Five);
    v.push(FrenchRank::Six);
    v.push(FrenchRank::Seven);
    v.push(FrenchRank::Eight);
    v.push(FrenchRank::Nine);
    v.push(FrenchRank::Ten);
    v.push(FrenchRank::Jack);
    v.push(FrenchRank::Queen);
    v.push(FrenchRank::King);
    v.push(FrenchRank::Ace);
    v
}

/// A French playing card: a rank and a suit.
#[derive(Debug, PartialEq, Eq, Structural, Hash)]
pub struct FrenchCard(pub FrenchRank, pub FrenchSuit);

impl Clone for FrenchCard {
    /// The clone carries the same rank and suit.
    fn clone(&self) -> (c: Self)
        ensures
            c == *self,
    {
        FrenchCard(self.0, self.1)
    }
}

impl FrenchCard {
    /// The rank of the card.
    pub fn rank(&self) -> (r: FrenchRank)
        ensures
            r == self.0,
    {
        self.0
    }

    /// The suit of the card.
    pub fn suit(&self) -> (s: FrenchSuit)
        ensures
            s == self.1,
    {
        self.1
    }

    /// Whether this card has the same suit as the other.
    pub fn match_suit(&self, card: &Self) -> (r: bool)
        ensures
            r == (self.1 == card.1),
    {
        self.1 == card.1
    }

    /// Whether this card has the same rank as the other.
    pub fn match_rank(&self, card: &Self) -> (r: bool)
        ensures
            r == (self.0 == card.0),
    {
        self.0 == card.0
    }
}

} // verus!
