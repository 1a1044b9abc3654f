//! A card-matching game built on finite projective planes.
//!
//! The heart of the crate is `SpotItDeck::generate_by_prime`, which lays the
//! cards of a matching game out as the lines of a projective plane of prime
//! order `n`: `n*n + n + 1` cards, each holding `n + 1` symbols, every two
//! cards sharing exactly one symbol.  A plain deck of French playing cards is
//! included as a second, simpler instance of the same deck interface.

use rand::seq::SliceRandom;
use vstd::prelude::*;

pub mod card;
pub mod frenchcard;
pub mod math;
pub mod projective;
pub mod slope;
pub mod spotitcard;

use crate::frenchcard::{all_ranks, all_suits, rank_at, suit_at, FrenchCard};
use crate::math::{check_prime, is_prime, mod_inverse};
use crate::projective::{
    admissible_order, class_multiplier, column_points, deck_card, fits_alphabet, grid_symbol,
    infinity_points, infinity_symbol, lemma_deck_card_size, lemma_deck_cards_share_one,
    lemma_order_bound, line_card, line_points, plane_size,
};
use crate::slope::{lemma_slope_unit, lemma_slope_zero, reduced_slope, Slope};
use crate::spotitcard::{alphabet, SpotItCard, SpotItSymbol, ALPHABET_SIZE};

verus! {

/// The common interface of a deck of cards of type `T`.
///
/// A deck is an ordered pile: cards go on top with `push_card` and come off
/// the top with `pop_card`, or out of the middle with `pop_card_by_index`,
/// and `shuffle` reorders the pile without adding or losing a card.
pub trait Deck<T>: Sized {
    /// The cards of the deck, in order, as a specification sequence.
    spec fn deck_seq(&self) -> Seq<T>;

    /// Creates a new, empty deck.
    fn new() -> (d: Self)
        ensures
            d.deck_seq() == Seq::<T>::empty(),
    ;

    /// Creates the deck the game is usually played with: 52 French cards,
    /// or the 57 cards of the symbol-matching deck of order 7.
    fn default() -> Self;

    /// Shuffles the deck in place: the cards are reordered at random, none
    /// is added or lost.
    fn shuffle(&mut self)
        ensures
            final(self).deck_seq().to_multiset() == old(self).deck_seq().to_multiset(),
            final(self).deck_seq().len() == old(self).deck_seq().len(),
    ;

    /// Removes and returns the top (latest) card, if any.
    fn pop_card(&mut self) -> (c: Option<T>)
        ensures
            old(self).deck_seq().len() == 0 ==> c is None && final(self).deck_seq()
                == old(self).deck_seq(),
            old(self).deck_seq().len() > 0 ==> c == Some(old(self).deck_seq().last())
                && final(self).deck_seq() == old(self).deck_seq().drop_last(),
    ;

    /// Removes and returns the card at `index`, shifting the cards after
    /// it; yields nothing when the index is out of bounds.
    fn pop_card_by_index(&mut self, index: usize) -> (c: Option<T>)
        ensures
            index < old(self).deck_seq().len() ==> c == Some(
                old(self).deck_seq()[index as int],
            ) && final(self).deck_seq() == old(self).deck_seq().remove(index as int),
            index >= old(self).deck_seq().len() ==> c is None && final(self).deck_seq()
                == old(self).deck_seq(),
    ;

    /// Puts a card on top of the deck.
    fn push_card(&mut self, card: T)
        ensures
            final(self).deck_seq() == old(self).deck_seq().push(card),
    ;

    /// The number of cards in the deck.
    fn len(&self) -> (n: usize)
        ensures
            n == self.deck_seq().len(),
    ;

    /// Whether the deck holds no cards.
    fn is_empty(&self) -> (r: bool)
        ensures
            r == (self.deck_seq().len() == 0),
    ;
}

/// Relies on rand's `SliceRandom::shuffle` (a Fisher-Yates shuffle): it
/// reorders the slice in place purely by swapping elements, so exactly the
/// original cards remain, in some order.
#[verifier::external_body]
fn shuffle_cards<T>(cards: &mut Vec<T>)
    ensures
        final(cards)@.to_multiset() == old(cards)@.to_multiset(),
        final(cards)@.len() == old(cards)@.len(),
{
    cards.shuffle(&mut rand::thread_rng());
}

/// The full French deck as a specification sequence: for each suit in
/// enumeration order, the thirteen ranks in ascending order.
pub open spec fn french_full_deck() -> Seq<FrenchCard> {
    Seq::new(52, |i: int| FrenchCard(rank_at(i % 13), suit_at(i / 13)))
}

/// A deck of French playing cards.
#[derive(Debug)]
pub struct FrenchDeck {
    /// The cards of the deck, bottom of the pile first.
    pub cards: Vec<FrenchCard>,
}

/// A deck of symbol-matching cards.
#[derive(Debug)]
pub struct SpotItDeck {
    /// The cards of the deck, bottom of the pile first.
    pub cards: Vec<SpotItCard>,
}

impl Deck<FrenchCard> for FrenchDeck {
    open spec fn deck_seq(&self) -> Seq<FrenchCard> {
        self.cards@
    }

    fn new() -> (d: Self) {
        let cards: Vec<FrenchCard> = Vec::new();
        FrenchDeck { cards }
    }

    /// The default French deck: all 52 rank-and-suit combinations, dealt
    /// suit by suit.
    fn default() -> (d: Self)
        ensures
            d.deck_seq() == french_full_deck(),
    {
        let mut deck = Self::new();
        let suits = all_suits();
        let ranks = all_ranks();
        let mut s: usize = 0;
        while s < 4
            invariant
                s <= 4,
                suits@.len() == 4,
                ranks@.len() == 13,
                forall|i: int| 0 <= i < 4 ==> suits@[i] == suit_at(i),
                forall|i: int| 0 <= i < 13 ==> ranks@[i] == rank_at(i),
                deck.cards@.len() == 13 * s,
                forall|i: int| 0 <= i < deck.cards@.len() ==> deck.cards@[i]
                    == FrenchCard(rank_at(i % 13), suit_at(i / 13)),
            decreases 4 - s,
        {
            let mut r: usize = 0;
            while r < 13
                invariant
                    s < 4,
                    r <= 13,
                    suits@.len() == 4,
                    ranks@.len() == 13,
                    forall|i: int| 0 <= i < 4 ==> suits@[i] == suit_at(i),
                    forall|i: int| 0 <= i < 13 ==> ranks@[i] == rank_at(i),
                    deck.cards@.len() == 13 * s + r,
                    forall|i: int| 0 <= i < deck.cards@.len() ==> deck.cards@[i]
                        == FrenchCard(rank_at(i % 13), suit_at(i / 13)),
                decreases 13 - r,
            {
                deck.cards.push(FrenchCard(ranks[r], suits[s]));
                proof {
                    let i = deck.cards@.len() - 1;
                    vstd::arithmetic::div_mod::lemma_fundamental_div_mod_converse(
                        i,
                        13,
                        s as int,
                        r as int,
                    );
                }
                r = r + 1;
            }
            s = s + 1;
        }
        proof {
            assert(deck.cards@ =~= french_full_deck());
        }
        deck
    }

    fn shuffle(&mut self) {
        shuffle_cards(&mut self.cards);
    }

    fn pop_card(&mut self) -> (c: Option<FrenchCard>) {
        self.cards.pop()
    }

    fn pop_card_by_index(&mut self, index: usize) -> (c: Option<FrenchCard>) {
        if index < self.cards.len() {
            Some(self.cards.remove(index))
        } else {
            None
        }
    }

    fn push_card(&mut self, card: FrenchCard) {
        self.cards.push(card);
    }

    fn len(&self) -> (n: usize) {
        self.cards.len()
    }

    fn is_empty(&self) -> (r: bool) {
        self.cards.len() == 0
    }
}

/// The ways deck generation can fail.
#[derive(Debug, PartialEq, Eq, Structural, Clone, Copy)]
pub enum GenerationError {
    /// The requested order is neither prime nor the degenerate order 1.
    OrderNotPrime,
    /// The alphabet cannot supply the `n * n + n + 1` symbols the plane of
    /// order `n` needs.
    AlphabetTooSmall,
}

/// 7 is prime.
proof fn lemma_seven_prime()
    ensures
        is_prime(7),
{
    assert forall|d: int| 2 <= d < 7 implies #[trigger] (7int % d) != 0 by {
        if d == 2 {
        } else if d == 3 {
        } else if d == 4 {
        } else if d == 5 {
        } else {
        }
    }
}

impl Deck<SpotItCard> for SpotItDeck {
    open spec fn deck_seq(&self) -> Seq<SpotItCard> {
        self.cards@
    }

    fn new() -> (d: Self) {
        let cards: Vec<SpotItCard> = Vec::new();
        SpotItDeck { cards }
    }

    /// The deck the game is usually played with: the plane of order 7,
    /// 57 cards of 8 symbols each.
    fn default() -> (d: Self)
        ensures
            d.deck_seq().len() == 57,
            forall|i: int| 0 <= i < 57 ==> (#[trigger] d.deck_seq()[i])@ == deck_card(7, i),
    {
        proof {
            lemma_seven_prime();
        }
        let r = Self::generate_by_prime(7);
        match r {
            Ok(deck) => deck,
            Err(_) => vstd::pervasive::unreached(),
        }
    }

    fn shuffle(&mut self) {
        shuffle_cards(&mut self.cards);
    }

    fn pop_card(&mut self) -> (c: Option<SpotItCard>) {
        self.cards.pop()
    }

    fn pop_card_by_index(&mut self, index: usize) -> (c: Option<SpotItCard>) {
        if index < self.cards.len() {
            Some(self.cards.remove(index))
        } else {
            None
        }
    }

    fn push_card(&mut self, card: SpotItCard) {
        self.cards.push(card);
    }

    fn len(&self) -> (n: usize) {
        self.cards.len()
    }

    fn is_empty(&self) -> (r: bool) {
        self.cards.len() == 0
    }
}

impl SpotItDeck {
    /// Partitions a prefix of the alphabet into the plane of order `n`: the
    /// first `n * n` symbols fill the grid row-major (the first index is the
    /// row), and the next `n + 1` symbols, in the same draw order, stand at
    /// infinity.
    #[verifier::loop_isolation(false)]
    pub fn gen_projective_plane(n: u8) -> (r: (Vec<Vec<SpotItSymbol>>, Vec<SpotItSymbol>))
        requires
            1 <= n,
            fits_alphabet(n as int),
        ensures
            r.0@.len() == n as int,
            forall|row: int| 0 <= row < n ==> (#[trigger] r.0@[row])@.len() == n as int,
            forall|row: int, x: int|
                0 <= row < n && 0 <= x < n ==> #[trigger] (r.0@[row]@[x]) == grid_symbol(
                    n as int,
                    row,
                    x,
                ),
            r.1@.len() == n + 1,
            forall|k: int| 0 <= k <= n ==> #[trigger] r.1@[k] == infinity_symbol(n as int, k),
    {
        proof {
            lemma_order_bound(n as int);
        }
        let symbols = alphabet();
        let mut plane: Vec<Vec<SpotItSymbol>> = Vec::new();
        let mut row: u8 = 0;
        while row < n
            invariant
                row <= n,
                plane@.len() == row as int,
                forall|r: int| 0 <= r < row ==> (#[trigger] plane@[r])@.len() == n as int,
                forall|r: int, x: int|
                    0 <= r < row && 0 <= x < n ==> #[trigger] (plane@[r]@[x]) == grid_symbol(
                        n as int,
                        r,
                        x,
                    ),
            decreases n - row,
        {
            let mut grid_row: Vec<SpotItSymbol> = Vec::new();
            let mut x: u8 = 0;
            while x < n
                invariant
                    x <= n,
                    row < n,
                    grid_row@.len() == x as int,
                    forall|t: int| 0 <= t < x ==> #[trigger] grid_row@[t] == grid_symbol(
                        n as int,
                        row as int,
                        t,
                    ),
                decreases n - x,
            {
                proof {
                    assert((row as int) * (n as int) + (x as int) < (n as int) * (n as int))
                        by (nonlinear_arith)
                        requires
                            0 <= (row as int) < (n as int),
                            0 <= (x as int) < (n as int),
                    ;
                }
                grid_row.push(symbols[row as usize * n as usize + x as usize]);
                x = x + 1;
            }
            plane.push(grid_row);
            row = row + 1;
        }
        let mut line: Vec<SpotItSymbol> = Vec::new();
        let mut k: u8 = 0;
        while k < n + 1
            invariant
                k <= n + 1,
                line@.len() == k as int,
                forall|t: int| 0 <= t < k ==> #[trigger] line@[t] == infinity_symbol(
                    n as int,
                    t,
                ),
            decreases n + 1 - k,
        {
            line.push(symbols[n as usize * n as usize + k as usize]);
            k = k + 1;
        }
        (plane, line)
    }

    /// Computes the `n + 1` slopes of the parallel classes of the affine
    /// plane of order `n`: first `0/(n-1)`, then `1/i` for each `i` below
    /// `n` — the infinite direction `1/0` followed by the climbing ones.
    pub fn cal_slope(n: u8) -> (slopes: Vec<Slope>)
        requires
            1 <= n,
        ensures
            slopes@.len() == n + 1,
            slopes@[0] == reduced_slope(0, (n - 1) as u8),
            forall|i: int| 0 <= i < n ==> #[trigger] slopes@[i + 1] == reduced_slope(
                1,
                i as u8,
            ),
    {
        let mut slopes: Vec<Slope> = Vec::new();
        slopes.push(Slope::new(0, n - 1));
        let mut i: u8 = 0;
        while i < n
            invariant
                i <= n,
                slopes@.len() == i + 1,
                slopes@[0] == reduced_slope(0, (n - 1) as u8),
                forall|t: int| 0 <= t < i ==> #[trigger] slopes@[t + 1] == reduced_slope(
                    1,
                    t as u8,
                ),
            decreases n - i,
        {
            slopes.push(Slope::new(1, i));
            i = i + 1;
        }
        slopes
    }

    /// Generates the deck of the projective plane of order `n`: exactly
    /// `n * n + n + 1` cards of `n + 1` symbols each, every two distinct
    /// cards sharing exactly one symbol.  The order must be prime (order 1,
    /// the one-point plane, is also accepted), and the alphabet must hold
    /// `n * n + n + 1` symbols; otherwise the matching error comes back and
    /// no deck is built.
    #[verifier::loop_isolation(false)]
    pub fn generate_by_prime(n: u8) -> (r: Result<SpotItDeck, GenerationError>)
        ensures
            match r {
                Ok(deck) => {
                    &&& admissible_order(n as int)
                    &&& fits_alphabet(n as int)
                    &&& deck.cards@.len() == plane_size(n as int)
                    &&& forall|i: int|
                        0 <= i < deck.cards@.len() ==> (#[trigger] deck.cards@[i])@
                            == deck_card(n as int, i)
                    &&& forall|i: int|
                        0 <= i < deck.cards@.len() ==> (#[trigger] deck.cards@[i])@.len()
                            == n + 1
                    &&& forall|i: int, j: int|
                        #![trigger deck.cards@[i]@.intersect(deck.cards@[j]@)]
                        0 <= i < deck.cards@.len() && 0 <= j < deck.cards@.len() && i != j
                            ==> deck.cards@[i]@.intersect(deck.cards@[j]@).len() == 1
                },
                Err(GenerationError::OrderNotPrime) => !admissible_order(n as int),
                Err(GenerationError::AlphabetTooSmall) => admissible_order(n as int)
                    && !fits_alphabet(n as int),
            },
    {
        let prime = check_prime(n as u64);
        if !prime && n != 1 {
            return Err(GenerationError::OrderNotPrime);
        }
        proof {
            assert((n as int) * (n as int) <= 255 * 255) by (nonlinear_arith)
                requires
                    0 <= (n as int) <= 255,
            ;
        }
        let need: u32 = (n as u32) * (n as u32) + (n as u32) + 1;
        if need > ALPHABET_SIZE as u32 {
            return Err(GenerationError::AlphabetTooSmall);
        }
        proof {
            lemma_order_bound(n as int);
        }
        let (plane, line) = Self::gen_projective_plane(n);
        if n == 1 {
            let mut deck = Self::new();
            let mut first = SpotItCard::new();
            first.insert(plane[0][0]);
            first.insert(line[0]);
            deck.push_card(first);
            let mut second = SpotItCard::new();
            second.insert(plane[0][0]);
            second.insert(line[1]);
            deck.push_card(second);
            let mut last = SpotItCard::new();
            last.insert(line[0]);
            last.insert(line[1]);
            deck.push_card(last);
            proof {
                lemma_degenerate_deck(
                    deck.cards@[0]@,
                    deck.cards@[1]@,
                    deck.cards@[2]@,
                );
                assert forall|i: int| 0 <= i < deck.cards@.len() implies (
                #[trigger] deck.cards@[i])@.len() == 2 by {
                    lemma_deck_card_size(1, i);
                }
                assert forall|i: int, j: int|
                    0 <= i < deck.cards@.len() && 0 <= j < deck.cards@.len() && i != j
                    implies #[trigger] deck.cards@[i]@.intersect(deck.cards@[j]@).len()
                    == 1 by {
                    lemma_deck_cards_share_one(1, i, j);
                }
            }
            Ok(deck)
        } else {
            let mut deck = Self::new();
            let slopes = Self::cal_slope(n);
            proof {
                lemma_slope_zero((n - 1) as u8);
            }
            let mut k: u8 = 0;
            while k < n + 1
                invariant
                    k <= n + 1,
                    deck.cards@.len() == (k as int) * (n as int),
                    forall|i: int|
                        0 <= i < deck.cards@.len() ==> (#[trigger] deck.cards@[i])@
                            == deck_card(n as int, i),
                decreases n + 1 - k,
            {
                let ghost kk = k as int;
                let m_opt: Option<u8> = match slopes[k as usize] {
                    Slope::Undefined => {
                        proof {
                            if k >= 1 {
                                lemma_slope_unit((k - 1) as u8);
                                assert(slopes@[(kk - 1) + 1] == reduced_slope(
                                    1,
                                    (k - 1) as u8,
                                ));
                            }
                        }
                        vstd::pervasive::unreached()
                    },
                    Slope::Infinite => {
                        proof {
                            // only the slope 1/0 at position 1 is infinite
                            if k == 0 {
                                assert(slopes@[0] == reduced_slope(0, (n - 1) as u8));
                            } else if k >= 2 {
                                lemma_slope_unit((k - 1) as u8);
                                assert(slopes@[(kk - 1) + 1] == reduced_slope(
                                    1,
                                    (k - 1) as u8,
                                ));
                            }
                            assert(k == 1);
                        }
                        None
                    },
                    Slope::Finite { num, den } => {
                        proof {
                            assert(k != 1) by {
                                if k == 1 {
                                    assert(slopes@[0int + 1] == reduced_slope(1, 0));
                                }
                            }
                            if k == 0 {
                                assert(slopes@[0] == reduced_slope(0, (n - 1) as u8));
                            } else {
                                lemma_slope_unit((k - 1) as u8);
                                assert(slopes@[(kk - 1) + 1] == reduced_slope(
                                    1,
                                    (k - 1) as u8,
                                ));
                            }
                        }
                        let inv = mod_inverse(den, n);
                        proof {
                            assert((num as int) * (inv as int) <= 255 * 255)
                                by (nonlinear_arith)
                                requires
                                    0 <= (num as int) <= 255,
                                    0 <= (inv as int) <= 255,
                            ;
                        }
                        let mult = ((num as u16 * inv as u16) % (n as u16)) as u8;
                        proof {
                            if k == 0 {
                                assert((num as int) * (inv as int) == 0)
                                    by (nonlinear_arith)
                                    requires
                                        (num as int) == 0,
                                ;
                                vstd::arithmetic::div_mod::lemma_small_mod(0, n as nat);
                            } else {
                                assert((num as int) * (inv as int) == inv as int)
                                    by (nonlinear_arith)
                                    requires
                                        (num as int) == 1,
                                ;
                                vstd::arithmetic::div_mod::lemma_small_mod(
                                    inv as nat,
                                    n as nat,
                                );
                            }
                            assert(mult == class_multiplier(n as int, kk));
                        }
                        Some(mult)
                    },
                };
                proof {
                    assert(m_opt is None <==> kk == 1);
                    assert(m_opt is Some ==> m_opt->0 == class_multiplier(n as int, kk)
                        && m_opt->0 < n);
                }
                let mut c: u8 = 0;
                while c < n
                    invariant
                        c <= n,
                        k <= n,
                        deck.cards@.len() == (k as int) * (n as int) + c as int,
                        forall|i: int|
                            0 <= i < deck.cards@.len() ==> (#[trigger] deck.cards@[i])@
                                == deck_card(n as int, i),
                    decreases n - c,
                {
                    let mut card = SpotItCard::new();
                    match m_opt {
                        None => {
                            let mut y: u8 = 0;
                            proof {
                                assert(column_points(n as int, c as int).take(0).to_set()
                                    =~= Set::<SpotItSymbol>::empty());
                            }
                            while y < n
                                invariant
                                    y <= n,
                                    c < n,
                                    card@ == column_points(n as int, c as int).take(
                                        y as int,
                                    ).to_set(),
                                decreases n - y,
                            {
                                card.insert(plane[y as usize][c as usize]);
                                proof {
                                    let pts = column_points(n as int, c as int);
                                    assert(pts.take(y + 1) =~= pts.take(y as int).push(
                                        pts[y as int],
                                    ));
                                    Seq::lemma_push_to_set_commute(
                                        pts.take(y as int),
                                        pts[y as int],
                                    );
                                }
                                y = y + 1;
                            }
                            proof {
                                let pts = column_points(n as int, c as int);
                                assert(pts.take(n as int) =~= pts);
                            }
                        },
                        Some(m) => {
                            let mut x: u8 = 0;
                            proof {
                                assert(line_points(n as int, m as int, c as int).take(
                                    0,
                                ).to_set() =~= Set::<SpotItSymbol>::empty());
                            }
                            while x < n
                                invariant
                                    x <= n,
                                    c < n,
                                    m < n,
                                    m as int == class_multiplier(n as int, kk),
                                    card@ == line_points(n as int, m as int, c as int).take(
                                        x as int,
                                    ).to_set(),
                                decreases n - x,
                            {
                                proof {
                                    assert((m as int) * (x as int) + (c as int) < 100)
                                        by (nonlinear_arith)
                                        requires
                                            0 <= (m as int) <= 9,
                                            0 <= (x as int) <= 9,
                                            0 <= (c as int) <= 9,
                                    ;
                                }
                                let rrow = ((m as u16 * x as u16 + c as u16) % (n as u16))
                                    as u8;
                                proof {
                                    vstd::arithmetic::div_mod::lemma_mod_bound(
                                        (m as int) * (x as int) + (c as int),
                                        n as int,
                                    );
                                }
                                card.insert(plane[rrow as usize][x as usize]);
                                proof {
                                    let pts = line_points(n as int, m as int, c as int);
                                    assert(pts[x as int] == grid_symbol(
                                        n as int,
                                        rrow as int,
                                        x as int,
                                    ));
                                    assert(pts.take(x + 1) =~= pts.take(x as int).push(
                                        pts[x as int],
                                    ));
                                    Seq::lemma_push_to_set_commute(
                                        pts.take(x as int),
                                        pts[x as int],
                                    );
                                }
                                x = x + 1;
                            }
                            proof {
                                let pts = line_points(n as int, m as int, c as int);
                                assert(pts.take(n as int) =~= pts);
                            }
                        },
                    }
                    card.insert(line[k as usize]);
                    proof {
                        let i = (k as int) * (n as int) + c as int;
                        vstd::arithmetic::div_mod::lemma_fundamental_div_mod_converse(
                            i,
                            n as int,
                            k as int,
                            c as int,
                        );
                        assert(i < (n as int) * (n as int) + n as int) by (nonlinear_arith)
                            requires
                                i == (k as int) * (n as int) + (c as int),
                                0 <= (k as int) <= (n as int),
                                0 <= (c as int) < (n as int),
                        ;
                        assert(card@ == line_card(n as int, kk, c as int));
                        assert(card@ == deck_card(n as int, i));
                    }
                    deck.push_card(card);
                    c = c + 1;
                }
                proof {
                    assert((k as int) * (n as int) + (n as int) == ((k as int) + 1) * (
                    n as int)) by (nonlinear_arith);
                }
                k = k + 1;
            }
            let mut last = SpotItCard::new();
            proof {
                assert(infinity_points(n as int).take(0).to_set() =~= Set::<
                    SpotItSymbol,
                >::empty());
            }
            let mut t: u8 = 0;
            while t < n + 1
                invariant
                    t <= n + 1,
                    last@ == infinity_points(n as int).take(t as int).to_set(),
                decreases n + 1 - t,
            {
                last.insert(line[t as usize]);
                proof {
                    let pts = infinity_points(n as int);
                    assert(pts.take(t + 1) =~= pts.take(t as int).push(pts[t as int]));
                    Seq::lemma_push_to_set_commute(pts.take(t as int), pts[t as int]);
                }
                t = t + 1;
            }
            deck.push_card(last);
            proof {
                let pts = infinity_points(n as int);
                assert(pts.take((n + 1) as int) =~= pts);
                assert(((n as int) + 1) * (n as int) == (n as int) * (n as int) + (
                n as int)) by (nonlinear_arith);
                assert(deck.cards@.len() == plane_size(n as int));
                assert forall|i: int| 0 <= i < deck.cards@.len() implies (
                #[trigger] deck.cards@[i])@ == deck_card(n as int, i) by {
                    if i == (n as int) * (n as int) + n as int {
                        assert(deck.cards@[i]@ == infinity_points(n as int).to_set());
                    }
                }
                assert forall|i: int| 0 <= i < deck.cards@.len() implies (
                #[trigger] deck.cards@[i])@.len() == n + 1 by {
                    lemma_deck_card_size(n as int, i);
                }
                assert forall|i: int, j: int|
                    0 <= i < deck.cards@.len() && 0 <= j < deck.cards@.len() && i != j
                    implies #[trigger] deck.cards@[i]@.intersect(deck.cards@[j]@).len()
                    == 1 by {
                    lemma_deck_cards_share_one(n as int, i, j);
                }
            }
            Ok(deck)
        }
    }
}

/// The three cards of the order-1 deck, as built by the degenerate branch,
/// are the three cards of the order-1 plane.
proof fn lemma_degenerate_deck(
    first: Set<SpotItSymbol>,
    second: Set<SpotItSymbol>,
    last: Set<SpotItSymbol>,
)
    requires
        first == Set::<SpotItSymbol>::empty().insert(grid_symbol(1, 0, 0)).insert(
            infinity_symbol(1, 0),
        ),
        second == Set::<SpotItSymbol>::empty().insert(grid_symbol(1, 0, 0)).insert(
            infinity_symbol(1, 1),
        ),
        last == Set::<SpotItSymbol>::empty().insert(infinity_symbol(1, 0)).insert(
            infinity_symbol(1, 1),
        ),
    ensures
        first == deck_card(1, 0),
        second == deck_card(1, 1),
        last == deck_card(1, 2),
{
    let pts0 = line_points(1, class_multiplier(1, 0), 0);
    assert(pts0.len() == 1 && pts0[0] == grid_symbol(1, 0, 0));
    assert(pts0 =~= Seq::<SpotItSymbol>::empty().push(grid_symbol(1, 0, 0)));
    Seq::lemma_push_to_set_commute(Seq::<SpotItSymbol>::empty(), grid_symbol(1, 0, 0));
    assert(Seq::<SpotItSymbol>::empty().to_set() =~= Set::<SpotItSymbol>::empty());
    assert(first =~= deck_card(1, 0));
    let pts1 = column_points(1, 0);
    assert(pts1.len() == 1 && pts1[0] == grid_symbol(1, 0, 0));
    assert(pts1 =~= Seq::<SpotItSymbol>::empty().push(grid_symbol(1, 0, 0)));
    assert(second =~= deck_card(1, 1));
    let pts2 = infinity_points(1);
    assert(pts2.len() == 2 && pts2[0] == infinity_symbol(1, 0) && pts2[1]
        == infinity_symbol(1, 1));
    assert(pts2 =~= Seq::<SpotItSymbol>::empty().push(infinity_symbol(1, 0)).push(
        infinity_symbol(1, 1),
    ));
    Seq::lemma_push_to_set_commute(
        Seq::<SpotItSymbol>::empty().push(infinity_symbol(1, 0)),
        infinity_symbol(1, 1),
    );
    Seq::lemma_push_to_set_commute(Seq::<SpotItSymbol>::empty(), infinity_symbol(1, 0));
    assert(last =~= deck_card(1, 2));
}

} // verus!

