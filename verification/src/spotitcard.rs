//! Symbol-matching cards.
//!
//! A `SpotItCard` is a finite set of symbols drawn from a fixed, ordered
//! alphabet.  The deck generator in the crate root lays such cards out so
//! that every two of them share exactly one symbol; the test for that
//! sharing rule, `match_exactly_one_symbol`, lives here.

use vstd::prelude::*;

verus! {

/// The symbols (fruit patterns) a card may carry.  One card holds any finite
/// set of them.
#[derive(Debug, PartialEq, Eq, Structural, Clone, Copy, Hash)]
pub enum SpotItSymbol {
    Apple,
    Apricot,
    Avocado,
    Banana,
    Bilberry,
    Blackberry,
    Blackcurrant,
    Blueberry,
    Boysenberry,
    Currant,
    Cherry,
    Cherimoya,
    ChicoFruit,
    Cloudberry,
    Coconut,
    Cranberry,
    Cucumber,
    CustardApple,
    Damson,
    Date,
    Dragonfruit,
    Durian,
    Elderberry,
    Feijoa,
    Fig,
    GojiBerry,
    Gooseberry,
    Grape,
    Raisin,
    Grapefruit,
    Guava,
    Honeyberry,
    Huckleberry,
    Jabuticaba,
    Jackfruit,
    Jambul,
    Jujube,
    JuniperBerry,
    Kiwano,
    Kiwifruit,
    Kumquat,
    Lemon,
    Lime,
    Loquat,
    Longan,
    Lychee,
    Mango,
    Mangosteen,
    Marionberry,
    Melon,
    Cantaloupe,
    Honeydew,
    Watermelon,
    MiracleFruit,
    Mulberry,
    Nectarine,
    Nance,
    Olive,
    Orange,
    BloodOrange,
    Clementine,
    Mandarine,
    Tangerine,
    Papaya,
    Passionfruit,
    Peach,
    Pear,
    Persimmon,
    Physalis,
    Plantain,
    Plum,
    Prune,
    Pineapple,
    Plumcot,
    Pomegranate,
    Pomelo,
    PurpleMangosteen,
    Quince,
    Raspberry,
    Salmonberry,
    Rambutan,
    Redcurrant,
    SalalBerry,
    Salak,
    Satsuma,
    Soursop,
    StarFruit,
    SolanumQuitoense,
    Strawberry,
    Tamarillo,
    Tamarind,
    UgliFruit,
    Yuzu,
}

/// How many symbols the fixed alphabet offers.
pub const ALPHABET_SIZE: usize = 93;

/// The symbol at position `i` of the alphabet's fixed enumeration order.
pub open spec fn symbol_at(i: int) -> SpotItSymbol {
    if i == 0 {
        SpotItSymbol::Apple
    } else if i == 1 {
        SpotItSymbol::Apricot
    } else if i == 2 {
        SpotItSymbol::Avocado
    } else if i == 3 {
        SpotItSymbol::Banana
    } else if i == 4 {
        SpotItSymbol::Bilberry
    } else if i == 5 {
        SpotItSymbol::Blackberry
    } else if i == 6 {
        SpotItSymbol::Blackcurrant
    } else if i == 7 {
        SpotItSymbol::Blueberry
    } else if i == 8 {
        SpotItSymbol::Boysenberry
    } else if i == 9 {
        SpotItSymbol::Currant
    } else if i == 10 {
        SpotItSymbol::Cherry
    } else if i == 11 {
        SpotItSymbol::Cherimoya
    } else if i == 12 {
        SpotItSymbol::ChicoFruit
    } else if i == 13 {
        SpotItSymbol::Cloudberry
    } else if i == 14 {
        SpotItSymbol::Coconut
    } else if i == 15 {
        SpotItSymbol::Cranberry
    } else if i == 16 {
        SpotItSymbol::Cucumber
    } else if i == 17 {
        SpotItSymbol::CustardApple
    } else if i == 18 {
        SpotItSymbol::Damson
    } else if i == 19 {
        SpotItSymbol::Date
    } else if i == 20 {
        SpotItSymbol::Dragonfruit
    } else if i == 21 {
        SpotItSymbol::Durian
    } else if i == 22 {
        SpotItSymbol::Elderberry
    } else if i == 23 {
        SpotItSymbol::Feijoa
    } else if i == 24 {
        SpotItSymbol::Fig
    } else if i == 25 {
        SpotItSymbol::GojiBerry
    } else if i == 26 {
        SpotItSymbol::Gooseberry
    } else if i == 27 {
        SpotItSymbol::Grape
    } else if i == 28 {
        SpotItSymbol::Raisin
    } else if i == 29 {
        SpotItSymbol::Grapefruit
    } else if i == 30 {
        SpotItSymbol::Guava
    } else if i == 31 {
        SpotItSymbol::Honeyberry
    } else if i == 32 {
        SpotItSymbol::Huckleberry
    } else if i == 33 {
        SpotItSymbol::Jabuticaba
    } else if i == 34 {
        SpotItSymbol::Jackfruit
    } else if i == 35 {
        SpotItSymbol::Jambul
    } else if i == 36 {
        SpotItSymbol::Jujube
    } else if i == 37 {
        SpotItSymbol::JuniperBerry
    } else if i == 38 {
        SpotItSymbol::Kiwano
    } else if i == 39 {
        SpotItSymbol::Kiwifruit
    } else if i == 40 {
        SpotItSymbol::Kumquat
    } else if i == 41 {
        SpotItSymbol::Lemon
    } else if i == 42 {
        SpotItSymbol::Lime
    } else if i == 43 {
        SpotItSymbol::Loquat
    } else if i == 44 {
        SpotItSymbol::Longan
    } else if i == 45 {
        SpotItSymbol::Lychee
    } else if i == 46 {
        SpotItSymbol::Mango
    } else if i == 47 {
        SpotItSymbol::Mangosteen
    } else if i == 48 {
        SpotItSymbol::Marionberry
    } else if i == 49 {
        SpotItSymbol::Melon
    } else if i == 50 {
        SpotItSymbol::Cantaloupe
    } else if i == 51 {
        SpotItSymbol::Honeydew
    } else if i == 52 {
        SpotItSymbol::Watermelon
    } else if i == 53 {
        SpotItSymbol::MiracleFruit
    } else if i == 54 {
        SpotItSymbol::Mulberry
    } else if i == 55 {
        SpotItSymbol::Nectarine
    } else if i == 56 {
        SpotItSymbol::Nance
    } else if i == 57 {
        SpotItSymbol::Olive
    } else if i == 58 {
        SpotItSymbol::Orange
    } else if i == 59 {
        SpotItSymbol::BloodOrange
    } else if i == 60 {
        SpotItSymbol::Clementine
    } else if i == 61 {
        SpotItSymbol::Mandarine
    } else if i == 62 {
        SpotItSymbol::Tangerine
    } else if i == 63 {
        SpotItSymbol::Papaya
    } else if i == 64 {
        SpotItSymbol::Passionfruit
    } else if i == 65 {
        SpotItSymbol::Peach
    } else if i == 66 {
        SpotItSymbol::Pear
    } else if i == 67 {
        SpotItSymbol::Persimmon
    } else if i == 68 {
        SpotItSymbol::Physalis
    } else if i == 69 {
        SpotItSymbol::Plantain
    } else if i == 70 {
        SpotItSymbol::Plum
    } else if i == 71 {
        SpotItSymbol::Prune
    } else if i == 72 {
        SpotItSymbol::Pineapple
    } else if i == 73 {
        SpotItSymbol::Plumcot
    } else if i == 74 {
        SpotItSymbol::Pomegranate
    } else if i == 75 {
        SpotItSymbol::Pomelo
    } else if i == 76 {
        SpotItSymbol::PurpleMangosteen
    } else if i == 77 {
        SpotItSymbol::Quince
    } else if i == 78 {
        SpotItSymbol::Raspberry
    } else if i == 79 {
        SpotItSymbol::Salmonberry
    } else if i == 80 {
        SpotItSymbol::Rambutan
    } else if i == 81 {
        SpotItSymbol::Redcurrant
    } else if i == 82 {
        SpotItSymbol::SalalBerry
    } else if i == 83 {
        SpotItSymbol::Salak
    } else if i == 84 {
        SpotItSymbol::Satsuma
    } else if i == 85 {
        SpotItSymbol::Soursop
    } else if i == 86 {
        SpotItSymbol::StarFruit
    } else if i == 87 {
        SpotItSymbol::SolanumQuitoense
    } else if i == 88 {
        SpotItSymbol::Strawberry
    } else if i == 89 {
        SpotItSymbol::Tamarillo
    } else if i == 90 {
        SpotItSymbol::Tamarind
    } else if i == 91 {
        SpotItSymbol::UgliFruit
    } else {
        SpotItSymbol::Yuzu
    }
}

/// The position of a symbol in the alphabet's fixed enumeration order.
pub open spec fn symbol_index(s: SpotItSymbol) -> int {
    match s {
        SpotItSymbol::Apple => 0,
        SpotItSymbol::Apricot => 1,
        SpotItSymbol::Avocado => 2,
        SpotItSymbol::Banana => 3,
        SpotItSymbol::Bilberry => 4,
        SpotItSymbol::Blackberry => 5,
        SpotItSymbol::Blackcurrant => 6,
        SpotItSymbol::Blueberry => 7,
        SpotItSymbol::Boysenberry => 8,
        SpotItSymbol::Currant => 9,
        SpotItSymbol::Cherry => 10,
        SpotItSymbol::Cherimoya => 11,
        SpotItSymbol::ChicoFruit => 12,
        SpotItSymbol::Cloudberry => 13,
        SpotItSymbol::Coconut => 14,
        SpotItSymbol::Cranberry => 15,
        SpotItSymbol::Cucumber => 16,
        SpotItSymbol::CustardApple => 17,
        SpotItSymbol::Damson => 18,
        SpotItSymbol::Date => 19,
        SpotItSymbol::Dragonfruit => 20,
        SpotItSymbol::Durian => 21,
        SpotItSymbol::Elderberry => 22,
        SpotItSymbol::Feijoa => 23,
        SpotItSymbol::Fig => 24,
        SpotItSymbol::GojiBerry => 25,
        SpotItSymbol::Gooseberry => 26,
        SpotItSymbol::Grape => 27,
        SpotItSymbol::Raisin => 28,
        SpotItSymbol::Grapefruit => 29,
        SpotItSymbol::Guava => 30,
        SpotItSymbol::Honeyberry => 31,
        SpotItSymbol::Huckleberry => 32,
        SpotItSymbol::Jabuticaba => 33,
        SpotItSymbol::Jackfruit => 34,
        SpotItSymbol::Jambul => 35,
        SpotItSymbol::Jujube => 36,
        SpotItSymbol::JuniperBerry => 37,
        SpotItSymbol::Kiwano => 38,
        SpotItSymbol::Kiwifruit => 39,
        SpotItSymbol::Kumquat => 40,
        SpotItSymbol::Lemon => 41,
        SpotItSymbol::Lime => 42,
        SpotItSymbol::Loquat => 43,
        SpotItSymbol::Longan => 44,
        SpotItSymbol::Lychee => 45,
        SpotItSymbol::Mango => 46,
        SpotItSymbol::Mangosteen => 47,
        SpotItSymbol::Marionberry => 48,
        SpotItSymbol::Melon => 49,
        SpotItSymbol::Cantaloupe => 50,
        SpotItSymbol::Honeydew => 51,
        SpotItSymbol::Watermelon => 52,
        SpotItSymbol::MiracleFruit => 53,
        SpotItSymbol::Mulberry => 54,
        SpotItSymbol::Nectarine => 55,
        SpotItSymbol::Nance => 56,
        SpotItSymbol::Olive => 57,
        SpotItSymbol::Orange => 58,
        SpotItSymbol::BloodOrange => 59,
        SpotItSymbol::Clementine => 60,
        SpotItSymbol::Mandarine => 61,
        SpotItSymbol::Tangerine => 62,
        SpotItSymbol::Papaya => 63,
        SpotItSymbol::Passionfruit => 64,
        SpotItSymbol::Peach => 65,
        SpotItSymbol::Pear => 66,
        SpotItSymbol::Persimmon => 67,
        SpotItSymbol::Physalis => 68,
        SpotItSymbol::Plantain => 69,
        SpotItSymbol::Plum => 70,
        SpotItSymbol::Prune => 71,
        SpotItSymbol::Pineapple => 72,
        SpotItSymbol::Plumcot => 73,
        SpotItSymbol::Pomegranate => 74,
        SpotItSymbol::Pomelo => 75,
        SpotItSymbol::PurpleMangosteen => 76,
        SpotItSymbol::Quince => 77,
        SpotItSymbol::Raspberry => 78,
        SpotItSymbol::Salmonberry => 79,
        SpotItSymbol::Rambutan => 80,
        SpotItSymbol::Redcurrant => 81,
        SpotItSymbol::SalalBerry => 82,
        SpotItSymbol::Salak => 83,
        SpotItSymbol::Satsuma => 84,
        SpotItSymbol::Soursop => 85,
        SpotItSymbol::StarFruit => 86,
        SpotItSymbol::SolanumQuitoense => 87,
        SpotItSymbol::Strawberry => 88,
        SpotItSymbol::Tamarillo => 89,
        SpotItSymbol::Tamarind => 90,
        SpotItSymbol::UgliFruit => 91,
        SpotItSymbol::Yuzu => 92,
    }
}

/// `symbol_index` inverts `symbol_at` on the alphabet's positions.
pub proof fn lemma_symbol_round_trip(i: int)
    requires
        0 <= i < ALPHABET_SIZE,
    ensures
        symbol_index(symbol_at(i)) == i,
{
}

/// Distinct alphabet positions hold distinct symbols.
pub proof fn lemma_symbol_at_injective(i: int, j: int)
    requires
        0 <= i < ALPHABET_SIZE,
        0 <= j < ALPHABET_SIZE,
        symbol_at(i) == symbol_at(j),
    ensures
        i == j,
{
    lemma_symbol_round_trip(i);
    lemma_symbol_round_trip(j);
}

/// Looks up the symbol at position `i` of the alphabet.
fn symbol_lookup(i: u8) -> (s: SpotItSymbol)
    requires
        i < 93,
    ensures
        s == symbol_at(i as int),
{
    match i {
        0 => SpotItSymbol::Apple,
        1 => SpotItSymbol::Apricot,
        2 => SpotItSymbol::Avocado,
        3 => SpotItSymbol::Banana,
        4 => SpotItSymbol::Bilberry,
        5 => SpotItSymbol::Blackberry,
        6 => SpotItSymbol::Blackcurrant,
        7 => SpotItSymbol::Blueberry,
        8 => SpotItSymbol::Boysenberry,
        9 => SpotItSymbol::Currant,
        10 => SpotItSymbol::Cherry,
        11 => SpotItSymbol::Cherimoya,
        12 => SpotItSymbol::ChicoFruit,
        13 => SpotItSymbol::Cloudberry,
        14 => SpotItSymbol::Coconut,
        15 => SpotItSymbol::Cranberry,
        16 => SpotItSymbol::Cucumber,
        17 => SpotItSymbol::CustardApple,
        18 => SpotItSymbol::Damson,
        19 => SpotItSymbol::Date,
        20 => SpotItSymbol::Dragonfruit,
        21 => SpotItSymbol::Durian,
        22 => SpotItSymbol::Elderberry,
        23 => SpotItSymbol::Feijoa,
        24 => SpotItSymbol::Fig,
        25 => SpotItSymbol::GojiBerry,
        26 => SpotItSymbol::Gooseberry,
        27 => SpotItSymbol::Grape,
        28 => SpotItSymbol::Raisin,
        29 => SpotItSymbol::Grapefruit,
        30 => SpotItSymbol::Guava,
        31 => SpotItSymbol::Honeyberry,
        32 => SpotItSymbol::Huckleberry,
        33 => SpotItSymbol::Jabuticaba,
        34 => SpotItSymbol::Jackfruit,
        35 => SpotItSymbol::Jambul,
        36 => SpotItSymbol::Jujube,
        37 => SpotItSymbol::JuniperBerry,
        38 => SpotItSymbol::Kiwano,
        39 => SpotItSymbol::Kiwifruit,
        40 => SpotItSymbol::Kumquat,
        41 => SpotItSymbol::Lemon,
        42 => SpotItSymbol::Lime,
        43 => SpotItSymbol::Loquat,
        44 => SpotItSymbol::Longan,
        45 => SpotItSymbol::Lychee,
        46 => SpotItSymbol::Mango,
        47 => SpotItSymbol::Mangosteen,
        48 => SpotItSymbol::Marionberry,
        49 => SpotItSymbol::Melon,
        50 => SpotItSymbol::Cantaloupe,
        51 => SpotItSymbol::Honeydew,
        52 => SpotItSymbol::Watermelon,
        53 => SpotItSymbol::MiracleFruit,
        54 => SpotItSymbol::Mulberry,
        55 => SpotItSymbol::Nectarine,
        56 => SpotItSymbol::Nance,
        57 => SpotItSymbol::Olive,
        58 => SpotItSymbol::Orange,
        59 => SpotItSymbol::BloodOrange,
        60 => SpotItSymbol::Clementine,
        61 => SpotItSymbol::Mandarine,
        62 => SpotItSymbol::Tangerine,
        63 => SpotItSymbol::Papaya,
        64 => SpotItSymbol::Passionfruit,
        65 => SpotItSymbol::Peach,
        66 => SpotItSymbol::Pear,
        67 => SpotItSymbol::Persimmon,
        68 => SpotItSymbol::Physalis,
        69 => SpotItSymbol::Plantain,
        70 => SpotItSymbol::Plum,
        71 => SpotItSymbol::Prune,
        72 => SpotItSymbol::Pineapple,
        73 => SpotItSymbol::Plumcot,
        74 => SpotItSymbol::Pomegranate,
        75 => SpotItSymbol::Pomelo,
        76 => SpotItSymbol::PurpleMangosteen,
        77 => SpotItSymbol::Quince,
        78 => SpotItSymbol::Raspberry,
        79 => SpotItSymbol::Salmonberry,
        80 => SpotItSymbol::Rambutan,
        81 => SpotItSymbol::Redcurrant,
        82 => SpotItSymbol::SalalBerry,
        83 => SpotItSymbol::Salak,
        84 => SpotItSymbol::Satsuma,
        85 => SpotItSymbol::Soursop,
        86 => SpotItSymbol::StarFruit,
        87 => SpotItSymbol::SolanumQuitoense,
        88 => SpotItSymbol::Strawberry,
        89 => SpotItSymbol::Tamarillo,
        90 => SpotItSymbol::Tamarind,
        91 => SpotItSymbol::UgliFruit,
        _ => SpotItSymbol::Yuzu,
    }
}

/// The whole symbol alphabet, in its fixed enumeration order.
pub fn alphabet() -> (v: Vec<SpotItSymbol>)
    ensures
        v@.len() == ALPHABET_SIZE,
        forall|i: int| 0 <= i < v@.len() ==> v@[i] == symbol_at(i),
{
    let mut v: Vec<SpotItSymbol> = Vec::new();
    let mut i: u8 = 0;
    while i < 93
        invariant
            i <= 93,
            v@.len() == i as int,
            forall|j: int| 0 <= j < i ==> v@[j] == symbol_at(j),
        decreases 93 - i,
    {
        v.push(symbol_lookup(i));
        i = i + 1;
    }
    v
}

/// A card: a set of symbols.  Duplicates are never stored, and a card is
/// viewed in specifications as the `Set` of its symbols.
#[derive(Debug)]
pub struct SpotItCard {
    symbols: Vec<SpotItSymbol>,
}

impl View for SpotItCard {
    type V = Set<SpotItSymbol>;

    closed spec fn view(&self) -> Set<SpotItSymbol> {
        self.symbols@.to_set()
    }
}

impl SpotItCard {
    #[verifier::type_invariant]
    spec fn wf(self) -> bool {
        self.symbols@.no_duplicates()
    }

    /// Creates a card with no symbols on it.
    pub fn new() -> (c: Self)
        ensures
            c@ == Set::<SpotItSymbol>::empty(),
    {
        let c = SpotItCard { symbols: Vec::new() };
        proof {
            assert(c.symbols@.to_set() =~= Set::<SpotItSymbol>::empty());
        }
        c
    }

    /// The number of distinct symbols on the card.
    pub fn len(&self) -> (n: usize)
        ensures
            n == self@.len(),
    {
        proof {
            use_type_invariant(&*self);
            self.symbols@.unique_seq_to_set();
        }
        self.symbols.len()
    }

    /// Whether the card carries the given symbol.
    pub fn contains(&self, sym: SpotItSymbol) -> (r: bool)
        ensures
            r == self@.contains(sym),
    {
        let n = self.symbols.len();
        let mut k: usize = 0;
        while k < n
            invariant
                n == self.symbols@.len(),
                k <= n,
                forall|j: int| 0 <= j < k ==> self.symbols@[j] != sym,
            decreases n - k,
        {
            if self.symbols[k] == sym {
                return true;
            }
            k = k + 1;
        }
        proof {
            assert(!self.symbols@.contains(sym));
        }
        false
    }

    /// Adds a symbol to the card; adding a symbol already present leaves the
    /// card unchanged.
    pub fn insert(&mut self, sym: SpotItSymbol)
        ensures
            final(self)@ == old(self)@.insert(sym),
    {
        proof {
            use_type_invariant(&*self);
        }
        let present = self.contains(sym);
        if !present {
            let ghost pre = self.symbols@;
            let mut v: Vec<SpotItSymbol> = Vec::new();
            core::mem::swap(&mut v, &mut self.symbols);
            v.push(sym);
            proof {
                assert(v@.no_duplicates()) by {
                    assert forall|p: int, q: int|
                        0 <= p < v@.len() && 0 <= q < v@.len() && p != q implies v@[p] != v@[q]
                    by {
                        if p == pre.len() || q == pre.len() {
                            assert(!pre.contains(sym));
                        }
                    }
                }
            }
            core::mem::swap(&mut v, &mut self.symbols);
            proof {
                Seq::lemma_push_to_set_commute(pre, sym);
                assert(self.symbols@.to_set() =~= pre.to_set().insert(sym));
            }
        } else {
            proof {
                assert(old(self)@.insert(sym) =~= old(self)@);
            }
        }
    }

    /// The symbols on the card, listed in the card's storage order, each
    /// exactly once.
    pub fn symbols(&self) -> (v: Vec<SpotItSymbol>)
        ensures
            v@.to_set() == self@,
            v@.no_duplicates(),
            v@.len() == self@.len(),
    {
        proof {
            use_type_invariant(&*self);
            self.symbols@.unique_seq_to_set();
        }
        let n = self.symbols.len();
        let mut v: Vec<SpotItSymbol> = Vec::new();
        let mut k: usize = 0;
        while k < n
            invariant
                n == self.symbols@.len(),
                k <= n,
                v@ == self.symbols@.take(k as int),
            decreases n - k,
        {
            v.push(self.symbols[k]);
            proof {
                assert(v@ =~= self.symbols@.take(k + 1));
            }
            k = k + 1;
        }
        proof {
            assert(v@ =~= self.symbols@);
        }
        v
    }

    /// True exactly when the two cards share exactly one symbol.  Two cards
    /// with no symbol in common — in particular two empty cards — do not
    /// match.
    pub fn match_exactly_one_symbol(&self, card: &Self) -> (r: bool)
        ensures
            r == (self@.intersect(card@).len() == 1),
    {
        proof {
            use_type_invariant(&*self);
        }
        let n = self.symbols.len();
        let mut count: usize = 0;
        let mut k: usize = 0;
        proof {
            assert(self.symbols@.take(0).to_set().intersect(card@)
                =~= Set::<SpotItSymbol>::empty());
        }
        while k < n
            invariant
                n == self.symbols@.len(),
                self.symbols@.no_duplicates(),
                k <= n,
                count <= k,
                count == self.symbols@.take(k as int).to_set().intersect(card@).len(),
            decreases n - k,
        {
            let sym = self.symbols[k];
            let shared = card.contains(sym);
            proof {
                let pre = self.symbols@.take(k as int);
                let post = self.symbols@.take(k + 1);
                assert(post =~= pre.push(sym));
                Seq::lemma_push_to_set_commute(pre, sym);
                vstd::seq_lib::seq_to_set_is_finite(pre);
                if card@.contains(sym) {
                    assert(post.to_set().intersect(card@) =~= pre.to_set().intersect(
                        card@,
                    ).insert(sym));
                    assert(!pre.to_set().intersect(card@).contains(sym)) by {
                        assert(forall|j: int| 0 <= j < k ==> self.symbols@[j] != sym);
                    }
                } else {
                    assert(post.to_set().intersect(card@) =~= pre.to_set().intersect(card@));
                }
            }
            if shared {
                count = count + 1;
            }
            k = k + 1;
        }
        proof {
            assert(self.symbols@.take(n as int) =~= self.symbols@);
        }
        count == 1
    }
}

impl Clone for SpotItCard {
    /// The clone carries the same set of symbols.
    fn clone(&self) -> (c: Self)
        ensures
            c@ == self@,
    {
        SpotItCard { symbols: self.symbols() }
    }
}

impl PartialEq for SpotItCard {
    /// Cards are equal when they carry the same set of symbols, whatever
    /// order the symbols were added in.
    fn eq(&self, other: &Self) -> (r: bool) {
        proof {
            use_type_invariant(&*self);
            use_type_invariant(&*other);
            self.symbols@.unique_seq_to_set();
            other.symbols@.unique_seq_to_set();
        }
        if self.symbols.len() != other.symbols.len() {
            proof {
                assert(self@ != other@) by {
                    if self@ == other@ {
                        assert(self@.len() == other@.len());
                    }
                }
            }
            return false;
        }
        let n = self.symbols.len();
        let mut k: usize = 0;
        while k < n
            invariant
                n == self.symbols@.len(),
                n == other.symbols@.len(),
                self@.len() == n,
                other@.len() == n,
                self@ == self.symbols@.to_set(),
                other@ == other.symbols@.to_set(),
                k <= n,
                forall|j: int| 0 <= j < k ==> other@.contains(#[trigger] self.symbols@[j]),
            decreases n - k,
        {
            let sym = self.symbols[k];
            if !other.contains(sym) {
                proof {
                    assert(self@.contains(sym));
                }
                return false;
            }
            k = k + 1;
        }
        proof {
            assert(self@.subset_of(other@));
            vstd::seq_lib::seq_to_set_is_finite(self.symbols@);
            vstd::seq_lib::seq_to_set_is_finite(other.symbols@);
            vstd::set_lib::lemma_subset_equality(self@, other@);
        }
        true
    }
}

impl vstd::std_specs::cmp::PartialEqSpecImpl for SpotItCard {
    open spec fn obeys_eq_spec() -> bool {
        true
    }

    open spec fn eq_spec(&self, other: &Self) -> bool {
        self@ == other@
    }
}

/// Sharing exactly one symbol is a symmetric relation: the matching test
/// answers the same whichever way round two cards are passed to it.
pub proof fn lemma_match_symmetric(a: Set<SpotItSymbol>, b: Set<SpotItSymbol>)
    ensures
        (a.intersect(b).len() == 1) == (b.intersect(a).len() == 1),
{
    assert(a.intersect(b) =~= b.intersect(a));
}

} // verus!
