use cardgame::frenchcard::{FrenchCard, FrenchRank, FrenchSuit};
use cardgame::slope::Slope;
use cardgame::spotitcard::{alphabet, SpotItCard, SpotItSymbol};
use cardgame::{Deck, FrenchDeck, SpotItDeck};
use std::collections::HashSet;

fn deck_card_of(symbols: &[SpotItSymbol]) -> SpotItCard {
    let mut c = SpotItCard::new();
    for s in symbols {
        c.insert(*s);
    }
    c
}

#[test]
fn default_frenchdeck_has_52_cards() {
    let deck: FrenchDeck = FrenchDeck::default();
    assert_eq!(deck.cards.len(), 52);
}

#[test]
fn card_on_default_frenchdeck_is_unique() {
    let deck: FrenchDeck = FrenchDeck::default();
    let mut uniq = HashSet::new();
    assert!(deck.cards.iter().all(move |card| uniq.insert(card)));
}

#[test]
fn can_push_pop_same_card_on_frenchdeck() {
    let mut deck: FrenchDeck = FrenchDeck::new();
    let card = FrenchCard(FrenchRank::Ace, FrenchSuit::Spade);
    deck.cards.push(card.clone());
    assert_eq!(deck.cards.pop(), Some(card));
}

#[test]
fn can_use_fn_to_pop_card_from_frenchdeck() {
    let mut deck: FrenchDeck = FrenchDeck::new();
    let card = FrenchCard(FrenchRank::Ace, FrenchSuit::Spade);
    deck.push_card(card.clone());
    assert_eq!(deck.pop_card(), Some(card));
}

#[test]
fn default_spotitdeck_has_57_cards() {
    let deck: SpotItDeck = SpotItDeck::default();
    assert_eq!(deck.cards.len(), 57);
}

#[test]
fn every_card_on_default_spotitdeck_is_unique() {
    let mut deck: SpotItDeck = SpotItDeck::default();
    for _ in 1..=deck.cards.len() {
        let card = deck.cards.pop().unwrap();
        assert!(deck.cards.iter().all(move |c| c != &card));
    }
}

#[test]
fn can_push_pop_same_card_on_spotitdeck() {
    let mut deck: SpotItDeck = SpotItDeck::new();
    let card = deck_card_of(&[SpotItSymbol::Banana]);
    deck.cards.push(card.clone());
    assert_eq!(deck.cards.pop(), Some(card));
}

#[test]
fn can_use_fn_to_pop_card_from_spotitdeck() {
    let mut deck: SpotItDeck = SpotItDeck::new();
    let card = deck_card_of(&[SpotItSymbol::Banana]);
    deck.cards.push(card.clone());
    assert_eq!(deck.pop_card(), Some(card));
    assert_eq!(deck.pop_card(), None);
}

#[test]
fn can_generate_right_cards_number_by_prime() {
    let deck = SpotItDeck::generate_by_prime(1).unwrap();
    assert_eq!(deck.cards.len(), 1 + 1 + 1);
    let deck = SpotItDeck::generate_by_prime(2).unwrap();
    assert_eq!(deck.cards.len(), 2 * 2 + 2 + 1);
    let deck = SpotItDeck::generate_by_prime(3).unwrap();
    assert_eq!(deck.cards.len(), 3 * 3 + 3 + 1);

    // return error if n is not prime
    assert!(SpotItDeck::generate_by_prime(4).is_err());

    let deck = SpotItDeck::generate_by_prime(5).unwrap();
    assert_eq!(deck.cards.len(), 5 * 5 + 5 + 1);

    // return error if n is not prime
    assert!(SpotItDeck::generate_by_prime(6).is_err());
}

#[test]
fn can_generate_right_deck_of_card_by_prime_3() {
    let deck = SpotItDeck::generate_by_prime(3).unwrap();
    assert_eq!(deck.cards.len(), 3 * 3 + 3 + 1);
    let first_card = deck_card_of(&[
        SpotItSymbol::Apple,
        SpotItSymbol::Apricot,
        SpotItSymbol::Avocado,
        SpotItSymbol::Currant,
    ]);
    let card = deck.cards.first().unwrap();

    // The first card is [0,1,2,9], which is [Apple, Apricot, Avocado, Currant]
    assert_eq!(*card, first_card);
}

#[test]
fn can_generate_projective_plane_of_5_with_symbols() {
    let (plane, line) = SpotItDeck::gen_projective_plane(5);
    assert_eq!(plane.len(), 5);
    assert_eq!(plane[0].len(), 5);
    assert_eq!(plane[1].len(), 5);
    assert_eq!(plane[2].len(), 5);
    assert_eq!(plane[3].len(), 5);
    assert_eq!(plane[4].len(), 5);
    assert_eq!(plane[0][0], SpotItSymbol::Apple);
    assert_eq!(plane[0][1], SpotItSymbol::Apricot);
    assert_eq!(plane[0][2], SpotItSymbol::Avocado);
    assert_eq!(plane[0][3], SpotItSymbol::Banana);
    assert_eq!(plane[0][4], SpotItSymbol::Bilberry);
    assert_eq!(plane[1][0], SpotItSymbol::Blackberry);
    assert_eq!(plane[1][1], SpotItSymbol::Blackcurrant);
    assert_eq!(line.len(), 6);

    let symbols = alphabet();
    let mut next: usize = 0;
    for x in plane.iter() {
        for y in x.iter() {
            assert_eq!(*y, symbols[next]);
            next += 1;
        }
    }
}

#[test]
fn can_calculate_slope() {
    let slope = SpotItDeck::cal_slope(3);
    assert_eq!(slope.len(), 4);
    assert_eq!(slope[0], Slope::new(0, 2));
    assert_eq!(slope[1], Slope::new(1, 0));
    assert_eq!(slope[2], Slope::new(1, 1));
    assert_eq!(slope[3], Slope::new(1, 2));
}

#[test]
fn can_pop_french_card_by_index() {
    let mut deck: FrenchDeck = FrenchDeck::default();
    let first_card = FrenchCard(FrenchRank::Ace, FrenchSuit::Spade);
    let last_card = FrenchCard(FrenchRank::Two, FrenchSuit::Club);
    assert_eq!(deck.len(), 52);
    assert_eq!(deck.pop_card_by_index(52), None);
    assert_eq!(deck.pop_card_by_index(0), Some(last_card));
    assert_eq!(deck.pop_card_by_index(50), Some(first_card));
    assert_eq!(deck.len(), 50);
}

#[test]
fn can_pop_spotit_card_by_index() {
    let mut deck: SpotItDeck = SpotItDeck::default();
    assert_eq!(deck.len(), 57);
    assert_eq!(deck.pop_card_by_index(57), None);
    let last_card = deck.pop_card();
    for _ in 1..=deck.len() - 1 {
        deck.pop_card();
    }
    let first_card = deck.pop_card();

    let mut deck2: SpotItDeck = SpotItDeck::default();
    assert_eq!(deck2.pop_card_by_index(56), last_card);
    assert_eq!(deck2.pop_card_by_index(0), first_card);
    assert_eq!(deck2.len(), 55);
}
