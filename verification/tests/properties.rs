use cardgame::math::{check_prime, gcd_exec};
use cardgame::slope::Slope;
use cardgame::spotitcard::{alphabet, SpotItCard, SpotItSymbol, ALPHABET_SIZE};
use cardgame::{Deck, GenerationError, SpotItDeck};

fn prop_card_of(symbols: &[SpotItSymbol]) -> SpotItCard {
    let mut c = SpotItCard::new();
    for s in symbols {
        c.insert(*s);
    }
    c
}

fn assert_projective_deck(n: usize) {
    let deck = SpotItDeck::generate_by_prime(n as u8).unwrap();
    assert_eq!(deck.cards.len(), n * n + n + 1);
    for card in deck.cards.iter() {
        assert_eq!(card.len(), n + 1);
    }
    for i in 0..deck.cards.len() {
        for j in 0..deck.cards.len() {
            if i != j {
                assert!(deck.cards[i].match_exactly_one_symbol(&deck.cards[j]));
            }
        }
    }
}

#[test]
fn every_prime_order_yields_a_projective_deck() {
    assert_projective_deck(2);
    assert_projective_deck(3);
    assert_projective_deck(5);
    assert_projective_deck(7);
}

#[test]
fn order_one_yields_the_degenerate_deck() {
    let deck = SpotItDeck::generate_by_prime(1).unwrap();
    assert_eq!(deck.cards.len(), 3);
    for card in deck.cards.iter() {
        assert_eq!(card.len(), 2);
    }
    for i in 0..3 {
        for j in 0..3 {
            if i != j {
                assert!(deck.cards[i].match_exactly_one_symbol(&deck.cards[j]));
            }
        }
    }
}

#[test]
fn non_prime_orders_are_rejected() {
    assert_eq!(
        SpotItDeck::generate_by_prime(0).unwrap_err(),
        GenerationError::OrderNotPrime
    );
    assert_eq!(
        SpotItDeck::generate_by_prime(4).unwrap_err(),
        GenerationError::OrderNotPrime
    );
    assert_eq!(
        SpotItDeck::generate_by_prime(6).unwrap_err(),
        GenerationError::OrderNotPrime
    );
    // a non-prime order is rejected before capacity is even considered
    assert_eq!(
        SpotItDeck::generate_by_prime(9).unwrap_err(),
        GenerationError::OrderNotPrime
    );
    assert_eq!(
        SpotItDeck::generate_by_prime(200).unwrap_err(),
        GenerationError::OrderNotPrime
    );
}

#[test]
fn too_large_prime_orders_are_rejected() {
    assert_eq!(
        SpotItDeck::generate_by_prime(11).unwrap_err(),
        GenerationError::AlphabetTooSmall
    );
    assert_eq!(
        SpotItDeck::generate_by_prime(13).unwrap_err(),
        GenerationError::AlphabetTooSmall
    );
    assert_eq!(
        SpotItDeck::generate_by_prime(251).unwrap_err(),
        GenerationError::AlphabetTooSmall
    );
}

#[test]
fn generation_is_deterministic_and_decks_are_independent() {
    let first = SpotItDeck::generate_by_prime(5).unwrap();
    let mut second = SpotItDeck::generate_by_prime(5).unwrap();
    assert_eq!(first.cards.len(), second.cards.len());
    for i in 0..first.cards.len() {
        assert_eq!(first.cards[i], second.cards[i]);
    }
    // shuffling one deck must leave the other untouched
    second.shuffle();
    let third = SpotItDeck::generate_by_prime(5).unwrap();
    for i in 0..first.cards.len() {
        assert_eq!(first.cards[i], third.cards[i]);
    }
}

#[test]
fn shuffle_keeps_exactly_the_same_cards() {
    let original = SpotItDeck::generate_by_prime(3).unwrap();
    let mut shuffled = SpotItDeck::generate_by_prime(3).unwrap();
    shuffled.shuffle();
    assert_eq!(shuffled.cards.len(), original.cards.len());
    for card in original.cards.iter() {
        assert!(shuffled.cards.contains(card));
    }
    for card in shuffled.cards.iter() {
        assert!(original.cards.contains(card));
    }
}

#[test]
fn matching_is_symmetric() {
    let a = prop_card_of(&[SpotItSymbol::Apple, SpotItSymbol::Banana]);
    let b = prop_card_of(&[SpotItSymbol::Banana, SpotItSymbol::Cherry]);
    let c = prop_card_of(&[SpotItSymbol::Lemon]);
    let empty = SpotItCard::new();
    assert_eq!(a.match_exactly_one_symbol(&b), b.match_exactly_one_symbol(&a));
    assert_eq!(a.match_exactly_one_symbol(&c), c.match_exactly_one_symbol(&a));
    assert_eq!(
        a.match_exactly_one_symbol(&empty),
        empty.match_exactly_one_symbol(&a)
    );
    let deck = SpotItDeck::generate_by_prime(3).unwrap();
    for i in 0..deck.cards.len() {
        for j in 0..deck.cards.len() {
            assert_eq!(
                deck.cards[i].match_exactly_one_symbol(&deck.cards[j]),
                deck.cards[j].match_exactly_one_symbol(&deck.cards[i])
            );
        }
    }
}

#[test]
fn alphabet_lists_the_symbols_in_order() {
    let symbols = alphabet();
    assert_eq!(symbols.len(), ALPHABET_SIZE);
    assert_eq!(symbols[0], SpotItSymbol::Apple);
    assert_eq!(symbols[9], SpotItSymbol::Currant);
    assert_eq!(symbols[92], SpotItSymbol::Yuzu);
}

#[test]
fn slopes_reduce_to_lowest_terms() {
    assert_eq!(Slope::new(2, 4), Slope::new(1, 2));
    assert_eq!(Slope::new(0, 5), Slope::new(0, 1));
    assert_eq!(Slope::new(3, 0), Slope::new(1, 0));
    assert_ne!(Slope::new(1, 2), Slope::new(2, 1));
    assert!(matches!(Slope::new(0, 0), Slope::Undefined));
    assert!(matches!(Slope::new(7, 0), Slope::Infinite));
}

#[test]
fn card_tracks_its_symbol_count() {
    let mut card = SpotItCard::new();
    assert_eq!(card.len(), 0);
    assert!(!card.contains(SpotItSymbol::Fig));
    card.insert(SpotItSymbol::Fig);
    assert_eq!(card.len(), 1);
    assert!(card.contains(SpotItSymbol::Fig));
    card.insert(SpotItSymbol::Fig);
    assert_eq!(card.len(), 1);
    card.insert(SpotItSymbol::Lime);
    assert_eq!(card.len(), 2);
    let listed = card.symbols();
    assert_eq!(listed, vec![SpotItSymbol::Fig, SpotItSymbol::Lime]);
}

#[test]
fn primality_oracle_answers_the_small_cases() {
    assert!(!check_prime(0));
    assert!(!check_prime(1));
    assert!(check_prime(2));
    assert!(check_prime(3));
    assert!(!check_prime(4));
    assert!(check_prime(7));
    assert!(!check_prime(91)); // 7 * 13
    assert!(check_prime(97));
}

#[test]
fn gcd_follows_euclid() {
    assert_eq!(gcd_exec(12, 8), 4);
    assert_eq!(gcd_exec(8, 12), 4);
    assert_eq!(gcd_exec(7, 13), 1);
    assert_eq!(gcd_exec(0, 5), 5);
    assert_eq!(gcd_exec(5, 0), 5);
}

#[test]
fn empty_deck_queries() {
    let mut deck: SpotItDeck = SpotItDeck::new();
    assert!(deck.is_empty());
    assert_eq!(deck.len(), 0);
    assert_eq!(deck.pop_card_by_index(0), None);
    deck.push_card(SpotItCard::new());
    assert!(!deck.is_empty());
    assert_eq!(deck.len(), 1);
}
