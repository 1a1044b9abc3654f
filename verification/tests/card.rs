use cardgame::card::{FrenchCard, FrenchRank, FrenchSuit, SpotItCard, SpotItSymbol};

fn card_of(symbols: &[SpotItSymbol]) -> SpotItCard {
    let mut c = SpotItCard::new();
    for s in symbols {
        c.insert(*s);
    }
    c
}

#[test]
fn card_french_rank_is_cast_as_u8() {
    let ten = FrenchRank::Ten.value();
    assert_eq!(ten, 10);
    let ace = FrenchRank::Ace.value();
    assert_eq!(ace, 14);
}

#[test]
fn card_can_compare_frenchcard() {
    let card1 = FrenchCard(FrenchRank::Ace, FrenchSuit::Spade);
    let card2 = FrenchCard(FrenchRank::Ace, FrenchSuit::Spade);
    let card3 = FrenchCard(FrenchRank::Ace, FrenchSuit::Heart);
    let card4 = FrenchCard(FrenchRank::King, FrenchSuit::Heart);
    assert_eq!(card1, card2); // two cards with same rank and suit
    assert_ne!(card2, card3); // two cards with same rank but different suit
    assert_ne!(card3, card4); // two cards with same suit but different rank
}

#[test]
fn card_can_compare_frenchcard_by_rank_and_suit() {
    let card1 = FrenchCard(FrenchRank::Ace, FrenchSuit::Spade);
    let card2 = FrenchCard(FrenchRank::Ace, FrenchSuit::Spade);
    let card3 = FrenchCard(FrenchRank::Ace, FrenchSuit::Heart);
    let card4 = FrenchCard(FrenchRank::King, FrenchSuit::Heart);
    assert!(card1.match_rank(&card2)); // two cards with same rank and suit
    assert!(card1.match_rank(&card3)); // two cards with same rank but different suit
    assert!(!card1.match_rank(&card4)); // two cards with different rank and suit
    assert!(!card3.match_rank(&card4)); // two cards with different rank but same suit

    assert!(card1.match_suit(&card2)); // two cards with same rank and suit
    assert!(card3.match_suit(&card4)); // two cards with same suit but different rank
    assert!(!card1.match_suit(&card3)); // two cards with same rank but different suit
    assert!(!card1.match_suit(&card4)); // two cards with different suit and rank
}

#[test]
fn card_can_compare_spotitcard() {
    let card1 = card_of(&[SpotItSymbol::Banana]);
    let card2 = card_of(&[SpotItSymbol::Banana]);
    let card3 = card_of(&[SpotItSymbol::Apple]);
    let card4: SpotItCard = card_of(&[SpotItSymbol::Banana, SpotItSymbol::Apple]);
    let card5 = card_of(&[SpotItSymbol::Banana, SpotItSymbol::Apple]);
    let card6 = card_of(&[SpotItSymbol::Apple, SpotItSymbol::Apple]);
    assert_eq!(card1, card2); // two cards with same one suit
    assert_ne!(card2, card3); // two cards with different suits
    assert_ne!(card3, card4); // two cards with non-identical set of suit
    assert_ne!(card1, card4); // two cards with non-identical set of suit
    assert_eq!(card4, card5); // two cards with same set of suit
    assert_eq!(card3, card6); // two cards with same suit, even one suit is added twice
}

#[test]
fn card_can_match_exactly_one_suit_on_two_spotitcard() {
    let card1 = card_of(&[SpotItSymbol::Banana]);
    let card2: SpotItCard = card_of(&[SpotItSymbol::Banana, SpotItSymbol::Apple]);
    let card3: SpotItCard = card_of(&[SpotItSymbol::Banana, SpotItSymbol::Apple]);
    let card4: SpotItCard = card_of(&[SpotItSymbol::ChicoFruit]);
    let card5 = SpotItCard::new();
    let card6 = SpotItCard::new();
    assert!(card1.match_exactly_one_symbol(&card2));
    assert!(card2.match_exactly_one_symbol(&card1));
    assert!(!card3.match_exactly_one_symbol(&card2)); // cards that have more than one suit in common
    assert!(!card4.match_exactly_one_symbol(&card3)); // cards that have no suit in common
    assert!(!card5.match_exactly_one_symbol(&card6)); // cards that have no suit in common as they are both empty
}

#[test]
fn card_can_add_symbol_to_spotitcard() {
    let mut card1 = card_of(&[SpotItSymbol::Banana]);
    card1.insert(SpotItSymbol::Apple);
    let card2 = card_of(&[SpotItSymbol::Banana]);
    assert_ne!(card1, card2);
}
