use cardgame::spotitcard::{SpotItCard, SpotItSymbol};

fn spotit_card_of(symbols: &[SpotItSymbol]) -> SpotItCard {
    let mut c = SpotItCard::new();
    for s in symbols {
        c.insert(*s);
    }
    c
}

#[test]
fn spotitcard_can_compare_spotitcard() {
    let card1 = spotit_card_of(&[SpotItSymbol::Banana]);
    let card2 = spotit_card_of(&[SpotItSymbol::Banana]);
    let card3 = spotit_card_of(&[SpotItSymbol::Apple]);
    let card4: SpotItCard = spotit_card_of(&[SpotItSymbol::Banana, SpotItSymbol::Apple]);
    let card5 = spotit_card_of(&[SpotItSymbol::Banana, SpotItSymbol::Apple]);
    let card6 = spotit_card_of(&[SpotItSymbol::Apple, SpotItSymbol::Apple]);
    assert_eq!(card1, card2); // two cards with same one suit
    assert_ne!(card2, card3); // two cards with different suits
    assert_ne!(card3, card4); // two cards with non-identical set of suit
    assert_ne!(card1, card4); // two cards with non-identical set of suit
    assert_eq!(card4, card5); // two cards with same set of suit
    assert_eq!(card3, card6); // two cards with same suit, even one suit is added twice
}

#[test]
fn spotitcard_can_match_exactly_one_suit_on_two_spotitcard() {
    let card1 = spotit_card_of(&[SpotItSymbol::Banana]);
    let card2: SpotItCard = spotit_card_of(&[SpotItSymbol::Banana, SpotItSymbol::Apple]);
    let card3: SpotItCard = spotit_card_of(&[SpotItSymbol::Banana, SpotItSymbol::Apple]);
    let card4: SpotItCard = spotit_card_of(&[SpotItSymbol::ChicoFruit]);
    let card5 = SpotItCard::new();
    let card6 = SpotItCard::new();
    assert!(card1.match_exactly_one_symbol(&card2));
    assert!(card2.match_exactly_one_symbol(&card1));
    assert!(!card3.match_exactly_one_symbol(&card2)); // cards that have more than one suit in common
    assert!(!card4.match_exactly_one_symbol(&card3)); // cards that have no suit in common
    assert!(!card5.match_exactly_one_symbol(&card6)); // cards that have no suit in common as they are both empty
}

#[test]
fn spotitcard_can_add_symbol_to_spotitcard() {
    let mut card1 = spotit_card_of(&[SpotItSymbol::Apple]);
    let card2 = spotit_card_of(&[SpotItSymbol::Banana]);
    card1.insert(SpotItSymbol::Banana);
    assert_ne!(card1, card2);
    assert!(card1.match_exactly_one_symbol(&card2))
}

#[test]
fn can_show_symbols_on_spotitcard() {
    let card1 = spotit_card_of(&[SpotItSymbol::Yuzu]);
    assert_eq!(card1.symbols(), vec![SpotItSymbol::Yuzu]);
}
