use cardgame::frenchcard::{FrenchCard, FrenchRank, FrenchSuit};

#[test]
fn frenchcard_french_rank_is_cast_as_u8() {
    let ten = FrenchRank::Ten.value();
    assert_eq!(ten, 10);
    let ace = FrenchRank::Ace.value();
    assert_eq!(ace, 14);
}

#[test]
fn frenchcard_can_compare_frenchcard() {
    let card1 = FrenchCard(FrenchRank::Ace, FrenchSuit::Spade);
    let card2 = FrenchCard(FrenchRank::Ace, FrenchSuit::Spade);
    let card3 = FrenchCard(FrenchRank::Ace, FrenchSuit::Heart);
    let card4 = FrenchCard(FrenchRank::King, FrenchSuit::Heart);
    assert_eq!(card1, card2); // two cards with same rank and suit
    assert_ne!(card2, card3); // two cards with same rank but different suit
    assert_ne!(card3, card4); // two cards with same suit but different rank
}

#[test]
fn frenchcard_can_compare_frenchcard_by_rank_and_suit() {
    let card1 = FrenchCard(FrenchRank::Ace, FrenchSuit::Spade);
    let card2 = FrenchCard(FrenchRank::Ace, FrenchSuit::Spade);
    let card3 = FrenchCard(FrenchRank::Ace, FrenchSuit::Heart);
    let card4 = FrenchCard(FrenchRank::King, FrenchSuit::Heart);
    assert!(card1.match_rank(&card2)); // two cards with same rank and suit
    assert!(card1.match_rank(&card3)); // two cards with same rank but different suit
    assert!(!card1.match_rank(&card4)); // two cards with different rank and suit
    assert!(!card3.match_rank(&card4)); // two cards with different rank but same suit

    assert!(card1.match_suit(&card2)); // two cards with same rank and suit
    assert!(card3.match_suit(&card4)); // two cards with same suit but different rank
    assert!(!card1.match_suit(&card3)); // two cards with same rank but different suit
    assert!(!card1.match_suit(&card4)); // two cards with different suit and rank
}
