use std::collections::HashSet;

use gambling_bot::sql::structs::{Card, Suite};
use gambling_bot::utils::deck::{card_to_int, generate_deck, int_to_card, shuffle_deck, Deck};

#[test]
fn card_int_roundtrip_all_52() {
    for i in 0..52u8 {
        assert_eq!(card_to_int(int_to_card(i)), i, "roundtrip failed for {}", i);
    }
}

#[test]
fn int_to_card_suit_boundaries() {
    assert_eq!(int_to_card(0), (Card::ONE, Suite::DIAMONDS));
    assert_eq!(int_to_card(12), (Card::KING, Suite::DIAMONDS));
    assert_eq!(int_to_card(13), (Card::ONE, Suite::HEARTS));
    assert_eq!(int_to_card(25), (Card::KING, Suite::HEARTS));
    assert_eq!(int_to_card(26), (Card::ONE, Suite::CLUBS));
    assert_eq!(int_to_card(38), (Card::KING, Suite::CLUBS));
    assert_eq!(int_to_card(39), (Card::ONE, Suite::SPADES));
    assert_eq!(int_to_card(51), (Card::KING, Suite::SPADES));
}

#[test]
fn generated_deck_has_52_unique_cards() {
    let deck = generate_deck(52);
    assert_eq!(deck.deck.len(), 52);
    let unique: HashSet<u8> = deck.deck.iter().map(|&c| card_to_int(c)).collect();
    assert_eq!(unique.len(), 52);
}

#[test]
fn shuffle_preserves_cards() {
    let mut deck = generate_deck(52);
    let before: HashSet<u8> = deck.deck.iter().map(|&c| card_to_int(c)).collect();
    shuffle_deck(&mut deck);
    let after: HashSet<u8> = deck.deck.iter().map(|&c| card_to_int(c)).collect();
    assert_eq!(before, after);
    assert_eq!(deck.deck.len(), 52);
}

#[test]
fn new_deck_is_empty() {
    assert!(Deck::new().deck.is_empty());
}

#[test]
fn int_to_card_past_the_deck_is_a_spade() {
    assert_eq!(int_to_card(52), (Card::ONE, Suite::SPADES));
    assert_eq!(int_to_card(255), (Card::NINE, Suite::SPADES));
}

#[test]
fn small_generated_deck_holds_the_first_cards() {
    let deck = generate_deck(3);
    let mut ints: Vec<u8> = deck.deck.iter().map(|&c| card_to_int(c)).collect();
    ints.sort();
    assert_eq!(ints, vec![0, 1, 2]);
}
