//! Decks of cards and the numbering of cards from 0 to 51.
//!
//! Card `n` has face `n % 13` (0 the ace up to 12 the king) and suit `n / 13`
//! (0 diamonds, 1 hearts, 2 clubs, 3 spades).

use rand::seq::SliceRandom;
use vstd::prelude::*;

use crate::sql::structs::{Card, Suite, card_index, suite_index};

verus! {

broadcast use {vstd::seq_lib::group_to_multiset_ensures, vstd::multiset::group_multiset_axioms};

/// A deck, the top card last.
#[derive(Debug, PartialEq, Eq, Clone)]
pub struct Deck {
    pub deck: Vec<(Card, Suite)>,
}

impl Deck {
    /// An empty deck.
    pub fn new() -> (r: Self)
        ensures
            r.deck@ == Seq::<(Card, Suite)>::empty(),
    {
        Deck { deck: Vec::new() }
    }
}

/// The face with index `i`; an index past the king gives the ace.
pub open spec fn face_of(i: nat) -> Card {
    if i == 0 { Card::ONE }
    else if i == 1 { Card::TWO }
    else if i == 2 { Card::THREE }
    else if i == 3 { Card::FOUR }
    else if i == 4 { Card::FIVE }
    else if i == 5 { Card::SIX }
    else if i == 6 { Card::SEVEN }
    else if i == 7 { Card::EIGHT }
    else if i == 8 { Card::NINE }
    else if i == 9 { Card::TEN }
    else if i == 10 { Card::JACK }
    else if i == 11 { Card::QUEEN }
    else if i == 12 { Card::KING }
    else { Card::ONE }
}

/// The suit with index `i`; an index past the spades gives the spades.
pub open spec fn suite_of(i: nat) -> Suite {
    if i == 0 { Suite::DIAMONDS }
    else if i == 1 { Suite::HEARTS }
    else if i == 2 { Suite::CLUBS }
    else { Suite::SPADES }
}

/// The card numbered `n`.
pub open spec fn card_of_int(n: nat) -> (Card, Suite) {
    (face_of(n % 13), suite_of(n / 13))
}

/// The number of a card.
pub open spec fn int_of_card(card: (Card, Suite)) -> nat {
    suite_index(card.1) * 13 + card_index(card.0)
}

/// The number of a card, from 0 to 51.
pub fn card_to_int(card: (Card, Suite)) -> (r: u8)
    ensures
        r as nat == int_of_card(card),
{
    let card_u8 = card.0.index();
    let suite_u8 = card.1.index();
    suite_u8 * 13 + card_u8
}

/// The card numbered `card_u8`; numbers from 52 up give spades.
pub fn int_to_card(card_u8: u8) -> (r: (Card, Suite))
    ensures
        r == card_of_int(card_u8 as nat),
{
    let face_u8 = card_u8 % 13;
    let suite_u8 = (card_u8 - face_u8) / 13;
    assert(suite_u8 == card_u8 / 13);
    let card = if face_u8 == 0 { Card::ONE }
        else if face_u8 == 1 { Card::TWO }
        else if face_u8 == 2 { Card::THREE }
        else if face_u8 == 3 { Card::FOUR }
        else if face_u8 == 4 { Card::FIVE }
        else if face_u8 == 5 { Card::SIX }
        else if face_u8 == 6 { Card::SEVEN }
        else if face_u8 == 7 { Card::EIGHT }
        else if face_u8 == 8 { Card::NINE }
        else if face_u8 == 9 { Card::TEN }
        else if face_u8 == 10 { Card::JACK }
        else if face_u8 == 11 { Card::QUEEN }
        else if face_u8 == 12 { Card::KING }
        else { Card::ONE };
    let suite = if suite_u8 == 0 { Suite::DIAMONDS }
        else if suite_u8 == 1 { Suite::HEARTS }
        else if suite_u8 == 2 { Suite::CLUBS }
        else { Suite::SPADES };
    (card, suite)
}

/// Numbering a card and reading the number back gives the card.
pub proof fn lemma_int_of_card_roundtrip(card: (Card, Suite))
    ensures
        card_of_int(int_of_card(card)) == card,
{
    let n = int_of_card(card);
    assert(n % 13 == card_index(card.0) && n / 13 == suite_index(card.1)) by (nonlinear_arith)
        requires n == suite_index(card.1) * 13 + card_index(card.0), card_index(card.0) < 13;
}

/// Reading the numbers 0 to 51 as cards and numbering them again gives the numbers.
pub proof fn lemma_card_of_int_roundtrip(n: nat)
    requires
        n < 52,
    ensures
        int_of_card(card_of_int(n)) == n,
{
    assert(n == (n / 13) * 13 + n % 13) by (nonlinear_arith);
    assert(n / 13 < 4) by (nonlinear_arith) requires n < 52;
    assert(n % 13 < 13) by (nonlinear_arith);
}

/// The cards numbered `0` to `size - 1`, in that order.
pub open spec fn ordered_cards(size: nat) -> Seq<(Card, Suite)> {
    Seq::new(size, |i: int| card_of_int(i as nat))
}

/// Shuffles cards into a random order.
/// `SliceRandom::shuffle` of the rand crate, with the thread-local generator:
/// the result is a permutation of the input; which one is left to chance.
#[verifier::external_body]
fn shuffle_cards(cards: &mut Vec<(Card, Suite)>)
    ensures
        final(cards)@.to_multiset() == old(cards)@.to_multiset(),
{
    cards.shuffle(&mut rand::thread_rng());
}

/// Shuffles a deck: its cards in a random order.
pub fn shuffle_deck(deck: &mut Deck)
    ensures
        final(deck).deck@.to_multiset() == old(deck).deck@.to_multiset(),
        final(deck).deck@.len() == old(deck).deck@.len(),
{
    shuffle_cards(&mut deck.deck);
    assert(deck.deck@.len() == deck.deck@.to_multiset().len());
}

/// A new deck of the cards numbered `0` to `size - 1`, shuffled.
pub fn generate_deck(size: u8) -> (r: Deck)
    ensures
        r.deck@.to_multiset() == ordered_cards(size as nat).to_multiset(),
        r.deck@.len() == size,
{
    let mut deck = Deck::new();
    let mut i: u8 = 0;
    while i < size
        invariant
            i <= size,
            deck.deck@ == ordered_cards(i as nat),
        decreases size - i,
    {
        deck.deck.push(int_to_card(i));
        assert(deck.deck@ =~= ordered_cards((i + 1) as nat));
        i = i + 1;
    }
    shuffle_deck(&mut deck);
    deck
}

/// The cards numbered `0` to `size - 1` are distinct when `size` is at most 52.
pub proof fn lemma_ordered_cards_distinct(size: nat)
    requires
        size <= 52,
    ensures
        ordered_cards(size).no_duplicates(),
{
    let s = ordered_cards(size);
    assert forall|i: int, j: int| 0 <= i < s.len() && 0 <= j < s.len() && i != j
        implies s[i] != s[j] by {
        lemma_card_of_int_roundtrip(i as nat);
        lemma_card_of_int_roundtrip(j as nat);
    }
}

/// A generated deck of at most 52 cards holds each card at most once.
pub proof fn lemma_generated_deck_distinct(deck: Deck, size: u8)
    requires
        size <= 52,
        deck.deck@.to_multiset() == ordered_cards(size as nat).to_multiset(),
    ensures
        deck.deck@.no_duplicates(),
{
    lemma_ordered_cards_distinct(size as nat);
    ordered_cards(size as nat).lemma_multiset_has_no_duplicates();
    deck.deck@.lemma_multiset_has_no_duplicates_conv();
}

} // verus!
