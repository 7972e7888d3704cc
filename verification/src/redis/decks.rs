//! Decks kept in storage as lists of card numbers.

use vstd::prelude::*;

use crate::text::{dec, push_dec};
use crate::utils::{game_id_to_name, game_name};
use crate::sql::structs::{Card, Suite};
use crate::utils::deck::{Deck, card_of_int, card_to_int, int_of_card, int_to_card, lemma_int_of_card_roundtrip};

verus! {

/// The key of a game's deck in a channel: `deck_<game>_<cid>`.
pub open spec fn deck_key_text(game_id: u8, cid: u64) -> Seq<char> {
    "deck_"@ + game_name(game_id) + "_"@ + dec(cid as nat)
}

/// The key of a game's deck in a channel.
pub fn deck_key(game_id: u8, cid: u64) -> (r: String)
    ensures
        r@ == deck_key_text(game_id, cid),
{
    let mut out = String::from_str("deck_");
    let name = game_id_to_name(game_id);
    out.append(name.as_str());
    out.append("_");
    push_dec(&mut out, cid);
    out
}

/// A deck read back from its card numbers, in the same order.
pub fn primative_to_deck(deck_primative: Vec<u8>) -> (r: Deck)
    ensures
        r.deck@ == deck_primative@.map_values(|c: u8| card_of_int(c as nat)),
{
    let mut deck: Deck = Deck::new();
    let mut i: usize = 0;
    while i < deck_primative.len()
        invariant
            i <= deck_primative@.len(),
            deck.deck@ == deck_primative@.take(i as int).map_values(|c: u8| card_of_int(c as nat)),
        decreases deck_primative.len() - i,
    {
        deck.deck.push(int_to_card(deck_primative[i]));
        assert(deck_primative@.take(i + 1) =~= deck_primative@.take(i as int).push(deck_primative@[i as int]));
        assert(deck.deck@ =~= deck_primative@.take(i + 1).map_values(|c: u8| card_of_int(c as nat)));
        i = i + 1;
    }
    assert(deck_primative@.take(deck_primative@.len() as int) =~= deck_primative@);
    deck
}

/// The card numbers of a deck, in the same order, as they are stored.
pub fn deck_to_ints(deck: &Deck) -> (r: Vec<u8>)
    ensures
        r@.len() == deck.deck@.len(),
        forall|i: int| 0 <= i < r@.len() ==> r@[i] as nat == #[trigger] int_of_card(deck.deck@[i]),
{
    let mut r: Vec<u8> = Vec::new();
    let mut i: usize = 0;
    while i < deck.deck.len()
        invariant
            i <= deck.deck@.len(),
            r@.len() == i,
            forall|k: int| 0 <= k < i ==> r@[k] as nat == #[trigger] int_of_card(deck.deck@[k]),
        decreases deck.deck.len() - i,
    {
        r.push(card_to_int(deck.deck[i]));
        i = i + 1;
    }
    r
}

/// A deck stored as its card numbers (`deck_to_ints`) reads back
/// (`primative_to_deck`) as the same cards in the same order.
pub proof fn lemma_stored_deck_reads_back(cards: Seq<(Card, Suite)>, stored: Seq<u8>)
    requires
        stored.len() == cards.len(),
        forall|i: int| 0 <= i < stored.len() ==> stored[i] as nat == #[trigger] int_of_card(cards[i]),
    ensures
        stored.map_values(|c: u8| card_of_int(c as nat)) == cards,
{
    let read = stored.map_values(|c: u8| card_of_int(c as nat));
    assert forall|i: int| 0 <= i < cards.len() implies #[trigger] read[i] == cards[i] by {
        lemma_int_of_card_roundtrip(cards[i]);
        assert(stored[i] as nat == int_of_card(cards[i]));
    }
    assert(read =~= cards);
}

} // verus!
