//! Shared game utilities: the card emoji, decks, roulette, balances, start-up
//! cleanup and command routing.

pub mod card_ascii;
pub mod cleanup;
pub mod command_handler;
pub mod deck;
pub mod money;
pub mod roulette;

use vstd::prelude::*;

verus! {

/// The name of a game by its id: 0 is poker.
pub open spec fn game_name(game_id: u8) -> Seq<char> {
    if game_id == 0 { "poker"@ } else { "unknown"@ }
}

/// The name of a game by its id.
pub fn game_id_to_name(game_id: u8) -> (r: String)
    ensures
        r@ == game_name(game_id),
{
    if game_id == 0 {
        String::from_str("poker")
    } else {
        String::from_str("unknown")
    }
}

} // verus!
