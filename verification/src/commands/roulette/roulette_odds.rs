//! The odds the roulette table pays on each bet.

use vstd::prelude::*;

use crate::commands::roulette::roulette_bet::{BettingTypesEnum, bet_type_of};
use crate::sql::structs::{betting_type_id, stored_type};
use crate::text::{lemma_parse_u8_as_i32, parse_i32, parse_i32_spec, str_eq};
use crate::utils::roulette::payout;

verus! {

/// The odds quoted for a bet name: 1 to 1 on a colour, parity or half,
/// 17 to 1 on green (0 and 00), 35 to 1 on a number from 0 to 36 (read as
/// an `i32`), and "Invalid option" for anything else.
pub open spec fn odds_text(s: Seq<char>) -> Seq<char> {
    if s == "red"@ || s == "black"@ || s == "odd"@ || s == "even"@ || s == "low"@ || s == "high"@ {
        "1 to 1"@
    } else if s == "green"@ {
        "17 to 1"@
    } else {
        match parse_i32_spec(s) {
            Some(i) => if 0 <= i <= 36 { "35 to 1"@ } else { "Invalid option"@ },
            None => "Invalid option"@,
        }
    }
}

/// The odds quoted for a bet name.
pub fn get_odds(option: &str) -> (r: String)
    ensures
        r@ == odds_text(option@),
{
    if str_eq(option, "red") || str_eq(option, "black") || str_eq(option, "odd") || str_eq(option, "even")
        || str_eq(option, "low") || str_eq(option, "high") {
        String::from_str("1 to 1")
    } else if str_eq(option, "green") {
        String::from_str("17 to 1")
    } else {
        match parse_i32(option) {
            Some(i) => if 0 <= i && i <= 36 { String::from_str("35 to 1") } else { String::from_str("Invalid option") },
            None => String::from_str("Invalid option"),
        }
    }
}

/// How odds of `n` to 1 are written.
pub open spec fn odds_phrase(n: int) -> Seq<char> {
    if n == 35 { "35 to 1"@ } else if n == 17 { "17 to 1"@ } else if n == 1 { "1 to 1"@ } else { "Invalid option"@ }
}

/// The odds quoted for a valid bet name are the odds the table pays when
/// that bet wins. ("specific" and "number" name a single-number bet whose
/// number comes separately, so no odds are quoted for them.)
pub proof fn lemma_quoted_odds_are_paid(s: Seq<char>)
    requires
        bet_type_of(s) != BettingTypesEnum::Invalid,
        s != "specific"@,
        s != "number"@,
    ensures
        odds_text(s) == odds_phrase(payout(betting_type_id(stored_type(bet_type_of(s))))),
{
    reveal_strlit("red");
    reveal_strlit("black");
    reveal_strlit("green");
    reveal_strlit("even");
    reveal_strlit("odd");
    reveal_strlit("low");
    reveal_strlit("high");
    if s == "green"@ {
        assert(s != "red"@ && s != "black"@ && s != "odd"@ && s != "even"@ && s != "low"@ && s != "high"@) by {
            assert(s[0] == 'g');
        }
    } else if !(s == "red"@ || s == "black"@ || s == "even"@ || s == "odd"@ || s == "low"@ || s == "high"@) {
        lemma_parse_u8_as_i32(s);
    }
}

} // verus!
