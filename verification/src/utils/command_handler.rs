//! Which part of the bot handles each slash command.

use vstd::prelude::*;

use crate::text::str_eq;

verus! {

/// The groups of commands.
#[derive(Debug, Clone, Copy, PartialEq, Eq, Structural)]
pub enum CategoriesEnum {
    Money,
    Roulette,
    Poker,
    Slots,
    Blackjack,
    Mod,
    Help,
    InvalidCategory,
}

/// The group a group name selects.
pub open spec fn category_of_name(s: Seq<char>) -> CategoriesEnum {
    if s == "money"@ {
        CategoriesEnum::Money
    } else if s == "roulette"@ {
        CategoriesEnum::Roulette
    } else if s == "poker"@ {
        CategoriesEnum::Poker
    } else if s == "slots"@ {
        CategoriesEnum::Slots
    } else if s == "blackjack"@ {
        CategoriesEnum::Blackjack
    } else if s == "mod"@ {
        CategoriesEnum::Mod
    } else if s == "help"@ {
        CategoriesEnum::Help
    } else {
        CategoriesEnum::InvalidCategory
    }
}

impl CategoriesEnum {
    /// The group named `category`.
    pub fn from_name(category: &str) -> (r: CategoriesEnum)
        ensures
            r == category_of_name(category@),
    {
        if str_eq(category, "money") {
            CategoriesEnum::Money
        } else if str_eq(category, "roulette") {
            CategoriesEnum::Roulette
        } else if str_eq(category, "poker") {
            CategoriesEnum::Poker
        } else if str_eq(category, "slots") {
            CategoriesEnum::Slots
        } else if str_eq(category, "blackjack") {
            CategoriesEnum::Blackjack
        } else if str_eq(category, "mod") {
            CategoriesEnum::Mod
        } else if str_eq(category, "help") {
            CategoriesEnum::Help
        } else {
            CategoriesEnum::InvalidCategory
        }
    }
}

/// The group that handles a command: the balance commands (`set_bal` is
/// not among them), the roulette commands, the poker commands, slots and
/// blackjack; anything else is invalid.
pub open spec fn category_of_command(s: Seq<char>) -> CategoriesEnum {
    if s == "bal"@ || s == "reset_bal"@ || s == "reset_user_bal"@ {
        CategoriesEnum::Money
    } else if s == "roulette"@ || s == "roulette_odds"@ || s == "roulette_table"@ {
        CategoriesEnum::Roulette
    } else if s == "pstart"@ || s == "pjoin"@ || s == "pleave"@ || s == "phand"@ {
        CategoriesEnum::Poker
    } else if s == "slots"@ {
        CategoriesEnum::Slots
    } else if s == "blackjack"@ {
        CategoriesEnum::Blackjack
    } else {
        CategoriesEnum::InvalidCategory
    }
}

/// The group that handles a command.
pub fn command_to_category(command: &str) -> (r: CategoriesEnum)
    ensures
        r == category_of_command(command@),
{
    if str_eq(command, "bal") || str_eq(command, "reset_bal") || str_eq(command, "reset_user_bal") {
        CategoriesEnum::Money
    } else if str_eq(command, "roulette") || str_eq(command, "roulette_odds") || str_eq(command, "roulette_table") {
        CategoriesEnum::Roulette
    } else if str_eq(command, "pstart") || str_eq(command, "pjoin") || str_eq(command, "pleave")
        || str_eq(command, "phand") {
        CategoriesEnum::Poker
    } else if str_eq(command, "slots") {
        CategoriesEnum::Slots
    } else if str_eq(command, "blackjack") {
        CategoriesEnum::Blackjack
    } else {
        CategoriesEnum::InvalidCategory
    }
}

} // verus!
