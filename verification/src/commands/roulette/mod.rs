//! Roulette: the bets a player names and the odds they pay.

pub mod roulette_bet;
pub mod roulette_odds;

use vstd::prelude::*;

use crate::text::str_eq;

verus! {

/// The roulette slash commands.
#[derive(Debug, Clone, Copy, PartialEq, Eq, Structural)]
pub enum RouletteCommandsEnum {
    Roulette,
    RouletteOdds,
    RouletteTable,
    InvalidCommand,
}

/// The command a slash command's name selects.
pub open spec fn roulette_command_of(s: Seq<char>) -> RouletteCommandsEnum {
    if s == "roulette"@ {
        RouletteCommandsEnum::Roulette
    } else if s == "roulette_odds"@ {
        RouletteCommandsEnum::RouletteOdds
    } else if s == "roulette_table"@ {
        RouletteCommandsEnum::RouletteTable
    } else {
        RouletteCommandsEnum::InvalidCommand
    }
}

impl RouletteCommandsEnum {
    /// The command named `command`.
    pub fn from_str(command: &str) -> (r: RouletteCommandsEnum)
        ensures
            r == roulette_command_of(command@),
    {
        if str_eq(command, "roulette") {
            RouletteCommandsEnum::Roulette
        } else if str_eq(command, "roulette_odds") {
            RouletteCommandsEnum::RouletteOdds
        } else if str_eq(command, "roulette_table") {
            RouletteCommandsEnum::RouletteTable
        } else {
            RouletteCommandsEnum::InvalidCommand
        }
    }
}

} // verus!
