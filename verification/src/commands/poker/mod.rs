//! Texas Hold'em: hand evaluation, table state, turn flow, the bot and the
//! table's buttons and text.

pub mod bot;
pub mod components;
pub mod flow;
pub mod hand_evaluator;
pub mod poker_discard;
pub mod session;
pub mod ui;

use vstd::prelude::*;

use crate::text::str_eq;

verus! {

/// The poker slash commands.
#[derive(Debug, Clone, Copy, PartialEq, Eq, Structural)]
pub enum PokerCommandsEnum {
    Join,
    Leave,
    Start,
    Hand,
    InvalidCommand,
}

/// The command a slash command's name selects.
pub open spec fn poker_command_of(s: Seq<char>) -> PokerCommandsEnum {
    if s == "pjoin"@ {
        PokerCommandsEnum::Join
    } else if s == "pstart"@ {
        PokerCommandsEnum::Start
    } else if s == "pleave"@ {
        PokerCommandsEnum::Leave
    } else if s == "phand"@ {
        PokerCommandsEnum::Hand
    } else {
        PokerCommandsEnum::InvalidCommand
    }
}

/// The name of each command.
pub open spec fn poker_command_name(c: PokerCommandsEnum) -> Seq<char> {
    match c {
        PokerCommandsEnum::Join => "pjoin"@,
        PokerCommandsEnum::Leave => "pleave"@,
        PokerCommandsEnum::Start => "pstart"@,
        PokerCommandsEnum::Hand => "phand"@,
        PokerCommandsEnum::InvalidCommand => "invalid"@,
    }
}

impl PokerCommandsEnum {
    /// The command named `command`.
    pub fn from_name(command: &str) -> (r: PokerCommandsEnum)
        ensures
            r == poker_command_of(command@),
    {
        if str_eq(command, "pjoin") {
            PokerCommandsEnum::Join
        } else if str_eq(command, "pstart") {
            PokerCommandsEnum::Start
        } else if str_eq(command, "pleave") {
            PokerCommandsEnum::Leave
        } else if str_eq(command, "phand") {
            PokerCommandsEnum::Hand
        } else {
            PokerCommandsEnum::InvalidCommand
        }
    }

    /// The command's name.
    pub fn to_str(&self) -> (r: &'static str)
        ensures
            r@ == poker_command_name(*self),
    {
        match self {
            PokerCommandsEnum::Join => "pjoin",
            PokerCommandsEnum::Leave => "pleave",
            PokerCommandsEnum::Start => "pstart",
            PokerCommandsEnum::Hand => "phand",
            PokerCommandsEnum::InvalidCommand => "invalid",
        }
    }
}

/// Reading a command's name gives the command back; the name of the invalid
/// command reads as invalid too.
pub proof fn lemma_poker_command_roundtrip(c: PokerCommandsEnum)
    ensures
        poker_command_of(poker_command_name(c)) == c,
{
    reveal_strlit("pjoin");
    reveal_strlit("pstart");
    reveal_strlit("pleave");
    reveal_strlit("phand");
    reveal_strlit("invalid");
    assert("pjoin"@ != "pstart"@) by { assert("pjoin"@.len() != "pstart"@.len()); }
    assert("pjoin"@ != "pleave"@) by { assert("pjoin"@.len() != "pleave"@.len()); }
    assert("pjoin"@ != "phand"@) by { assert("pjoin"@[1] != "phand"@[1]); }
    assert("pstart"@ != "pleave"@) by { assert("pstart"@[1] != "pleave"@[1]); }
    assert("pstart"@ != "phand"@) by { assert("pstart"@.len() != "phand"@.len()); }
    assert("pleave"@ != "phand"@) by { assert("pleave"@.len() != "phand"@.len()); }
    assert("invalid"@ != "pjoin"@) by { assert("invalid"@[0] != "pjoin"@[0]); }
    assert("invalid"@ != "pstart"@) by { assert("invalid"@[0] != "pstart"@[0]); }
    assert("invalid"@ != "pleave"@) by { assert("invalid"@[0] != "pleave"@[0]); }
    assert("invalid"@ != "phand"@) by { assert("invalid"@[0] != "phand"@[0]); }
}

} // verus!
