//! The custom emoji that draw a card face on two lines: the value in red or
//! black on top, the suit below.

use vstd::prelude::*;

verus! {

/// The red value emoji for index `idx` (0 the ace, 1 the two, ..., 12 the king).
pub open spec fn red_card(idx: nat) -> Seq<char> {
    if idx == 0 { "<:rA:>"@ }
    else if idx == 1 { "<:r2:>"@ }
    else if idx == 2 { "<:r3:>"@ }
    else if idx == 3 { "<:r4:>"@ }
    else if idx == 4 { "<:r5:>"@ }
    else if idx == 5 { "<:r6:>"@ }
    else if idx == 6 { "<:r7:>"@ }
    else if idx == 7 { "<:r8:>"@ }
    else if idx == 8 { "<:r9:>"@ }
    else if idx == 9 { "<:r10:>"@ }
    else if idx == 10 { "<:rJ:>"@ }
    else if idx == 11 { "<:rQ:>"@ }
    else { "<:rK:>"@ }
}

/// The black value emoji for index `idx` (0 the ace, 1 the two, ..., 12 the king).
pub open spec fn black_card(idx: nat) -> Seq<char> {
    if idx == 0 { "<:bA:>"@ }
    else if idx == 1 { "<:b2:>"@ }
    else if idx == 2 { "<:b3:>"@ }
    else if idx == 3 { "<:b4:>"@ }
    else if idx == 4 { "<:b5:>"@ }
    else if idx == 5 { "<:b6:>"@ }
    else if idx == 6 { "<:b7:>"@ }
    else if idx == 7 { "<:b8:>"@ }
    else if idx == 8 { "<:b9:>"@ }
    else if idx == 9 { "<:b10:>"@ }
    else if idx == 10 { "<:bJ:>"@ }
    else if idx == 11 { "<:bQ:>"@ }
    else { "<:bK:>"@ }
}

/// The suit emoji for suit `s` (0 diamonds, 1 hearts, 2 clubs, 3 spades).
pub open spec fn suite_emoji(s: nat) -> Seq<char> {
    if s == 0 { "<:s_diamonds:>"@ }
    else if s == 1 { "<:s_hearts:>"@ }
    else if s == 2 { "<:s_clubs:>"@ }
    else { "<:s_spades:>"@ }
}

pub fn red_cards(idx: usize) -> (r: &'static str)
    requires
        idx < 13,
    ensures
        r@ == red_card(idx as nat),
{
    if idx == 0 { "<:rA:>" }
    else if idx == 1 { "<:r2:>" }
    else if idx == 2 { "<:r3:>" }
    else if idx == 3 { "<:r4:>" }
    else if idx == 4 { "<:r5:>" }
    else if idx == 5 { "<:r6:>" }
    else if idx == 6 { "<:r7:>" }
    else if idx == 7 { "<:r8:>" }
    else if idx == 8 { "<:r9:>" }
    else if idx == 9 { "<:r10:>" }
    else if idx == 10 { "<:rJ:>" }
    else if idx == 11 { "<:rQ:>" }
    else { "<:rK:>" }
}

pub fn black_cards(idx: usize) -> (r: &'static str)
    requires
        idx < 13,
    ensures
        r@ == black_card(idx as nat),
{
    if idx == 0 { "<:bA:>" }
    else if idx == 1 { "<:b2:>" }
    else if idx == 2 { "<:b3:>" }
    else if idx == 3 { "<:b4:>" }
    else if idx == 4 { "<:b5:>" }
    else if idx == 5 { "<:b6:>" }
    else if idx == 6 { "<:b7:>" }
    else if idx == 7 { "<:b8:>" }
    else if idx == 8 { "<:b9:>" }
    else if idx == 9 { "<:b10:>" }
    else if idx == 10 { "<:bJ:>" }
    else if idx == 11 { "<:bQ:>" }
    else { "<:bK:>" }
}

pub fn suites(s: usize) -> (r: &'static str)
    requires
        s < 4,
    ensures
        r@ == suite_emoji(s as nat),
{
    if s == 0 { "<:s_diamonds:>" }
    else if s == 1 { "<:s_hearts:>" }
    else if s == 2 { "<:s_clubs:>" }
    else { "<:s_spades:>" }
}

} // verus!
