//! Card faces, suits, roulette bet kinds and settled bet records.

use vstd::prelude::*;

use crate::commands::roulette::roulette_bet::BettingTypesEnum;
use crate::text::{dec, push_dec, push_signed, signed_dec};

verus! {

/// The face of a card. `ONE` is the ace.
#[derive(Debug, Clone, Copy, PartialEq, Eq, Structural)]
pub enum Card {
    ONE,
    TWO,
    THREE,
    FOUR,
    FIVE,
    SIX,
    SEVEN,
    EIGHT,
    NINE,
    TEN,
    JACK,
    QUEEN,
    KING,
}

/// The suit of a card.
#[derive(Debug, Clone, Copy, PartialEq, Eq, Structural)]
pub enum Suite {
    DIAMONDS,
    HEARTS,
    CLUBS,
    SPADES,
}

/// The position of a face in `ONE`..`KING`, from 0 to 12.
pub open spec fn card_index(c: Card) -> nat {
    match c {
        Card::ONE => 0,
        Card::TWO => 1,
        Card::THREE => 2,
        Card::FOUR => 3,
        Card::FIVE => 4,
        Card::SIX => 5,
        Card::SEVEN => 6,
        Card::EIGHT => 7,
        Card::NINE => 8,
        Card::TEN => 9,
        Card::JACK => 10,
        Card::QUEEN => 11,
        Card::KING => 12,
    }
}

/// The position of a suit in `DIAMONDS`..`SPADES`, from 0 to 3.
pub open spec fn suite_index(s: Suite) -> nat {
    match s {
        Suite::DIAMONDS => 0,
        Suite::HEARTS => 1,
        Suite::CLUBS => 2,
        Suite::SPADES => 3,
    }
}

/// The name a face is shown by.
pub open spec fn card_name(c: Card) -> Seq<char> {
    match c {
        Card::ONE => "ONE"@,
        Card::TWO => "TWO"@,
        Card::THREE => "THREE"@,
        Card::FOUR => "FOUR"@,
        Card::FIVE => "FIVE"@,
        Card::SIX => "SIX"@,
        Card::SEVEN => "SEVEN"@,
        Card::EIGHT => "EIGHT"@,
        Card::NINE => "NINE"@,
        Card::TEN => "TEN"@,
        Card::JACK => "JACK"@,
        Card::QUEEN => "QUEEN"@,
        Card::KING => "KING"@,
    }
}

impl Card {
    /// The name this value is shown by.
    pub fn to_display_string(&self) -> (r: &'static str)
        ensures
            r@ == card_name(*self),
    {
        match self {
            Card::ONE => {
                proof { reveal_strlit("ONE"); }
                "ONE"
            },
            Card::TWO => {
                proof { reveal_strlit("TWO"); }
                "TWO"
            },
            Card::THREE => {
                proof { reveal_strlit("THREE"); }
                "THREE"
            },
            Card::FOUR => {
                proof { reveal_strlit("FOUR"); }
                "FOUR"
            },
            Card::FIVE => {
                proof { reveal_strlit("FIVE"); }
                "FIVE"
            },
            Card::SIX => {
                proof { reveal_strlit("SIX"); }
                "SIX"
            },
            Card::SEVEN => {
                proof { reveal_strlit("SEVEN"); }
                "SEVEN"
            },
            Card::EIGHT => {
                proof { reveal_strlit("EIGHT"); }
                "EIGHT"
            },
            Card::NINE => {
                proof { reveal_strlit("NINE"); }
                "NINE"
            },
            Card::TEN => {
                proof { reveal_strlit("TEN"); }
                "TEN"
            },
            Card::JACK => {
                proof { reveal_strlit("JACK"); }
                "JACK"
            },
            Card::QUEEN => {
                proof { reveal_strlit("QUEEN"); }
                "QUEEN"
            },
            Card::KING => {
                proof { reveal_strlit("KING"); }
                "KING"
            },
        }
    }

    /// The position of this face, from 0 (`ONE`) to 12 (`KING`).
    pub fn index(&self) -> (r: u8)
        ensures
            r as nat == card_index(*self),
    {
        match self {
            Card::ONE => 0,
            Card::TWO => 1,
            Card::THREE => 2,
            Card::FOUR => 3,
            Card::FIVE => 4,
            Card::SIX => 5,
            Card::SEVEN => 6,
            Card::EIGHT => 7,
            Card::NINE => 8,
            Card::TEN => 9,
            Card::JACK => 10,
            Card::QUEEN => 11,
            Card::KING => 12,
        }
    }
}

/// The name a suit is shown by.
pub open spec fn suite_name(c: Suite) -> Seq<char> {
    match c {
        Suite::DIAMONDS => "DIAMONDS"@,
        Suite::HEARTS => "HEARTS"@,
        Suite::CLUBS => "CLUBS"@,
        Suite::SPADES => "SPADES"@,
    }
}

impl Suite {
    /// The name this value is shown by.
    pub fn to_display_string(&self) -> (r: &'static str)
        ensures
            r@ == suite_name(*self),
    {
        match self {
            Suite::DIAMONDS => {
                proof { reveal_strlit("DIAMONDS"); }
                "DIAMONDS"
            },
            Suite::HEARTS => {
                proof { reveal_strlit("HEARTS"); }
                "HEARTS"
            },
            Suite::CLUBS => {
                proof { reveal_strlit("CLUBS"); }
                "CLUBS"
            },
            Suite::SPADES => {
                proof { reveal_strlit("SPADES"); }
                "SPADES"
            },
        }
    }

    /// The position of this suit, from 0 (`DIAMONDS`) to 3 (`SPADES`).
    pub fn index(&self) -> (r: u8)
        ensures
            r as nat == suite_index(*self),
    {
        match self {
            Suite::DIAMONDS => 0,
            Suite::HEARTS => 1,
            Suite::CLUBS => 2,
            Suite::SPADES => 3,
        }
    }
}


/// The kinds of roulette bet as stored, numbered 0 to 8 in this order.
#[derive(Debug, Clone, Copy, PartialEq, Eq, Structural)]
pub enum BettingTypes {
    RED,
    BLACK,
    EVEN,
    ODD,
    LOW,
    HIGH,
    SPECIFIC,
    GREEN,
    INVALID,
}

/// The stored number of a kind of bet: 0 red, 1 black, 2 even, 3 odd,
/// 4 low, 5 high, 6 a single number, 7 green, 8 invalid.
pub open spec fn betting_type_id(t: BettingTypes) -> u8 {
    match t {
        BettingTypes::RED => 0,
        BettingTypes::BLACK => 1,
        BettingTypes::EVEN => 2,
        BettingTypes::ODD => 3,
        BettingTypes::LOW => 4,
        BettingTypes::HIGH => 5,
        BettingTypes::SPECIFIC => 6,
        BettingTypes::GREEN => 7,
        BettingTypes::INVALID => 8,
    }
}

impl BettingTypes {
    /// The stored number of this kind of bet.
    pub fn id(&self) -> (r: u8)
        ensures
            r == betting_type_id(*self),
    {
        match self {
            BettingTypes::RED => 0,
            BettingTypes::BLACK => 1,
            BettingTypes::EVEN => 2,
            BettingTypes::ODD => 3,
            BettingTypes::LOW => 4,
            BettingTypes::HIGH => 5,
            BettingTypes::SPECIFIC => 6,
            BettingTypes::GREEN => 7,
            BettingTypes::INVALID => 8,
        }
    }

    /// The stored kind of a bet chosen by the player.
    pub fn from_bettingtypeenum(bet_type: BettingTypesEnum) -> (r: BettingTypes)
        ensures
            r == stored_type(bet_type),
    {
        match bet_type {
            BettingTypesEnum::Red => BettingTypes::RED,
            BettingTypesEnum::Black => BettingTypes::BLACK,
            BettingTypesEnum::Green => BettingTypes::GREEN,
            BettingTypesEnum::Even => BettingTypes::EVEN,
            BettingTypesEnum::Odd => BettingTypes::ODD,
            BettingTypesEnum::Low => BettingTypes::LOW,
            BettingTypesEnum::High => BettingTypes::HIGH,
            BettingTypesEnum::Specific(_) => BettingTypes::SPECIFIC,
            BettingTypesEnum::Invalid => BettingTypes::INVALID,
        }
    }
}

/// The stored kind of a bet chosen by the player.
pub open spec fn stored_type(bet_type: BettingTypesEnum) -> BettingTypes {
    match bet_type {
        BettingTypesEnum::Red => BettingTypes::RED,
        BettingTypesEnum::Black => BettingTypes::BLACK,
        BettingTypesEnum::Green => BettingTypes::GREEN,
        BettingTypesEnum::Even => BettingTypes::EVEN,
        BettingTypesEnum::Odd => BettingTypes::ODD,
        BettingTypesEnum::Low => BettingTypes::LOW,
        BettingTypesEnum::High => BettingTypes::HIGH,
        BettingTypesEnum::Specific(_) => BettingTypes::SPECIFIC,
        BettingTypesEnum::Invalid => BettingTypes::INVALID,
    }
}

/// A roulette bet waiting for the wheel.
#[derive(Debug, Clone, Copy, PartialEq, Eq, Structural)]
pub struct RouletteBet {
    pub amount: i64,
    pub user_id: u64,
    pub channel_id: u64,
    pub guild_id: u64,
    pub bet_type: BettingTypes,
    pub specific_bet: Option<u8>,
}

/// A bet read back for settlement. `net` starts as the stake and holds the
/// player's result once settled.
#[derive(Debug, Clone, Copy, PartialEq, Eq, Structural)]
pub struct BetResult {
    pub user_id: u64,
    pub net: i64,
    pub bet_type: u8,
    pub specific_bet: Option<u8>,
}

/// The `, specific_bet: <n>` a bet record shows when it names a number.
pub open spec fn specific_text(specific: Option<u8>) -> Seq<char> {
    match specific {
        Some(n) => ", specific_bet: "@ + dec(n as nat),
        None => Seq::empty(),
    }
}

/// Appends `specific_text(specific)` to `out`.
fn push_specific(out: &mut String, specific: Option<u8>)
    ensures
        final(out)@ == old(out)@ + specific_text(specific),
{
    match specific {
        Some(n) => {
            out.append(", specific_bet: ");
            push_dec(out, n as u64);
        },
        None => {
            assert(out@ =~= old(out)@ + specific_text(specific));
        },
    }
}

/// How a waiting bet is shown:
/// `(amount: <a>, user_id: <u>, channel_id: <c>, bet_type: <t>[, specific_bet: <n>])`.
pub open spec fn roulette_bet_text(b: RouletteBet) -> Seq<char> {
    "(amount: "@ + signed_dec(b.amount as int) + ", user_id: "@ + dec(b.user_id as nat) + ", channel_id: "@
        + dec(b.channel_id as nat) + ", bet_type: "@ + dec(betting_type_id(b.bet_type) as nat)
        + specific_text(b.specific_bet) + ")"@
}

/// How a settled bet is shown:
/// `user_id: <u>, net: <n>, bet_type: <t>[, specific_bet: <n>]`.
pub open spec fn bet_result_text(b: BetResult) -> Seq<char> {
    "user_id: "@ + dec(b.user_id as nat) + ", net: "@ + signed_dec(b.net as int) + ", bet_type: "@
        + dec(b.bet_type as nat) + specific_text(b.specific_bet)
}

impl RouletteBet {
    /// The bet as shown in the log.
    pub fn to_display_string(&self) -> (r: String)
        ensures
            r@ == roulette_bet_text(*self),
    {
        let mut out = String::from_str("(amount: ");
        push_signed(&mut out, self.amount);
        out.append(", user_id: ");
        push_dec(&mut out, self.user_id);
        out.append(", channel_id: ");
        push_dec(&mut out, self.channel_id);
        out.append(", bet_type: ");
        push_dec(&mut out, self.bet_type.id() as u64);
        push_specific(&mut out, self.specific_bet);
        out.append(")");
        out
    }
}

impl BetResult {
    /// The settled bet as shown in the log.
    pub fn to_display_string(&self) -> (r: String)
        ensures
            r@ == bet_result_text(*self),
    {
        let mut out = String::from_str("user_id: ");
        push_dec(&mut out, self.user_id);
        out.append(", net: ");
        push_signed(&mut out, self.net);
        out.append(", bet_type: ");
        push_dec(&mut out, self.bet_type as u64);
        push_specific(&mut out, self.specific_bet);
        out
    }
}

} // verus!
