//! The bets a player can name on the roulette table.

use vstd::prelude::*;

use crate::sql::structs::{BettingTypes, RouletteBet, stored_type};
use crate::text::{dec, parse_u8, parse_unsigned, push_dec, str_eq};

verus! {

/// A bet as the player names it.
#[derive(Debug, Clone, Copy, PartialEq, Eq, Structural)]
pub enum BettingTypesEnum {
    Red,
    Black,
    Green,
    Even,
    Odd,
    Low,
    High,
    Specific(u8),
    Invalid,
}

/// The bet a name selects: a colour, parity or half by its name, a single
/// number by "specific" or "number" (the number comes separately) or by the
/// number itself from 0 to 36; anything else is invalid.
pub open spec fn bet_type_of(s: Seq<char>) -> BettingTypesEnum {
    if s == "red"@ {
        BettingTypesEnum::Red
    } else if s == "black"@ {
        BettingTypesEnum::Black
    } else if s == "green"@ {
        BettingTypesEnum::Green
    } else if s == "even"@ {
        BettingTypesEnum::Even
    } else if s == "odd"@ {
        BettingTypesEnum::Odd
    } else if s == "low"@ {
        BettingTypesEnum::Low
    } else if s == "high"@ {
        BettingTypesEnum::High
    } else if s == "specific"@ || s == "number"@ {
        BettingTypesEnum::Specific(0)
    } else {
        match parse_unsigned(s, 255) {
            Some(v) => if v > 36 { BettingTypesEnum::Invalid } else { BettingTypesEnum::Specific(v as u8) },
            None => BettingTypesEnum::Invalid,
        }
    }
}

/// The number of each kind of bet: 1 to 7 for red, black, green, even, odd,
/// low and high, 8 for a single number, 0 when invalid.
pub open spec fn bet_type_number(b: BettingTypesEnum) -> u8 {
    match b {
        BettingTypesEnum::Red => 1,
        BettingTypesEnum::Black => 2,
        BettingTypesEnum::Green => 3,
        BettingTypesEnum::Even => 4,
        BettingTypesEnum::Odd => 5,
        BettingTypesEnum::Low => 6,
        BettingTypesEnum::High => 7,
        BettingTypesEnum::Specific(_) => 8,
        BettingTypesEnum::Invalid => 0,
    }
}

/// How a bet is shown: its name, or its number.
pub open spec fn bet_type_text(b: BettingTypesEnum) -> Seq<char> {
    match b {
        BettingTypesEnum::Red => "Red"@,
        BettingTypesEnum::Black => "Black"@,
        BettingTypesEnum::Green => "Green"@,
        BettingTypesEnum::Even => "Even"@,
        BettingTypesEnum::Odd => "Odd"@,
        BettingTypesEnum::Low => "Low"@,
        BettingTypesEnum::High => "High"@,
        BettingTypesEnum::Specific(v) => dec(v as nat),
        BettingTypesEnum::Invalid => "Invalid"@,
    }
}

impl BettingTypesEnum {
    /// The bet named `bet_type`.
    pub fn from_name(bet_type: &str) -> (r: BettingTypesEnum)
        ensures
            r == bet_type_of(bet_type@),
    {
        if str_eq(bet_type, "red") {
            BettingTypesEnum::Red
        } else if str_eq(bet_type, "black") {
            BettingTypesEnum::Black
        } else if str_eq(bet_type, "green") {
            BettingTypesEnum::Green
        } else if str_eq(bet_type, "even") {
            BettingTypesEnum::Even
        } else if str_eq(bet_type, "odd") {
            BettingTypesEnum::Odd
        } else if str_eq(bet_type, "low") {
            BettingTypesEnum::Low
        } else if str_eq(bet_type, "high") {
            BettingTypesEnum::High
        } else if str_eq(bet_type, "specific") || str_eq(bet_type, "number") {
            BettingTypesEnum::Specific(0)
        } else {
            match parse_u8(bet_type) {
                Some(v) => if v > 36 { BettingTypesEnum::Invalid } else { BettingTypesEnum::Specific(v) },
                None => BettingTypesEnum::Invalid,
            }
        }
    }

    /// The number of a single-number bet.
    pub fn get_specific(&self) -> (r: Option<u8>)
        ensures
            r == match *self { BettingTypesEnum::Specific(v) => Some(v), _ => None },
    {
        match self {
            BettingTypesEnum::Specific(v) => Some(*v),
            _ => None,
        }
    }

    /// Makes this a bet on the single number `v`.
    pub fn set_specific(&mut self, v: u8)
        ensures
            *final(self) == BettingTypesEnum::Specific(v),
    {
        *self = BettingTypesEnum::Specific(v);
    }

    /// The number of this kind of bet.
    pub fn derive_integer(&mut self) -> (r: u8)
        ensures
            r == bet_type_number(*old(self)),
            *final(self) == *old(self),
    {
        match self {
            BettingTypesEnum::Red => 1,
            BettingTypesEnum::Black => 2,
            BettingTypesEnum::Green => 3,
            BettingTypesEnum::Even => 4,
            BettingTypesEnum::Odd => 5,
            BettingTypesEnum::Low => 6,
            BettingTypesEnum::High => 7,
            BettingTypesEnum::Specific(_v) => 8,
            BettingTypesEnum::Invalid => 0,
        }
    }

    /// How the bet is shown.
    pub fn to_display_string(&self) -> (r: String)
        ensures
            r@ == bet_type_text(*self),
    {
        match self {
            BettingTypesEnum::Red => String::from_str("Red"),
            BettingTypesEnum::Black => String::from_str("Black"),
            BettingTypesEnum::Green => String::from_str("Green"),
            BettingTypesEnum::Even => String::from_str("Even"),
            BettingTypesEnum::Odd => String::from_str("Odd"),
            BettingTypesEnum::Low => String::from_str("Low"),
            BettingTypesEnum::High => String::from_str("High"),
            BettingTypesEnum::Specific(v) => {
                let mut out = String::new();
                push_dec(&mut out, *v as u64);
                assert(out@ =~= dec(*v as nat));
                out
            },
            BettingTypesEnum::Invalid => String::from_str("Invalid"),
        }
    }
}

/// Why a bet request could not be read.
#[derive(Debug, Clone, Copy, PartialEq, Eq, Structural)]
pub enum BetRequestError {
    /// The amount or the number of a single-number bet was not an integer.
    ExpectedInteger,
}

/// The bet a request names once its number is known: a single-number bet
/// takes the request's number, which must lie between 0 and 36.
pub open spec fn resolved_bet_type(named: BettingTypesEnum, number: Option<i64>) -> Result<BettingTypesEnum, BetRequestError> {
    if bet_type_number(named) == 8 {
        match number {
            Some(i) => if 0 <= i <= 36 { Ok(BettingTypesEnum::Specific(i as u8)) } else { Ok(BettingTypesEnum::Invalid) },
            None => Err(BetRequestError::ExpectedInteger),
        }
    } else {
        Ok(named)
    }
}

/// Settles which bet a request names, given the number the request carries
/// for a single-number bet (`None` when it carries no integer).
pub fn resolve_bet_type(named: BettingTypesEnum, number: Option<i64>) -> (r: Result<BettingTypesEnum, BetRequestError>)
    ensures
        r == resolved_bet_type(named, number),
{
    let mut b = named;
    if b.derive_integer() == 8 {
        match number {
            Some(i) => {
                if 0 <= i && i <= 36 {
                    Ok(BettingTypesEnum::Specific(i as u8))
                } else {
                    Ok(BettingTypesEnum::Invalid)
                }
            },
            None => Err(BetRequestError::ExpectedInteger),
        }
    } else {
        Ok(named)
    }
}

/// The bet to store for a player's stake of `amount` on `bet_type`.
pub fn make_roulette_bet(uid: u64, cid: u64, gid: u64, amount: i64, bet_type: BettingTypesEnum) -> (r: RouletteBet)
    ensures
        r == (RouletteBet {
            amount,
            user_id: uid,
            channel_id: cid,
            guild_id: gid,
            bet_type: stored_type(bet_type),
            specific_bet: match bet_type { BettingTypesEnum::Specific(v) => Some(v), _ => None },
        }),
{
    let specific_bet = bet_type.get_specific();
    RouletteBet {
        amount,
        user_id: uid,
        channel_id: cid,
        guild_id: gid,
        bet_type: BettingTypes::from_bettingtypeenum(bet_type),
        specific_bet,
    }
}

/// The confirmation of a placed bet.
pub open spec fn bet_placed_text(amount: i64, bet_type: BettingTypesEnum) -> Seq<char> {
    "You have placed a bet of "@ + (if amount < 0 { "-"@ + dec((-amount) as nat) } else { dec(amount as nat) })
        + " on "@ + bet_type_text(bet_type) + "!"@
}

/// The confirmation of a placed bet.
pub fn bet_placed_message(amount: i64, bet_type: BettingTypesEnum) -> (r: String)
    ensures
        r@ == bet_placed_text(amount, bet_type),
{
    let mut out = String::from_str("You have placed a bet of ");
    if amount < 0 {
        out.append("-");
        let magnitude: u64 = if amount == i64::MIN { 0x8000_0000_0000_0000 } else { (0 - amount) as u64 };
        push_dec(&mut out, magnitude);
    } else {
        push_dec(&mut out, amount as u64);
    }
    out.append(" on ");
    let shown = bet_type.to_display_string();
    out.append(shown.as_str());
    out.append("!");
    assert(out@ =~= bet_placed_text(amount, bet_type));
    out
}

} // verus!
