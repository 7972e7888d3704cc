//! The bot opponent: what it does on its turn.

use rand::Rng;
use rand::rngs::StdRng;
use vstd::prelude::*;

use crate::commands::poker::flow::{PlayerAction, call_amount, call_amount_of};
use crate::commands::poker::session::{PokerGameState, BOT_USER_ID, capped_sum};

verus! {

/// A seedable random number generator of the rand crate.
#[verifier::external_type_specification]
#[verifier::external_body]
pub struct ExStdRng(StdRng);

/// A whole number below 100 drawn from `rng`: `Rng::gen_range(0..100)` of the
/// rand crate. Only the range is stated; the number is left to chance.
#[verifier::external_body]
fn roll_percent(rng: &mut StdRng) -> (r: u64)
    ensures
        r < 100,
{
    rng.gen_range(0..100)
}

/// The raise the bot makes.
pub const BOT_RAISE: u64 = 50;

/// The bot's move when it must add `to_call` to stay in, holds `balance`,
/// and rolled `roll` out of 100. Unable to call, it shoves now and then if it
/// has chips, else folds. With nothing to call it mostly checks, sometimes
/// raises, and otherwise shoves (or checks when broke). Facing a bet it
/// mostly calls, sometimes raises or shoves when it can afford to, and
/// otherwise folds.
pub open spec fn bot_choice(to_call: u64, balance: u64, roll: u64) -> (PlayerAction, Option<u64>) {
    if to_call > balance {
        if balance > 0 && roll < 30 { (PlayerAction::AllIn, None) } else { (PlayerAction::Fold, None) }
    } else if to_call == 0 {
        if roll < 70 {
            (PlayerAction::CheckCall, None)
        } else if roll < 90 && balance >= BOT_RAISE {
            (PlayerAction::Raise, Some(BOT_RAISE))
        } else if balance > 0 {
            (PlayerAction::AllIn, None)
        } else {
            (PlayerAction::CheckCall, None)
        }
    } else {
        if roll < 60 {
            (PlayerAction::CheckCall, None)
        } else if roll < 85 && balance >= capped_sum(to_call, BOT_RAISE) {
            (PlayerAction::Raise, Some(BOT_RAISE))
        } else if roll < 95 && balance > to_call {
            (PlayerAction::AllIn, None)
        } else {
            (PlayerAction::Fold, None)
        }
    }
}

/// The bot's move for a given roll.
pub fn decide_from_roll(to_call: u64, balance: u64, roll: u64) -> (r: (PlayerAction, Option<u64>))
    ensures
        r == bot_choice(to_call, balance, roll),
{
    if to_call > balance {
        if balance > 0 && roll < 30 {
            return (PlayerAction::AllIn, None);
        }
        return (PlayerAction::Fold, None);
    }
    if to_call == 0 {
        if roll < 70 {
            (PlayerAction::CheckCall, None)
        } else if roll < 90 && balance >= BOT_RAISE {
            (PlayerAction::Raise, Some(BOT_RAISE))
        } else if balance > 0 {
            (PlayerAction::AllIn, None)
        } else {
            (PlayerAction::CheckCall, None)
        }
    } else {
        if roll < 60 {
            (PlayerAction::CheckCall, None)
        } else if roll < 85 && balance >= to_call.saturating_add(BOT_RAISE) {
            (PlayerAction::Raise, Some(BOT_RAISE))
        } else if roll < 95 && balance > to_call {
            (PlayerAction::AllIn, None)
        } else {
            (PlayerAction::Fold, None)
        }
    }
}

/// The bot's move at `state`, rolling `rng` when the move is not forced:
/// the move of `bot_choice` for some roll below 100.
pub fn decide_action(state: &PokerGameState, rng: &mut StdRng) -> (r: (PlayerAction, Option<u64>))
    ensures
        exists|roll: u64| roll < 100
            && r == #[trigger] bot_choice(call_amount_of(state@, BOT_USER_ID), state@.bot_balance, roll),
{
    let to_call = call_amount(state, BOT_USER_ID);
    let balance = state.bot_balance;
    if to_call > balance && balance == 0 {
        let r = (PlayerAction::Fold, None);
        assert(r == bot_choice(call_amount_of(state@, BOT_USER_ID), state@.bot_balance, 0));
        return r;
    }
    let roll = roll_percent(rng);
    let r = decide_from_roll(to_call, balance, roll);
    assert(r == bot_choice(call_amount_of(state@, BOT_USER_ID), state@.bot_balance, roll));
    r
}

/// The bot never bets chips it does not have: a raise leaves it able to pay
/// the call and the raise, an all-in needs chips, and a bot without chips
/// facing a bet folds. (A call so large that adding the raise overflows is
/// left out.)
pub proof fn lemma_bot_stays_within_stack(to_call: u64, balance: u64, roll: u64)
    requires
        to_call + BOT_RAISE <= u64::MAX,
    ensures
        bot_choice(to_call, balance, roll).0 == PlayerAction::Raise ==>
            bot_choice(to_call, balance, roll).1 == Some(BOT_RAISE) && to_call + BOT_RAISE <= balance,
        bot_choice(to_call, balance, roll).0 == PlayerAction::AllIn ==> balance > 0,
        bot_choice(to_call, balance, roll).0 == PlayerAction::CheckCall ==> to_call <= balance,
        to_call > balance ==> bot_choice(to_call, balance, roll).0 == PlayerAction::Fold
            || bot_choice(to_call, balance, roll).0 == PlayerAction::AllIn,
        to_call > 0 && balance == 0 ==> bot_choice(to_call, balance, roll).0 == PlayerAction::Fold,
        to_call == 0 && balance == 0 ==> bot_choice(to_call, balance, roll).0 == PlayerAction::CheckCall,
{
}

} // verus!
