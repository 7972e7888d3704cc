//! Player accounts: where a balance is kept and how a lookup reads it.

use vstd::prelude::*;

use crate::text::{dec, push_dec};

verus! {

/// The balance of a new account.
pub const STARTING_BAL: i64 = 10000;

/// The key of a player's balance in a guild: `user_<uid>_<gid>`.
pub open spec fn user_key_text(uid: u64, gid: u64) -> Seq<char> {
    "user_"@ + dec(uid as nat) + "_"@ + dec(gid as nat)
}

/// The key of a player's balance in a guild.
pub fn user_key(uid: u64, gid: u64) -> (r: String)
    ensures
        r@ == user_key_text(uid, gid),
{
    let mut out = String::from_str("user_");
    push_dec(&mut out, uid);
    out.append("_");
    push_dec(&mut out, gid);
    out
}

/// The balance read from storage: an unreadable or missing value reads as 0.
pub fn read_balance(raw: Option<i64>) -> (r: i64)
    ensures
        r == match raw { Some(v) => v, None => 0 },
{
    match raw {
        Some(v) => v,
        None => 0,
    }
}

/// A balance of 0 means the player has no account yet: one is opened.
pub fn needs_account(bal: i64) -> (r: bool)
    ensures
        r == (bal == 0),
{
    bal == 0
}

/// The balance a lookup reports: the stored balance, or for a player
/// without an account the starting balance once the account was opened
/// (0 when opening it failed).
pub fn looked_up_balance(bal: i64, account_opened: bool) -> (r: i64)
    ensures
        r == if bal == 0 { if account_opened { STARTING_BAL } else { 0 } } else { bal },
{
    if bal == 0 {
        if account_opened { STARTING_BAL } else { 0 }
    } else {
        bal
    }
}

/// The balance once `add` is added to it.
pub fn added_balance(bal: i64, add: i64) -> (r: i64)
    requires
        i64::MIN <= bal + add <= i64::MAX,
    ensures
        r == bal + add,
{
    bal + add
}

/// What a settled roulette bet does to its player's account.
#[derive(Debug, Clone, Copy, PartialEq, Eq, Structural)]
pub enum WinningsAction {
    /// The player won: the amount is credited and logged as a win.
    Credit(i64),
    /// The player lost: the amount (negative) is logged as a loss.
    LogLoss(i64),
    /// Nothing to do.
    Nothing,
}

/// What a settled bet with result `net` does to its player's account.
pub fn winnings_action(net: i64) -> (r: WinningsAction)
    ensures
        r == if net > 0 {
            WinningsAction::Credit(net)
        } else if net < 0 {
            WinningsAction::LogLoss(net)
        } else {
            WinningsAction::Nothing
        },
{
    if net > 0 {
        WinningsAction::Credit(net)
    } else if net < 0 {
        WinningsAction::LogLoss(net)
    } else {
        WinningsAction::Nothing
    }
}

} // verus!
