//! Balance arithmetic: every change saturates at the bounds of an `i64`.

use vstd::prelude::*;

use crate::redis::users::STARTING_BAL;

verus! {

/// `v` clamped to the range of an `i64`.
pub open spec fn clamp_i64(v: int) -> i64 {
    if v > i64::MAX { i64::MAX } else if v < i64::MIN { i64::MIN } else { v as i64 }
}

/// The balance after adding `delta`, saturating.
pub fn balance_after_change(current: i64, delta: i64) -> (r: i64)
    ensures
        r == clamp_i64(current + delta),
{
    match current.checked_add(delta) {
        Some(v) => v,
        None => if delta > 0 { i64::MAX } else { i64::MIN },
    }
}

/// The change logged when a balance goes from `current` to `new_balance`, saturating.
pub fn logged_delta(current: i64, new_balance: i64) -> (r: i64)
    ensures
        r == clamp_i64(new_balance - current),
{
    match new_balance.checked_sub(current) {
        Some(v) => v,
        None => if current < 0 { i64::MAX } else { i64::MIN },
    }
}

/// The change that resets a balance of `current` to the starting balance, saturating.
pub fn reset_delta(current: i64) -> (r: i64)
    ensures
        r == clamp_i64(STARTING_BAL - current),
{
    match STARTING_BAL.checked_sub(current) {
        Some(v) => v,
        None => if current < 0 { i64::MAX } else { i64::MIN },
    }
}

/// Resetting a balance brings it back to the starting balance, unless the
/// balance is so negative that the difference does not fit in an `i64`.
pub proof fn lemma_reset_restores_starting_balance(current: i64)
    requires
        STARTING_BAL - current <= i64::MAX,
    ensures
        clamp_i64(current + clamp_i64(STARTING_BAL - current)) == STARTING_BAL,
{
}

/// Setting a balance logs the change that leads from the old balance to the
/// new one, when that change fits in an `i64`.
pub proof fn lemma_logged_delta_leads_to_new_balance(current: i64, new_balance: i64)
    requires
        i64::MIN <= new_balance - current <= i64::MAX,
    ensures
        clamp_i64(current + clamp_i64(new_balance - current)) == new_balance,
{
}

} // verus!
