//! The balance commands: which one is called, and who may change whose balance.

use vstd::prelude::*;

use crate::commands::poker::components::{colon_join, lemma_split_colon_join, no_colon};
use crate::text::{
    dec, lemma_dec_no_colon, lemma_parse_dec, parse_u64, parse_unsigned, push_dec, split_char, split_on, str_eq, str_views,
    u64_parse_error, u64_parse_error_text,
};

verus! {

/// The balance slash commands.
#[derive(Debug, Clone, Copy, PartialEq, Eq, Structural)]
pub enum MoneyCommandsEnum {
    Balance,
    ResetBalance,
    ResetUserBalance,
    SetBalance,
    InvalidCommand,
}

/// The command a slash command's name selects.
pub open spec fn money_command_of(s: Seq<char>) -> MoneyCommandsEnum {
    if s == "bal"@ {
        MoneyCommandsEnum::Balance
    } else if s == "reset_bal"@ {
        MoneyCommandsEnum::ResetBalance
    } else if s == "reset_user_bal"@ {
        MoneyCommandsEnum::ResetUserBalance
    } else if s == "set_bal"@ {
        MoneyCommandsEnum::SetBalance
    } else {
        MoneyCommandsEnum::InvalidCommand
    }
}

impl MoneyCommandsEnum {
    /// The command named `command`.
    pub fn from_name(command: &str) -> (r: MoneyCommandsEnum)
        ensures
            r == money_command_of(command@),
    {
        if str_eq(command, "bal") {
            MoneyCommandsEnum::Balance
        } else if str_eq(command, "reset_bal") {
            MoneyCommandsEnum::ResetBalance
        } else if str_eq(command, "reset_user_bal") {
            MoneyCommandsEnum::ResetUserBalance
        } else if str_eq(command, "set_bal") {
            MoneyCommandsEnum::SetBalance
        } else {
            MoneyCommandsEnum::InvalidCommand
        }
    }
}

/// Why a balance command was refused.
#[derive(Debug, Clone, Copy, PartialEq, Eq, Structural)]
pub enum MoneyError {
    MissingUserOrAmount,
    NegativeAmount,
    SetBotBalance,
    InvalidUser,
    ResetOwnBalance,
    ResetBotBalance,
    NotInServer,
    NoPermissionToSet,
    NoPermissionToReset,
}

/// The message of each refusal.
pub open spec fn money_error_text(e: MoneyError) -> Seq<char> {
    match e {
        MoneyError::MissingUserOrAmount => "Please provide a valid user and amount."@,
        MoneyError::NegativeAmount => "Amount cannot be negative."@,
        MoneyError::SetBotBalance => "You cannot set a bot's balance."@,
        MoneyError::InvalidUser => "Invalid user."@,
        MoneyError::ResetOwnBalance => "You cannot reset your own balance with this command. Use /reset_bal instead."@,
        MoneyError::ResetBotBalance => "You cannot reset a bot's balance."@,
        MoneyError::NotInServer => "That user is not in this server."@,
        MoneyError::NoPermissionToSet => "You do not have permission to set this user's balance."@,
        MoneyError::NoPermissionToReset => "You do not have permission to reset this user's balance."@,
    }
}

impl MoneyError {
    /// The message of the refusal.
    pub fn message(&self) -> (r: &'static str)
        ensures
            r@ == money_error_text(*self),
    {
        match self {
            MoneyError::MissingUserOrAmount => "Please provide a valid user and amount.",
            MoneyError::NegativeAmount => "Amount cannot be negative.",
            MoneyError::SetBotBalance => "You cannot set a bot's balance.",
            MoneyError::InvalidUser => "Invalid user.",
            MoneyError::ResetOwnBalance => "You cannot reset your own balance with this command. Use /reset_bal instead.",
            MoneyError::ResetBotBalance => "You cannot reset a bot's balance.",
            MoneyError::NotInServer => "That user is not in this server.",
            MoneyError::NoPermissionToSet => "You do not have permission to set this user's balance.",
            MoneyError::NoPermissionToReset => "You do not have permission to reset this user's balance.",
        }
    }
}

/// A member may change another member's balance when they are an
/// administrator, or when their highest role sits above the other's (or the
/// other has no role). `caller_top` and `target_top` are the positions of
/// the members' highest roles.
pub open spec fn may_moderate_spec(caller_is_admin: bool, caller_top: Option<i64>, target_top: Option<i64>) -> bool {
    caller_is_admin || match (caller_top, target_top) {
        (Some(c), Some(t)) => c > t,
        (Some(_), None) => true,
        _ => false,
    }
}

/// Whether a member may change another member's balance.
pub fn may_moderate(caller_is_admin: bool, caller_top: Option<i64>, target_top: Option<i64>) -> (r: bool)
    ensures
        r == may_moderate_spec(caller_is_admin, caller_top, target_top),
{
    if caller_is_admin {
        return true;
    }
    match (caller_top, target_top) {
        (Some(c), Some(t)) => c > t,
        (Some(_), None) => true,
        _ => false,
    }
}

/// The outcome of the first checks of a request to set a balance: both a
/// user and an amount are needed, the amount must not be negative and the
/// user must not be a bot.
pub open spec fn set_bal_check(target: Option<u64>, amount: Option<i64>, target_is_bot: bool) -> Result<(u64, i64), MoneyError> {
    match (target, amount) {
        (Some(t), Some(a)) => if a < 0 {
            Err(MoneyError::NegativeAmount)
        } else if target_is_bot {
            Err(MoneyError::SetBotBalance)
        } else {
            Ok((t, a))
        },
        _ => Err(MoneyError::MissingUserOrAmount),
    }
}

/// The first checks of a request to set a balance. Setting another
/// member's balance then needs the member in the server and `may_moderate`.
pub fn check_set_bal(target: Option<u64>, amount: Option<i64>, target_is_bot: bool) -> (r: Result<(u64, i64), MoneyError>)
    ensures
        r == set_bal_check(target, amount, target_is_bot),
{
    match (target, amount) {
        (Some(t), Some(a)) => {
            if a < 0 {
                Err(MoneyError::NegativeAmount)
            } else if target_is_bot {
                Err(MoneyError::SetBotBalance)
            } else {
                Ok((t, a))
            }
        },
        _ => Err(MoneyError::MissingUserOrAmount),
    }
}

/// The outcome of the first checks of a request to reset another member's
/// balance: a user is needed, not the caller and not a bot.
pub open spec fn reset_user_bal_check(target: Option<u64>, caller: u64, target_is_bot: bool) -> Result<u64, MoneyError> {
    match target {
        Some(t) => if t == caller {
            Err(MoneyError::ResetOwnBalance)
        } else if target_is_bot {
            Err(MoneyError::ResetBotBalance)
        } else {
            Ok(t)
        },
        None => Err(MoneyError::InvalidUser),
    }
}

/// The first checks of a request to reset another member's balance. The
/// member must then be in the server and `may_moderate` must allow it.
pub fn check_reset_user_bal(target: Option<u64>, caller: u64, target_is_bot: bool) -> (r: Result<u64, MoneyError>)
    ensures
        r == reset_user_bal_check(target, caller, target_is_bot),
{
    match target {
        Some(t) => {
            if t == caller {
                Err(MoneyError::ResetOwnBalance)
            } else if target_is_bot {
                Err(MoneyError::ResetBotBalance)
            } else {
                Ok(t)
            }
        },
        None => Err(MoneyError::InvalidUser),
    }
}

/// How long a confirmation to reset one's balance stays valid, in seconds.
pub const CONFIRM_TIMEOUT_SECONDS: u64 = 300;

/// The id of the button confirming that `uid` resets their balance, made at
/// `timestamp`: `reset_bal:<uid>:<timestamp>`.
pub open spec fn reset_confirm_id_text(uid: u64, timestamp: u64) -> Seq<char> {
    "reset_bal:"@ + dec(uid as nat) + ":"@ + dec(timestamp as nat)
}

/// The id of the button confirming a balance reset.
pub fn reset_confirm_id(uid: u64, timestamp: u64) -> (r: String)
    ensures
        r@ == reset_confirm_id_text(uid, timestamp),
{
    let mut out = String::from_str("reset_bal:");
    push_dec(&mut out, uid);
    out.append(":");
    push_dec(&mut out, timestamp);
    out
}

/// Why a click on a reset confirmation was refused.
#[derive(Debug, Clone, Copy, PartialEq, Eq, Structural)]
pub enum ConfirmError {
    /// The id does not have three pieces.
    InvalidConfirmation,
    /// The user piece is not a number.
    BadUserId,
    /// The time piece is not a number.
    BadTimestamp,
    /// The confirmation is older than the timeout.
    Expired,
    /// Someone else clicked.
    NotForYou,
}

/// The outcome of a click at time `now` by `clicker` on the button with id
/// `id`: the id must read `reset_bal:<uid>:<time>`, the click must come
/// within the timeout and from `uid`.
pub open spec fn confirmation_check(id: Seq<char>, now: u64, clicker: u64) -> Result<(), ConfirmError> {
    let p = split_on(id, ':');
    if p.len() != 3 {
        Err(ConfirmError::InvalidConfirmation)
    } else {
        match parse_unsigned(p[1], u64::MAX as nat) {
            None => Err(ConfirmError::BadUserId),
            Some(uid) => match parse_unsigned(p[2], u64::MAX as nat) {
                None => Err(ConfirmError::BadTimestamp),
                Some(created) => if (if now >= created { now - created } else { 0 }) > CONFIRM_TIMEOUT_SECONDS {
                    Err(ConfirmError::Expired)
                } else if clicker != uid {
                    Err(ConfirmError::NotForYou)
                } else {
                    Ok(())
                },
            },
        }
    }
}

/// Checks a click on a reset confirmation.
pub fn check_confirmation(id: &str, now: u64, clicker: u64) -> (r: Result<(), ConfirmError>)
    ensures
        r == confirmation_check(id@, now, clicker),
{
    let parts = split_char(id, ':');
    proof {
        assert(str_views(parts@).len() == parts@.len());
    }
    if parts.len() != 3 {
        return Err(ConfirmError::InvalidConfirmation);
    }
    assert(split_on(id@, ':')[1] == parts@[1]@);
    assert(split_on(id@, ':')[2] == parts@[2]@);
    let uid = match parse_u64(parts[1]) {
        Some(u) => u,
        None => { return Err(ConfirmError::BadUserId); },
    };
    let created = match parse_u64(parts[2]) {
        Some(c) => c,
        None => { return Err(ConfirmError::BadTimestamp); },
    };
    let age = if now >= created { now - created } else { 0 };
    if age > CONFIRM_TIMEOUT_SECONDS {
        return Err(ConfirmError::Expired);
    }
    if clicker != uid {
        return Err(ConfirmError::NotForYou);
    }
    Ok(())
}

/// The message of the number error in a confirmation id with three pieces:
/// the error `str::parse` gives for the user piece when it is not a number,
/// else for the time piece.
pub open spec fn confirmation_number_error(id: Seq<char>) -> Seq<char> {
    let p = split_on(id, ':');
    if parse_unsigned(p[1], u64::MAX as nat) is None {
        u64_parse_error_text(p[1])
    } else {
        u64_parse_error_text(p[2])
    }
}

/// The message of the number error in a confirmation id, reported when
/// `check_confirmation` finds a piece that is not a number.
pub fn confirmation_error_message(id: &str) -> (r: &'static str)
    requires
        split_on(id@, ':').len() == 3,
    ensures
        r@ == confirmation_number_error(id@),
{
    let parts = split_char(id, ':');
    proof {
        assert(str_views(parts@).len() == parts@.len());
    }
    assert(split_on(id@, ':')[1] == parts@[1]@);
    assert(split_on(id@, ':')[2] == parts@[2]@);
    if parse_u64(parts[1]).is_none() {
        u64_parse_error(parts[1])
    } else {
        u64_parse_error(parts[2])
    }
}

/// A reset confirmation made for `uid` at time `made` and clicked at `now`
/// by `clicker` is refused as expired once the timeout has passed, refused
/// as not theirs when someone else clicks, and accepted otherwise.
pub proof fn lemma_confirmation_reads_back(uid: u64, made: u64, now: u64, clicker: u64)
    ensures
        confirmation_check(reset_confirm_id_text(uid, made), now, clicker) == (if (if now >= made {
            now - made
        } else {
            0
        }) > CONFIRM_TIMEOUT_SECONDS {
            Err::<(), ConfirmError>(ConfirmError::Expired)
        } else if clicker != uid {
            Err(ConfirmError::NotForYou)
        } else {
            Ok(())
        }),
{
    reveal_strlit("reset_bal");
    reveal_strlit("reset_bal:");
    reveal_strlit(":");
    lemma_dec_no_colon(uid as nat);
    lemma_dec_no_colon(made as nat);
    lemma_parse_dec(uid as nat, u64::MAX as nat);
    lemma_parse_dec(made as nat, u64::MAX as nat);
    let p = seq!["reset_bal"@, dec(uid as nat), dec(made as nat)];
    assert(no_colon("reset_bal"@));
    assert(forall|k: int| 0 <= k < p.len() ==> no_colon(#[trigger] p[k]));
    let q = p.drop_last();
    assert(q.drop_last() =~= seq!["reset_bal"@]);
    assert(colon_join(q) == colon_join(q.drop_last()) + seq![':'] + dec(uid as nat));
    assert(colon_join(q.drop_last()) == "reset_bal"@);
    assert(colon_join(p) == colon_join(q) + seq![':'] + dec(made as nat));
    assert("reset_bal:"@ =~= "reset_bal"@ + seq![':']);
    assert(":"@ =~= seq![':']);
    assert(colon_join(p) =~= reset_confirm_id_text(uid, made));
    lemma_split_colon_join(p);
}

} // verus!
