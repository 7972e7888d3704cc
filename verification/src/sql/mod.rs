//! Values stored in and read from the SQL database, and the database link.

pub mod structs;
pub mod transactions;

use vstd::prelude::*;

verus! {

/// The MySQL address of database `db` at `ip` for `user` with `pass`:
/// `mysql://<user>:<pass>@<ip>/<db>`.
pub open spec fn mysql_link(db: Seq<char>, user: Seq<char>, pass: Seq<char>, ip: Seq<char>) -> Seq<char> {
    "mysql://"@ + user + ":"@ + pass + "@"@ + ip + "/"@ + db
}

/// The MySQL address of a database.
pub fn get_db_link(db: &str, user: &str, pass: &str, ip: &str) -> (r: String)
    ensures
        r@ == mysql_link(db@, user@, pass@, ip@),
{
    let mut out = String::from_str("mysql://");
    out.append(user);
    out.append(":");
    out.append(pass);
    out.append("@");
    out.append(ip);
    out.append("/");
    out.append(db);
    out
}

/// A roulette stake taken from a balance.
#[derive(Debug, Clone, Copy, PartialEq, Eq, Structural)]
pub enum StakeError {
    /// The stake is more than the balance.
    NotEnoughBalance,
}

/// The balance left after staking `amount` out of `balance`, refused when
/// the stake is more than the balance.
pub fn balance_after_stake(balance: i64, amount: i64) -> (r: Result<i64, StakeError>)
    requires
        amount <= balance ==> balance - amount <= i64::MAX,
    ensures
        r == if amount > balance { Err(StakeError::NotEnoughBalance) } else { Ok((balance - amount) as i64) },
{
    if amount > balance {
        return Err(StakeError::NotEnoughBalance);
    }
    Ok(balance - amount)
}

} // verus!
