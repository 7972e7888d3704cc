//! The keys and values the bot keeps in Redis.

pub mod decks;
pub mod keys;
pub mod users;

use vstd::prelude::*;

verus! {

/// The Redis address for a server at `ip`.
pub open spec fn redis_link(ip: Seq<char>) -> Seq<char> {
    "redis://"@ + ip
}

/// The Redis address for a server at `ip`.
pub fn get_db_link(ip: &str) -> (r: String)
    ensures
        r@ == redis_link(ip@),
{
    let mut out = String::from_str("redis://");
    out.append(ip);
    out
}

} // verus!
