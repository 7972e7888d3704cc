//! The storage keys of channels, roulette tables and poker sessions.

use vstd::prelude::*;

use crate::text::{dec, push_dec};

verus! {

/// The key marking a known channel: `channel_<cid>`.
pub fn channel_key(cid: u64) -> (r: String)
    ensures
        r@ == "channel_"@ + dec(cid as nat),
{
    let mut out = String::from_str("channel_");
    push_dec(&mut out, cid);
    out
}

/// The key marking a roulette table that is spinning: `roulette_<cid>`.
pub fn roulette_table_key(cid: u64) -> (r: String)
    ensures
        r@ == "roulette_"@ + dec(cid as nat),
{
    let mut out = String::from_str("roulette_");
    push_dec(&mut out, cid);
    out
}

/// `<head><gid>_<cid><tail>`.
pub open spec fn session_key_text(head: Seq<char>, gid: u64, cid: u64, tail: Seq<char>) -> Seq<char> {
    head + dec(gid as nat) + "_"@ + dec(cid as nat) + tail
}

/// `<head><gid>_<cid><tail>`.
fn session_key(head: &str, gid: u64, cid: u64, tail: &str) -> (r: String)
    ensures
        r@ == session_key_text(head@, gid, cid, tail@),
{
    let mut out = String::from_str(head);
    push_dec(&mut out, gid);
    out.append("_");
    push_dec(&mut out, cid);
    out.append(tail);
    out
}

/// The key patterns of everything a poker game in a channel may have left
/// behind, older layouts included.
pub open spec fn poker_cleanup_patterns(gid: u64, cid: u64) -> Seq<Seq<char>> {
    seq![
        session_key_text("poker_"@, gid, cid, "_*"@),
        session_key_text("poker_joinned_"@, gid, cid, ""@),
        session_key_text("poker_joinable_"@, gid, cid, ""@),
        session_key_text("poker_current_bet_"@, gid, cid, ""@),
        session_key_text("poker_pot_"@, gid, cid, ""@),
        session_key_text("poker_folded_"@, gid, cid, ""@),
        session_key_text("poker_candiscard_"@, gid, cid, ""@),
        session_key_text("poker_state_"@, gid, cid, ""@),
        session_key_text("poker_user_bet_"@, gid, cid, "_*"@),
        session_key_text("deck_poker_"@, gid, cid, ""@),
    ]
}

/// The key patterns of everything a poker game in a channel may have left behind.
pub fn cleanup_patterns(gid: u64, cid: u64) -> (r: Vec<String>)
    ensures
        r@.map_values(|s: String| s@) == poker_cleanup_patterns(gid, cid),
{
    let mut r: Vec<String> = Vec::new();
    r.push(session_key("poker_", gid, cid, "_*"));
    r.push(session_key("poker_joinned_", gid, cid, ""));
    r.push(session_key("poker_joinable_", gid, cid, ""));
    r.push(session_key("poker_current_bet_", gid, cid, ""));
    r.push(session_key("poker_pot_", gid, cid, ""));
    r.push(session_key("poker_folded_", gid, cid, ""));
    r.push(session_key("poker_candiscard_", gid, cid, ""));
    r.push(session_key("poker_state_", gid, cid, ""));
    r.push(session_key("poker_user_bet_", gid, cid, "_*"));
    r.push(session_key("deck_poker_", gid, cid, ""));
    assert(r@.map_values(|s: String| s@) =~= poker_cleanup_patterns(gid, cid));
    r
}

} // verus!
