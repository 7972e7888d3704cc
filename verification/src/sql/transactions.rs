//! Records of balance changes and per-player statistics.

use vstd::prelude::*;

verus! {

/// A logged change of a balance: positive for gains, negative for losses.
#[derive(Debug, Clone)]
pub struct Transaction {
    pub amount: i64,
    pub transaction_type: String,
    pub game: Option<String>,
    pub timestamp: String,
}

/// A player's totals over all games.
#[derive(Debug, Clone, Default)]
pub struct UserStats {
    pub total_wagered: u64,
    pub total_won: u64,
    pub total_lost: u64,
    pub net_profit: i64,
    pub games_played: u64,
    pub biggest_win: u64,
    pub current_streak: i64,
    pub favorite_game: Option<String>,
}

} // verus!
