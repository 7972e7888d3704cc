//! Start-up cleanup: reading what stale games left behind and working out
//! the refunds owed for them.

use vstd::prelude::*;

use crate::commands::poker::session::BOT_USER_ID;
use crate::text::{parse_u64, parse_unsigned, split_char, split_on, str_views};

verus! {

/// The guild id in a poker session key `poker_state_<gid>_<cid>`: the third
/// `_`-separated piece read as a number, 0 when there is none.
pub open spec fn key_guild_id(key: Seq<char>) -> u64 {
    let p = split_on(key, '_');
    if p.len() > 2 {
        match parse_unsigned(p[2], u64::MAX as nat) {
            Some(v) => v as u64,
            None => 0,
        }
    } else {
        0
    }
}

/// The guild id in a poker session key.
pub fn state_guild_id(key: &str) -> (r: u64)
    ensures
        r == key_guild_id(key@),
{
    let parts = split_char(key, '_');
    proof {
        assert(str_views(parts@).len() == parts@.len());
    }
    if parts.len() > 2 {
        assert(split_on(key@, '_')[2] == parts@[2]@);
        match parse_u64(parts[2]) {
            Some(v) => v,
            None => 0,
        }
    } else {
        0
    }
}

/// The keys to delete for the poker session stored under `key`: its state
/// key and the pattern of its other keys, built from the third and fourth
/// `_`-separated pieces; none when the key has fewer than four pieces.
pub open spec fn session_keys_of(key: Seq<char>) -> Option<(Seq<char>, Seq<char>)> {
    let p = split_on(key, '_');
    if p.len() >= 4 {
        Some(("poker_state_"@ + p[2] + "_"@ + p[3], "poker_"@ + p[2] + "_"@ + p[3] + "_*"@))
    } else {
        None
    }
}

/// The keys to delete for the poker session stored under `key`.
pub fn stale_session_keys(key: &str) -> (r: Option<(String, String)>)
    ensures
        match r {
            Some((a, b)) => session_keys_of(key@) == Some((a@, b@)),
            None => session_keys_of(key@) is None,
        },
{
    let parts = split_char(key, '_');
    proof {
        assert(str_views(parts@).len() == parts@.len());
    }
    if parts.len() < 4 {
        return None;
    }
    assert(split_on(key@, '_')[2] == parts@[2]@);
    assert(split_on(key@, '_')[3] == parts@[3]@);
    let mut state = String::from_str("poker_state_");
    state.append(parts[2]);
    state.append("_");
    state.append(parts[3]);
    let mut others = String::from_str("poker_");
    others.append(parts[2]);
    others.append("_");
    others.append(parts[3]);
    others.append("_*");
    Some((state, others))
}

/// What a stale poker hand owes a player back: what they bet over the
/// hand, as a signed amount; the bot is owed nothing.
pub fn poker_refund(uid: u64, hand_bet: u64) -> (r: Option<i64>)
    ensures
        r == if uid == BOT_USER_ID { None } else { Some(hand_bet as i64) },
{
    if uid == BOT_USER_ID {
        None
    } else {
        Some(hand_bet as i64)
    }
}

/// The place of player `uid` and guild `gid` among grouped refunds, if any.
pub open spec fn group_index(groups: Seq<(u64, u64, i64)>, uid: u64, gid: u64) -> Option<int>
    decreases groups.len(),
{
    if groups.len() == 0 {
        None
    } else {
        match group_index(groups.drop_last(), uid, gid) {
            Some(i) => Some(i),
            None => if groups.last().0 == uid && groups.last().1 == gid { Some(groups.len() - 1) } else { None },
        }
    }
}

/// The open roulette bets `(player, guild, stake)` grouped into one refund
/// per player and guild, in order of first appearance, each holding the
/// sum of that player's stakes in that guild.
pub open spec fn grouped_refunds(bets: Seq<(u64, u64, i64)>) -> Seq<(u64, u64, i64)>
    decreases bets.len(),
{
    if bets.len() == 0 {
        Seq::empty()
    } else {
        let g = grouped_refunds(bets.drop_last());
        let b = bets.last();
        match group_index(g, b.0, b.1) {
            Some(i) => g.update(i, (b.0, b.1, (g[i].2 + b.2) as i64)),
            None => g.push(b),
        }
    }
}

/// Each running sum of a player's stakes stays within an `i64`.
pub open spec fn refund_sums_fit(bets: Seq<(u64, u64, i64)>) -> bool
    decreases bets.len(),
{
    if bets.len() == 0 {
        true
    } else {
        let g = grouped_refunds(bets.drop_last());
        let b = bets.last();
        &&& refund_sums_fit(bets.drop_last())
        &&& match group_index(g, b.0, b.1) {
            Some(i) => i64::MIN <= g[i].2 + b.2 <= i64::MAX,
            None => true,
        }
    }
}

/// `refund_sums_fit` holds of every prefix.
proof fn lemma_refund_sums_fit_prefix(bets: Seq<(u64, u64, i64)>, k: int)
    requires
        refund_sums_fit(bets),
        0 <= k <= bets.len(),
    ensures
        refund_sums_fit(bets.take(k)),
    decreases bets.len() - k,
{
    if k == bets.len() {
        assert(bets.take(k) =~= bets);
    } else {
        lemma_refund_sums_fit_prefix(bets, k + 1);
        assert(bets.take(k + 1).drop_last() =~= bets.take(k));
    }
}

/// `group_index` finds a group holding the player and guild, the first such.
proof fn lemma_group_index(groups: Seq<(u64, u64, i64)>, uid: u64, gid: u64)
    ensures
        match group_index(groups, uid, gid) {
            Some(i) => 0 <= i < groups.len() && groups[i].0 == uid && groups[i].1 == gid
                && forall|j: int| 0 <= j < i ==> !(groups[j].0 == uid && groups[j].1 == gid),
            None => forall|j: int| 0 <= j < groups.len() ==> !(groups[j].0 == uid && groups[j].1 == gid),
        },
    decreases groups.len(),
{
    if groups.len() > 0 {
        let d = groups.drop_last();
        lemma_group_index(d, uid, gid);
        assert(forall|j: int| 0 <= j < d.len() ==> d[j] == groups[j]);
        assert(groups.last() == groups[groups.len() - 1]);
    }
}

/// The sum of the stakes player `uid` holds open in guild `gid`.
pub open spec fn stake_sum(bets: Seq<(u64, u64, i64)>, uid: u64, gid: u64) -> int
    decreases bets.len(),
{
    if bets.len() == 0 {
        0
    } else {
        let b = bets.last();
        stake_sum(bets.drop_last(), uid, gid) + if b.0 == uid && b.1 == gid { b.2 as int } else { 0 }
    }
}

/// No two grouped refunds are for the same player and guild.
proof fn lemma_grouped_keys_distinct(bets: Seq<(u64, u64, i64)>)
    ensures
        forall|i: int, j: int| 0 <= i < j < grouped_refunds(bets).len()
            ==> !(#[trigger] grouped_refunds(bets)[i].0 == #[trigger] grouped_refunds(bets)[j].0
                && grouped_refunds(bets)[i].1 == grouped_refunds(bets)[j].1),
    decreases bets.len(),
{
    if bets.len() > 0 {
        let g = grouped_refunds(bets.drop_last());
        let b = bets.last();
        lemma_grouped_keys_distinct(bets.drop_last());
        lemma_group_index(g, b.0, b.1);
    }
}

/// Refunding open roulette bets gives each player, in each guild, one
/// refund holding exactly the sum of their open stakes there, and no
/// refund to anyone without an open stake.
pub proof fn lemma_refunds_return_each_stake(bets: Seq<(u64, u64, i64)>, uid: u64, gid: u64)
    requires
        refund_sums_fit(bets),
    ensures
        match group_index(grouped_refunds(bets), uid, gid) {
            Some(i) => grouped_refunds(bets)[i].2 == stake_sum(bets, uid, gid)
                && exists|k: int| 0 <= k < bets.len() && #[trigger] bets[k].0 == uid && bets[k].1 == gid,
            None => forall|k: int| 0 <= k < bets.len() ==> !(#[trigger] bets[k].0 == uid && bets[k].1 == gid),
        },
        forall|i: int, j: int| 0 <= i < j < grouped_refunds(bets).len()
            ==> !(#[trigger] grouped_refunds(bets)[i].0 == #[trigger] grouped_refunds(bets)[j].0
                && grouped_refunds(bets)[i].1 == grouped_refunds(bets)[j].1),
    decreases bets.len(),
{
    lemma_grouped_keys_distinct(bets);
    let all = grouped_refunds(bets);
    lemma_group_index(all, uid, gid);
    if bets.len() > 0 {
        let prev = bets.drop_last();
        let g = grouped_refunds(prev);
        let b = bets.last();
        lemma_refunds_return_each_stake(prev, uid, gid);
        lemma_group_index(g, uid, gid);
        lemma_group_index(g, b.0, b.1);
        assert(forall|k: int| 0 <= k < prev.len() ==> prev[k] == bets[k]);
        assert(b == bets[bets.len() - 1]);
        let same = b.0 == uid && b.1 == gid;
        assert(stake_sum(bets, uid, gid) == stake_sum(prev, uid, gid) + if same { b.2 as int } else { 0 });
        match group_index(g, b.0, b.1) {
            Some(i0) => {
                assert(all == g.update(i0, (b.0, b.1, (g[i0].2 + b.2) as i64)));
                assert(all.len() == g.len());
                assert(forall|j: int| 0 <= j < all.len() ==> all[j].0 == g[j].0 && all[j].1 == g[j].1);
                assert(group_index(all, uid, gid) == group_index(g, uid, gid));
                if same {
                    assert(group_index(all, uid, gid) == Some(i0));
                    assert(all[i0].2 == g[i0].2 + b.2);
                    assert(bets[bets.len() - 1].0 == uid && bets[bets.len() - 1].1 == gid);
                } else {
                    match group_index(g, uid, gid) {
                        Some(i) => {
                            assert(i != i0);
                            assert(all[i] == g[i]);
                            let k = choose|k: int| 0 <= k < prev.len() && #[trigger] prev[k].0 == uid && prev[k].1 == gid;
                            assert(bets[k].0 == uid && bets[k].1 == gid);
                        },
                        None => {},
                    }
                }
            },
            None => {
                assert(all == g.push(b));
                assert(forall|j: int| 0 <= j < g.len() ==> all[j] == g[j]);
                if same {
                    lemma_stake_sum_absent(prev, uid, gid);
                    assert(group_index(all, uid, gid) == Some(g.len() as int));
                    assert(bets[bets.len() - 1].0 == uid && bets[bets.len() - 1].1 == gid);
                } else {
                    assert(group_index(all, uid, gid) == group_index(g, uid, gid));
                    match group_index(g, uid, gid) {
                        Some(i) => {
                            assert(all[i] == g[i]);
                            let k = choose|k: int| 0 <= k < prev.len() && #[trigger] prev[k].0 == uid && prev[k].1 == gid;
                            assert(bets[k].0 == uid && bets[k].1 == gid);
                        },
                        None => {},
                    }
                }
            },
        }
    }
}

/// A player with no open stake in a guild holds a stake sum of zero there.
proof fn lemma_stake_sum_absent(bets: Seq<(u64, u64, i64)>, uid: u64, gid: u64)
    requires
        forall|k: int| 0 <= k < bets.len() ==> !(#[trigger] bets[k].0 == uid && bets[k].1 == gid),
    ensures
        stake_sum(bets, uid, gid) == 0,
    decreases bets.len(),
{
    if bets.len() > 0 {
        let prev = bets.drop_last();
        assert(forall|k: int| 0 <= k < prev.len() ==> prev[k] == bets[k]);
        assert(bets.last() == bets[bets.len() - 1]);
        lemma_stake_sum_absent(prev, uid, gid);
    }
}

/// Groups open roulette bets into one refund per player and guild; `None`
/// when some player's running sum of stakes would leave the `i64` range.
pub fn checked_group_refunds(bets: &Vec<(u64, u64, i64)>) -> (r: Option<Vec<(u64, u64, i64)>>)
    ensures
        r is Some <==> refund_sums_fit(bets@),
        r matches Some(v) ==> v@ == grouped_refunds(bets@),
{
    let mut r: Vec<(u64, u64, i64)> = Vec::new();
    let mut k: usize = 0;
    while k < bets.len()
        invariant
            k <= bets@.len(),
            refund_sums_fit(bets@.take(k as int)),
            r@ == grouped_refunds(bets@.take(k as int)),
        decreases bets.len() - k,
    {
        let (uid, gid, net) = bets[k];
        proof {
            assert(bets@.take(k + 1).drop_last() =~= bets@.take(k as int));
            assert(bets@.take(k + 1).last() == (uid, gid, net));
            lemma_group_index(r@, uid, gid);
        }
        let mut i: usize = 0;
        while i < r.len()
            invariant
                i <= r@.len(),
                forall|j: int| 0 <= j < i ==> !(r@[j].0 == uid && r@[j].1 == gid),
            ensures
                i <= r@.len(),
                forall|j: int| 0 <= j < i ==> !(r@[j].0 == uid && r@[j].1 == gid),
                i < r@.len() ==> r@[i as int].0 == uid && r@[i as int].1 == gid,
            decreases r.len() - i,
        {
            if r[i].0 == uid && r[i].1 == gid {
                break;
            }
            i = i + 1;
        }
        if i < r.len() {
            assert(group_index(r@, uid, gid) == Some(i as int));
            match r[i].2.checked_add(net) {
                Some(total) => {
                    r.set(i, (uid, gid, total));
                },
                None => {
                    proof {
                        assert(!refund_sums_fit(bets@.take(k + 1)));
                        if refund_sums_fit(bets@) {
                            lemma_refund_sums_fit_prefix(bets@, k + 1);
                        }
                    }
                    return None;
                },
            }
        } else {
            assert(group_index(r@, uid, gid) is None);
            r.push((uid, gid, net));
        }
        k = k + 1;
    }
    assert(bets@.take(bets@.len() as int) =~= bets@);
    Some(r)
}

/// Groups open roulette bets into one refund per player and guild.
pub fn group_refunds(bets: &Vec<(u64, u64, i64)>) -> (r: Vec<(u64, u64, i64)>)
    requires
        refund_sums_fit(bets@),
    ensures
        r@ == grouped_refunds(bets@),
{
    match checked_group_refunds(bets) {
        Some(v) => v,
        None => {
            assert(false);
            Vec::new()
        },
    }
}

} // verus!
