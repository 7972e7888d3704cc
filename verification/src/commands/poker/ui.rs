//! The text a poker table shows: player names, community cards and the
//! table overview.

use vstd::prelude::*;

use crate::commands::poker::hand_evaluator::{
    EvalCard, cards_to_discord_emojis, category_name, evaluate_seven, hand_value, rank_to_string, suits_line, values_line,
};
use crate::commands::poker::session::{PokerGameState, TableView, Phase, BOT_USER_ID, is_bot, ints_to_eval, eval_cards};
use crate::text::{dec, push_dec};

verus! {

/// How a player is named at the table: the bot is "Bot", others are mentioned.
pub open spec fn name_of(uid: u64) -> Seq<char> {
    if uid == BOT_USER_ID { "Bot"@ } else { "<@"@ + dec(uid as nat) + ">"@ }
}

/// Appends the name of a player.
pub fn push_player_name(out: &mut String, uid: u64)
    ensures
        final(out)@ == old(out)@ + name_of(uid),
{
    if is_bot(uid) {
        out.append("Bot");
    } else {
        out.append("<@");
        push_dec(out, uid);
        out.append(">");
    }
}

/// The name of a player.
pub fn player_name(uid: u64) -> (r: String)
    ensures
        r@ == name_of(uid),
{
    let mut out = String::new();
    push_player_name(&mut out, uid);
    assert(out@ =~= name_of(uid));
    out
}

/// Cards drawn as two lines of emoji: values, then suits.
pub open spec fn emoji_text(cards: Seq<EvalCard>) -> Seq<char> {
    values_line(cards) + seq!['\n'] + suits_line(cards)
}

/// The community cards as shown at the table, "None" before any is dealt.
pub open spec fn community_text(t: TableView) -> Seq<char> {
    if t.community_cards.len() == 0 { "None"@ } else { emoji_text(eval_cards(t.community_cards)) }
}

/// The community cards as shown at the table.
pub fn format_community_cards(state: &PokerGameState) -> (r: String)
    ensures
        r@ == community_text(state@),
{
    if state.community_cards.len() == 0 {
        return String::from_str("None");
    }
    let cards = ints_to_eval(&state.community_cards);
    proof {
        assert forall|i: int| 0 <= i < cards@.len() implies #[trigger] cards@[i].suit < 4 by {
            assert(cards@[i] == crate::commands::poker::session::eval_of_int(state@.community_cards[i]));
        }
    }
    cards_to_discord_emojis(cards.as_slice())
}

/// The name of each stage of a hand.
pub open spec fn phase_name(p: Phase) -> Seq<char> {
    match p {
        Phase::Lobby => "Lobby"@,
        Phase::PreFlop => "Pre-Flop"@,
        Phase::Flop => "Flop"@,
        Phase::Turn => "Turn"@,
        Phase::River => "River"@,
        Phase::Showdown => "Showdown"@,
        Phase::Finished => "Finished"@,
    }
}

/// The name of a stage of a hand.
pub fn phase_label(p: Phase) -> (r: &'static str)
    ensures
        r@ == phase_name(p),
{
    match p {
        Phase::Lobby => "Lobby",
        Phase::PreFlop => "Pre-Flop",
        Phase::Flop => "Flop",
        Phase::Turn => "Turn",
        Phase::River => "River",
        Phase::Showdown => "Showdown",
        Phase::Finished => "Finished",
    }
}

/// A player's line in the overview: name, a mark when folded, and the
/// player's bet this round.
pub open spec fn player_line(t: TableView, uid: u64) -> Seq<char> {
    name_of(uid) + " "@ + (if t.folded.contains(uid) { " (folded)"@ } else { ""@ }) + " - bet: "@
        + dec(t.round_bet(uid) as nat)
}

/// The lines of `players`, one per line.
pub open spec fn player_lines(t: TableView, players: Seq<u64>) -> Seq<char>
    decreases players.len(),
{
    if players.len() == 0 {
        Seq::empty()
    } else if players.len() == 1 {
        player_line(t, players[0])
    } else {
        player_lines(t, players.drop_last()) + "\n"@ + player_line(t, players.last())
    }
}

/// The overview of the table: stage, pot, current bet, whose turn it is,
/// the community cards and every player's line.
pub open spec fn overview_text(t: TableView) -> Seq<char> {
    let current = match t.current() { Some(u) => name_of(u), None => "None"@ };
    "Phase: "@ + phase_name(t.phase) + "\nPot: **"@ + dec(t.pot as nat) + "**\nCurrent bet: **"@
        + dec(t.current_bet as nat) + "**\nCurrent turn: "@ + current + "\nCommunity cards:\n"@
        + community_text(t) + "\n\nPlayers:\n"@ + player_lines(t, t.players)
}

/// The overview of the table.
pub fn format_table_overview(state: &PokerGameState) -> (r: String)
    ensures
        r@ == overview_text(state@),
{
    let ghost t = state@;
    let mut out = String::from_str("Phase: ");
    out.append(phase_label(state.phase));
    out.append("\nPot: **");
    push_dec(&mut out, state.pot);
    out.append("**\nCurrent bet: **");
    push_dec(&mut out, state.current_bet);
    out.append("**\nCurrent turn: ");
    match state.current_player() {
        Some(u) => push_player_name(&mut out, u),
        None => out.append("None"),
    }
    out.append("\nCommunity cards:\n");
    let community = format_community_cards(state);
    out.append(community.as_str());
    out.append("\n\nPlayers:\n");
    let ghost head = out@;
    let mut i: usize = 0;
    while i < state.players.len()
        invariant
            t == state@,
            i <= t.players.len(),
            out@ == head + player_lines(t, t.players.take(i as int)),
        decreases state.players.len() - i,
    {
        let uid = state.players[i];
        let ghost before = out@;
        if i > 0 {
            out.append("\n");
        }
        push_player_name(&mut out, uid);
        out.append(" ");
        if state.is_folded(uid) {
            out.append(" (folded)");
        } else {
            out.append("");
        }
        out.append(" - bet: ");
        push_dec(&mut out, state.player_bet(uid));
        proof {
            let p = t.players.take(i + 1);
            assert(p.drop_last() =~= t.players.take(i as int));
            assert(p.last() == uid);
            if i == 0 {
                assert(p =~= seq![uid]);
                assert(out@ =~= head + player_lines(t, p));
            } else {
                assert(out@ =~= head + player_lines(t, p));
            }
        }
        i = i + 1;
    }
    assert(t.players.take(t.players.len() as int) =~= t.players);
    assert(out@ =~= overview_text(t));
    out
}

/// The names of `players`, separated by ", ".
pub open spec fn name_list(players: Seq<u64>) -> Seq<char>
    decreases players.len(),
{
    if players.len() == 0 {
        Seq::empty()
    } else if players.len() == 1 {
        name_of(players[0])
    } else {
        name_list(players.drop_last()) + ", "@ + name_of(players.last())
    }
}

/// The lobby's invitation: the seconds left and who has joined.
pub open spec fn lobby_text(t: TableView, seconds: u64) -> Seq<char> {
    "Join the game! Starting in **"@ + dec(seconds as nat) + "** seconds.\nPlayers: "@ + name_list(t.players)
}

/// The lobby's invitation.
pub fn lobby_description(state: &PokerGameState, seconds: u64) -> (r: String)
    ensures
        r@ == lobby_text(state@, seconds),
{
    let ghost t = state@;
    let mut out = String::from_str("Join the game! Starting in **");
    push_dec(&mut out, seconds);
    out.append("** seconds.\nPlayers: ");
    let ghost head = out@;
    let mut i: usize = 0;
    while i < state.players.len()
        invariant
            t == state@,
            i <= t.players.len(),
            out@ == head + name_list(t.players.take(i as int)),
        decreases state.players.len() - i,
    {
        let uid = state.players[i];
        if i > 0 {
            out.append(", ");
        }
        push_player_name(&mut out, uid);
        proof {
            let p = t.players.take(i + 1);
            assert(p.drop_last() =~= t.players.take(i as int));
            assert(p.last() == uid);
            if i == 0 {
                assert(p =~= seq![uid]);
            }
            assert(out@ =~= head + name_list(p));
        }
        i = i + 1;
    }
    assert(t.players.take(t.players.len() as int) =~= t.players);
    assert(out@ =~= lobby_text(t, seconds));
    out
}

// ---------------------------------------------------------------------------
// Announcements
// ---------------------------------------------------------------------------

/// What a check or call is announced as: "checked." when nothing was owed,
/// otherwise the bet that was called.
pub open spec fn check_call_text(to_call: u64, current_bet: u64) -> Seq<char> {
    if to_call == 0 { "checked."@ } else { "called the "@ + dec(current_bet as nat) + " chip bet."@ }
}

/// What a check or call is announced as.
pub fn check_call_message(to_call: u64, current_bet: u64) -> (r: String)
    ensures
        r@ == check_call_text(to_call, current_bet),
{
    if to_call == 0 {
        String::from_str("checked.")
    } else {
        let mut out = String::from_str("called the ");
        push_dec(&mut out, current_bet);
        out.append(" chip bet.");
        out
    }
}

/// What a raise is announced as.
pub open spec fn raise_text(raise: u64, new_bet: u64) -> Seq<char> {
    "raised by "@ + dec(raise as nat) + ". Current bet is now "@ + dec(new_bet as nat) + "."@
}

/// What a raise is announced as.
pub fn raise_message(raise: u64, new_bet: u64) -> (r: String)
    ensures
        r@ == raise_text(raise, new_bet),
{
    let mut out = String::from_str("raised by ");
    push_dec(&mut out, raise);
    out.append(". Current bet is now ");
    push_dec(&mut out, new_bet);
    out.append(".");
    out
}

/// What an all-in is announced as.
pub open spec fn all_in_text(amount: u64) -> Seq<char> {
    "went all in with "@ + dec(amount as nat) + " chips!"@
}

/// What an all-in is announced as.
pub fn all_in_message(amount: u64) -> (r: String)
    ensures
        r@ == all_in_text(amount),
{
    let mut out = String::from_str("went all in with ");
    push_dec(&mut out, amount);
    out.append(" chips!");
    out
}

/// The announcement of a player's action: who did what, then the table.
pub open spec fn action_result_text(t: TableView, actor: u64, action: Seq<char>) -> Seq<char> {
    name_of(actor) + " "@ + action + "\n\n"@ + overview_text(t)
}

/// The announcement of a player's action.
pub fn action_result_description(state: &PokerGameState, actor: u64, action: &str) -> (r: String)
    ensures
        r@ == action_result_text(state@, actor, action@),
{
    let mut out = String::new();
    push_player_name(&mut out, actor);
    out.append(" ");
    out.append(action);
    out.append("\n\n");
    let overview = format_table_overview(state);
    out.append(overview.as_str());
    assert(out@ =~= action_result_text(state@, actor, action@));
    out
}

/// The notice that a player ran out of time.
pub open spec fn timeout_text(uid: u64) -> Seq<char> {
    name_of(uid) + " took too long and folded."@
}

/// The notice that a player ran out of time.
pub fn timeout_description(uid: u64) -> (r: String)
    ensures
        r@ == timeout_text(uid),
{
    let mut out = String::new();
    push_player_name(&mut out, uid);
    out.append(" took too long and folded.");
    assert(out@ =~= timeout_text(uid));
    out
}

/// The call to act: "<name>, it's your turn!".
pub open spec fn your_turn_text(uid: u64) -> Seq<char> {
    name_of(uid) + ", it's your turn!"@
}

/// The call to act.
pub fn your_turn_message(uid: u64) -> (r: String)
    ensures
        r@ == your_turn_text(uid),
{
    let mut out = String::new();
    push_player_name(&mut out, uid);
    out.append(", it's your turn!");
    assert(out@ =~= your_turn_text(uid));
    out
}

/// The title of the call to act: "<name>'s Turn".
pub open spec fn prompt_title_text(uid: u64) -> Seq<char> {
    name_of(uid) + "'s Turn"@
}

/// The title of the call to act.
pub fn prompt_title(uid: u64) -> (r: String)
    ensures
        r@ == prompt_title_text(uid),
{
    let mut out = String::new();
    push_player_name(&mut out, uid);
    out.append("'s Turn");
    assert(out@ =~= prompt_title_text(uid));
    out
}

/// The body of the call to act: the table, then how to act.
pub open spec fn prompt_text(t: TableView) -> Seq<char> {
    overview_text(t) + "\n\nChoose your action below. Use **Show Cards** to view your hand privately."@
}

/// The body of the call to act.
pub fn prompt_description(state: &PokerGameState) -> (r: String)
    ensures
        r@ == prompt_text(state@),
{
    let mut out = format_table_overview(state);
    out.append("\n\nChoose your action below. Use **Show Cards** to view your hand privately.");
    out
}

/// The title of the message showing newly dealt community cards.
pub open spec fn dealt_title_text(p: Phase) -> Seq<char> {
    (match p { Phase::Flop => "Flop"@, Phase::Turn => "Turn"@, Phase::River => "River"@, _ => ""@ }) + " Dealt"@
}

/// The title of the message showing newly dealt community cards.
pub fn dealt_title(p: Phase) -> (r: String)
    ensures
        r@ == dealt_title_text(p),
{
    let mut out = match p {
        Phase::Flop => String::from_str("Flop"),
        Phase::Turn => String::from_str("Turn"),
        Phase::River => String::from_str("River"),
        _ => String::new(),
    };
    out.append(" Dealt");
    proof { reveal_strlit(""); }
    assert(out@ =~= dealt_title_text(p));
    out
}

/// A player's hole cards as shown to them: "No hole cards yet." before the deal.
pub open spec fn hole_text(t: TableView, uid: u64) -> Seq<char> {
    if t.hole(uid).len() == 0 { "No hole cards yet."@ } else { emoji_text(eval_cards(t.hole(uid))) }
}

/// A player's hole cards as shown to them.
pub fn hole_cards_description(state: &PokerGameState, uid: u64) -> (r: String)
    ensures
        r@ == hole_text(state@, uid),
{
    let cards = state.hole_cards_eval(uid);
    if cards.len() == 0 {
        return String::from_str("No hole cards yet.");
    }
    proof {
        assert forall|i: int| 0 <= i < cards@.len() implies #[trigger] cards@[i].suit < 4 by {
            assert(cards@[i] == crate::commands::poker::session::eval_of_int(state@.hole(uid)[i]));
        }
    }
    cards_to_discord_emojis(cards.as_slice())
}

/// The announcement that `winner` takes the whole pot.
pub open spec fn pot_won_text(winners: Seq<char>, pot: u64) -> Seq<char> {
    winners + " wins the pot of "@ + dec(pot as nat) + " chips!"@
}

/// The announcement that a lone remaining player takes the pot.
pub fn single_winner_description(winner: u64, pot: u64) -> (r: String)
    ensures
        r@ == pot_won_text(name_of(winner), pot),
{
    let mut out = String::new();
    push_player_name(&mut out, winner);
    out.append(" wins the pot of ");
    push_dec(&mut out, pot);
    out.append(" chips!");
    assert(out@ =~= pot_won_text(name_of(winner), pot));
    out
}

/// A player's line in the showdown: name, hole cards and the name of their hand.
pub open spec fn showdown_line(t: TableView, uid: u64) -> Seq<char> {
    name_of(uid) + ":\n"@ + emoji_text(eval_cards(t.hole(uid)))
        + " ("@ + category_name(hand_value(eval_cards(t.hole(uid)) + eval_cards(t.community_cards))) + ")"@
}

/// The showdown lines of `players`, one per line.
pub open spec fn showdown_lines(t: TableView, players: Seq<u64>) -> Seq<char>
    decreases players.len(),
{
    if players.len() == 0 {
        Seq::empty()
    } else if players.len() == 1 {
        showdown_line(t, players[0])
    } else {
        showdown_lines(t, players.drop_last()) + "\n"@ + showdown_line(t, players.last())
    }
}

/// The showdown announcement: every active player's hand, the community
/// cards, and who wins the pot.
pub open spec fn showdown_text(t: TableView, winners: Seq<u64>) -> Seq<char> {
    showdown_lines(t, t.active()) + "\n\nCommunity cards:\n"@ + community_text(t) + "\n\n"@
        + pot_won_text(name_list(winners), t.pot)
}

/// Appends a player's showdown line.
fn push_showdown_line(out: &mut String, state: &PokerGameState, uid: u64)
    ensures
        final(out)@ == old(out)@ + showdown_line(state@, uid),
{
    push_player_name(out, uid);
    out.append(":\n");
    let hole = state.hole_cards_eval(uid);
    proof {
        assert forall|i: int| 0 <= i < hole@.len() implies #[trigger] hole@[i].suit < 4 by {
            assert(hole@[i] == crate::commands::poker::session::eval_of_int(state@.hole(uid)[i]));
        }
    }
    let shown = cards_to_discord_emojis(hole.as_slice());
    out.append(shown.as_str());
    out.append(" (");
    let all = state.all_cards_for_player(uid);
    let rank = evaluate_seven(all.as_slice());
    let name = rank_to_string(rank.as_slice());
    out.append(name.as_str());
    out.append(")");
    assert(out@ =~= old(out)@ + showdown_line(state@, uid));
}

/// The showdown announcement for the winners `winners`.
pub fn showdown_description(state: &PokerGameState, winners: &Vec<u64>) -> (r: String)
    ensures
        r@ == showdown_text(state@, winners@),
{
    let ghost t = state@;
    let active = state.active_players();
    let mut out = String::new();
    let mut i: usize = 0;
    while i < active.len()
        invariant
            t == state@,
            active@ == t.active(),
            i <= active@.len(),
            out@ == showdown_lines(t, active@.take(i as int)),
        decreases active.len() - i,
    {
        let ghost before = out@;
        if i > 0 {
            out.append("\n");
        }
        push_showdown_line(&mut out, state, active[i]);
        proof {
            let p = active@.take(i + 1);
            assert(p.drop_last() =~= active@.take(i as int));
            assert(p.last() == active@[i as int]);
            if i == 0 {
                assert(p =~= seq![active@[0]]);
            }
            assert(out@ =~= showdown_lines(t, p));
        }
        i = i + 1;
    }
    assert(active@.take(active@.len() as int) =~= active@);
    out.append("\n\nCommunity cards:\n");
    let community = format_community_cards(state);
    out.append(community.as_str());
    out.append("\n\n");
    let ghost head = out@;
    let mut k: usize = 0;
    while k < winners.len()
        invariant
            k <= winners@.len(),
            out@ == head + name_list(winners@.take(k as int)),
        decreases winners.len() - k,
    {
        if k > 0 {
            out.append(", ");
        }
        push_player_name(&mut out, winners[k]);
        proof {
            let p = winners@.take(k + 1);
            assert(p.drop_last() =~= winners@.take(k as int));
            assert(p.last() == winners@[k as int]);
            if k == 0 {
                assert(p =~= seq![winners@[0]]);
            }
            assert(out@ =~= head + name_list(p));
        }
        k = k + 1;
    }
    assert(winners@.take(winners@.len() as int) =~= winners@);
    out.append(" wins the pot of ");
    push_dec(&mut out, state.pot);
    out.append(" chips!");
    assert(out@ =~= showdown_text(t, winners@));
    out
}

} // verus!
