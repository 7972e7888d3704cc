//! The decisions of a poker hand: who may act, what each action costs and
//! how it changes the table, when a betting round ends, and who takes the pot.
//! Reading balances, charging accounts and talking to players happen around
//! these functions; they take what was read as plain values.

use vstd::prelude::*;

use crate::commands::poker::hand_evaluator::{
    evaluate_seven, hand_value, lex_greater, lex_gt, lemma_lex_gt_irreflexive, lemma_lex_gt_total,
};
use crate::commands::poker::session::{
    PokerGameState, TableView, Phase, BOT_USER_ID, is_bot, capped_sum, eval_cards, dealt_hole_cards, lemma_dealt_two_each, lemma_mod_step,
};
use crate::text::str_eq;

verus! {

/// How long the lobby stays open, in seconds.
pub const LOBBY_SECONDS: u64 = 60;

/// How long a player has for a turn, in seconds.
pub const TURN_SECONDS: u64 = 30;

/// The raise made when a raise carries no amount.
pub const DEFAULT_RAISE: u64 = 50;

/// What a player can do on their turn.
#[derive(Debug, Clone, Copy, PartialEq, Eq, Structural)]
pub enum PlayerAction {
    Fold,
    CheckCall,
    Raise,
    AllIn,
}

/// The action named by a button's action word.
pub open spec fn action_of_name(s: Seq<char>) -> Option<PlayerAction> {
    if s == "fold"@ {
        Some(PlayerAction::Fold)
    } else if s == "checkcall"@ {
        Some(PlayerAction::CheckCall)
    } else if s == "raise"@ {
        Some(PlayerAction::Raise)
    } else if s == "allin"@ {
        Some(PlayerAction::AllIn)
    } else {
        None
    }
}

impl PlayerAction {
    /// Reads an action word: `fold`, `checkcall`, `raise` or `allin`.
    pub fn from_name(s: &str) -> (r: Option<Self>)
        ensures
            r == action_of_name(s@),
    {
        if str_eq(s, "fold") {
            Some(PlayerAction::Fold)
        } else if str_eq(s, "checkcall") {
            Some(PlayerAction::CheckCall)
        } else if str_eq(s, "raise") {
            Some(PlayerAction::Raise)
        } else if str_eq(s, "allin") {
            Some(PlayerAction::AllIn)
        } else {
            None
        }
    }
}

/// Why a move at the table was refused.
#[derive(Debug, Clone, Copy, PartialEq, Eq, Structural)]
pub enum FlowError {
    GameAlreadyStarted,
    AlreadyJoined,
    NotYourTurn,
    NoActiveTurn,
    AlreadyFolded,
    CallExceedsMaxHandBet,
    BotCannotCall,
    NotEnoughChipsToCall,
    RaiseTooSmall,
    RaiseExceedsMaxHandBet,
    BotCannotRaise,
    NotEnoughChipsToRaise,
    BotHasNoChips,
    NoChips,
    AllInExceedsMaxHandBet,
}

/// The message shown to the player for each refusal.
pub open spec fn flow_error_text(e: FlowError) -> Seq<char> {
    match e {
        FlowError::GameAlreadyStarted => "The game has already started."@,
        FlowError::AlreadyJoined => "You have already joined."@,
        FlowError::NotYourTurn => "It is not your turn."@,
        FlowError::NoActiveTurn => "No active turn."@,
        FlowError::AlreadyFolded => "You have already folded."@,
        FlowError::CallExceedsMaxHandBet => "This call would exceed the maximum hand bet."@,
        FlowError::BotCannotCall => "Bot does not have enough chips to call."@,
        FlowError::NotEnoughChipsToCall => "Not enough chips to call."@,
        FlowError::RaiseTooSmall => "Raise amount is too small."@,
        FlowError::RaiseExceedsMaxHandBet => "This raise would exceed the maximum hand bet."@,
        FlowError::BotCannotRaise => "Bot does not have enough chips to raise."@,
        FlowError::NotEnoughChipsToRaise => "Not enough chips to raise."@,
        FlowError::BotHasNoChips => "Bot has no chips to go all in."@,
        FlowError::NoChips => "No chips to go all in."@,
        FlowError::AllInExceedsMaxHandBet => "Going all in would exceed the maximum hand bet."@,
    }
}

impl FlowError {
    /// The message shown to the player.
    pub fn message(&self) -> (r: &'static str)
        ensures
            r@ == flow_error_text(*self),
    {
        match self {
            FlowError::GameAlreadyStarted => "The game has already started.",
            FlowError::AlreadyJoined => "You have already joined.",
            FlowError::NotYourTurn => "It is not your turn.",
            FlowError::NoActiveTurn => "No active turn.",
            FlowError::AlreadyFolded => "You have already folded.",
            FlowError::CallExceedsMaxHandBet => "This call would exceed the maximum hand bet.",
            FlowError::BotCannotCall => "Bot does not have enough chips to call.",
            FlowError::NotEnoughChipsToCall => "Not enough chips to call.",
            FlowError::RaiseTooSmall => "Raise amount is too small.",
            FlowError::RaiseExceedsMaxHandBet => "This raise would exceed the maximum hand bet.",
            FlowError::BotCannotRaise => "Bot does not have enough chips to raise.",
            FlowError::NotEnoughChipsToRaise => "Not enough chips to raise.",
            FlowError::BotHasNoChips => "Bot has no chips to go all in.",
            FlowError::NoChips => "No chips to go all in.",
            FlowError::AllInExceedsMaxHandBet => "Going all in would exceed the maximum hand bet.",
        }
    }
}

// ---------------------------------------------------------------------------
// Arithmetic on chips
// ---------------------------------------------------------------------------

/// `a - b`, or 0 when `b` is larger.
pub open spec fn sat_sub(a: u64, b: u64) -> u64 {
    if a >= b { (a - b) as u64 } else { 0 }
}

/// The value of an account balance read as an unsigned number, the way
/// `as u64` reads it: a negative balance wraps round to a huge value.
pub open spec fn as_unsigned(bal: i64) -> int {
    if bal >= 0 { bal as int } else { bal + 0x1_0000_0000_0000_0000 }
}

/// An account balance read as an unsigned number.
pub fn balance_as_unsigned(bal: i64) -> (r: u64)
    ensures
        r == as_unsigned(bal),
{
    let r = bal as u64;
    assert(r as int == if bal >= 0 { bal as int } else { bal + 0x1_0000_0000_0000_0000 }) by (bit_vector)
        requires r == bal as u64;
    r
}

// ---------------------------------------------------------------------------
// The table's bookkeeping
// ---------------------------------------------------------------------------

/// What a player must add to match the current bet.
pub open spec fn call_amount_of(t: TableView, uid: u64) -> u64 {
    sat_sub(t.current_bet, t.round_bet(uid))
}

/// Putting `amount` more into the pot would take the player's bets over the
/// hand past the table's limit, if it has one.
pub open spec fn exceeds_max(t: TableView, uid: u64, amount: u64) -> bool {
    match t.max_hand_bet {
        Some(max) => capped_sum(t.hand_bet(uid), amount) > max,
        None => false,
    }
}

/// The table once `uid` has put `amount` into the pot.
pub open spec fn with_bet(t: TableView, uid: u64, amount: u64) -> TableView {
    TableView {
        round_bets: t.round_bets.insert(uid, (t.round_bet(uid) + amount) as u64),
        pot: (t.pot + amount) as u64,
        hand_bets: t.hand_bets.insert(uid, (t.hand_bet(uid) + amount) as u64),
        ..t
    }
}

/// Putting `amount` into the pot for `uid` overflows no counter.
pub open spec fn bet_fits(t: TableView, uid: u64, amount: u64) -> bool {
    &&& t.round_bet(uid) + amount <= u64::MAX
    &&& t.pot + amount <= u64::MAX
    &&& t.hand_bet(uid) + amount <= u64::MAX
}

/// Moving the turn on overflows no seat index.
pub open spec fn turn_fits(t: TableView) -> bool {
    t.active().len() >= 2 ==> t.current_player_index < usize::MAX
}

/// The table once the bot has paid `amount` out of its stack; other players
/// pay from their accounts, outside the table.
pub open spec fn paid_from_stack(t: TableView, uid: u64, amount: u64) -> TableView {
    if uid == BOT_USER_ID {
        TableView { bot_balance: (t.bot_balance - amount) as u64, ..t }
    } else {
        t
    }
}

// ---------------------------------------------------------------------------
// Joining and acting
// ---------------------------------------------------------------------------

/// The outcome of a request to join the lobby.
pub open spec fn join_check(t: TableView, uid: u64) -> Result<(), FlowError> {
    if t.phase != Phase::Lobby {
        Err(FlowError::GameAlreadyStarted)
    } else if t.players.contains(uid) {
        Err(FlowError::AlreadyJoined)
    } else {
        Ok(())
    }
}

/// Seats a player while the lobby is open.
pub fn join_lobby(state: &mut PokerGameState, uid: u64) -> (r: Result<(), FlowError>)
    ensures
        r == join_check(old(state)@, uid),
        r is Ok ==> final(state)@ == (TableView { players: old(state)@.players.push(uid), ..old(state)@ }),
        r is Err ==> final(state)@ == old(state)@,
{
    match state.phase {
        Phase::Lobby => {},
        _ => { return Err(FlowError::GameAlreadyStarted); },
    }
    if !state.add_player(uid) {
        return Err(FlowError::AlreadyJoined);
    }
    Ok(())
}

/// Whether `uid` may act now: it must be their turn and they must not have folded.
pub open spec fn action_check(t: TableView, uid: u64) -> Result<(), FlowError> {
    match t.current() {
        Some(c) => if c != uid {
            Err(FlowError::NotYourTurn)
        } else if t.folded.contains(uid) {
            Err(FlowError::AlreadyFolded)
        } else {
            Ok(())
        },
        None => Err(FlowError::NoActiveTurn),
    }
}

/// Checks that `uid` may act now.
pub fn validate_action(state: &PokerGameState, uid: u64) -> (r: Result<(), FlowError>)
    ensures
        r == action_check(state@, uid),
{
    match state.current_player() {
        Some(c) => {
            if c != uid {
                Err(FlowError::NotYourTurn)
            } else if state.is_folded(uid) {
                Err(FlowError::AlreadyFolded)
            } else {
                Ok(())
            }
        },
        None => Err(FlowError::NoActiveTurn),
    }
}

/// The raise made by a raise request: its amount, or the default raise.
pub fn raise_amount(amount: Option<u64>) -> (r: u64)
    ensures
        r == match amount { Some(a) => a, None => DEFAULT_RAISE },
{
    match amount {
        Some(a) => a,
        None => DEFAULT_RAISE,
    }
}

/// The table once `uid` has folded.
pub open spec fn folded_table(t: TableView, uid: u64) -> TableView {
    TableView { folded: t.folded.insert(uid), acted: t.acted.insert(uid), ..t }
}

/// The player folds and the turn moves on.
pub fn apply_fold(state: &mut PokerGameState, uid: u64)
    requires
        turn_fits(folded_table(old(state)@, uid)),
    ensures
        final(state)@ == folded_table(old(state)@, uid).after_advance_turn().0,
{
    state.fold(uid);
    state.mark_acted(uid);
    assert(state@.acted =~= folded_table(old(state)@, uid).acted);
    assert(state@ == folded_table(old(state)@, uid));
    state.advance_turn();
}

/// The outcome of a check or call by `uid` whose account holds `bal`
/// (ignored for the bot, which pays from its stack): the amount paid.
pub open spec fn call_check(t: TableView, uid: u64, bal: i64) -> Result<u64, FlowError> {
    let c = call_amount_of(t, uid);
    if exceeds_max(t, uid, c) {
        Err(FlowError::CallExceedsMaxHandBet)
    } else if uid == BOT_USER_ID {
        if t.bot_balance < c { Err(FlowError::BotCannotCall) } else { Ok(c) }
    } else if as_unsigned(bal) < c {
        Err(FlowError::NotEnoughChipsToCall)
    } else {
        Ok(c)
    }
}

/// The table once `uid` has checked or called, paying `c`, before the turn moves.
pub open spec fn called_table(t: TableView, uid: u64, c: u64) -> TableView {
    let b = with_bet(paid_from_stack(t, uid, c), uid, c);
    TableView { acted: b.acted.insert(uid), ..b }
}

/// What a check or call costs `uid`.
pub fn call_amount(state: &PokerGameState, uid: u64) -> (r: u64)
    ensures
        r == call_amount_of(state@, uid),
{
    state.current_bet.saturating_sub(state.player_bet(uid))
}

/// The player checks or calls: they match the current bet and the turn moves
/// on. A player's account balance is `balance`; the bot pays from its stack.
/// Returns what was paid, which the caller takes from the player's account
/// unless the player is the bot.
pub fn apply_check_call(state: &mut PokerGameState, uid: u64, balance: i64) -> (r: Result<u64, FlowError>)
    requires
        call_check(old(state)@, uid, balance) is Ok ==> bet_fits(old(state)@, uid, call_amount_of(old(state)@, uid))
            && turn_fits(old(state)@),
    ensures
        r == call_check(old(state)@, uid, balance),
        r matches Ok(c) ==> final(state)@ == called_table(old(state)@, uid, c).after_advance_turn().0,
        r is Err ==> final(state)@ == old(state)@,
{
    let to_call = call_amount(state, uid);
    if state.would_exceed_max_hand_bet(uid, to_call) {
        return Err(FlowError::CallExceedsMaxHandBet);
    }
    if is_bot(uid) {
        if state.bot_balance < to_call {
            return Err(FlowError::BotCannotCall);
        }
        state.bot_balance = state.bot_balance - to_call;
    } else {
        if balance_as_unsigned(balance) < to_call {
            return Err(FlowError::NotEnoughChipsToCall);
        }
    }
    state.place_bet(uid, to_call);
    state.mark_acted(uid);
    assert(state@ == called_table(old(state)@, uid, to_call));
    state.advance_turn();
    Ok(to_call)
}

/// The outcome of a raise of `raise` by `uid` whose account holds `bal`
/// (ignored for the bot): what the player pays and the new current bet.
pub open spec fn raise_check(t: TableView, uid: u64, raise: u64, bal: i64) -> Result<(u64, u64), FlowError> {
    let new_bet = (t.current_bet + raise) as u64;
    let to_pay = sat_sub(new_bet, t.round_bet(uid));
    if to_pay == 0 {
        Err(FlowError::RaiseTooSmall)
    } else if exceeds_max(t, uid, to_pay) {
        Err(FlowError::RaiseExceedsMaxHandBet)
    } else if uid == BOT_USER_ID {
        if t.bot_balance < to_pay { Err(FlowError::BotCannotRaise) } else { Ok((to_pay, new_bet)) }
    } else if as_unsigned(bal) < to_pay {
        Err(FlowError::NotEnoughChipsToRaise)
    } else {
        Ok((to_pay, new_bet))
    }
}

/// The table once `uid` has raised the bet to `new_bet`, paying `to_pay`,
/// before the turn moves: the raiser is the only one who has acted.
pub open spec fn raised_table(t: TableView, uid: u64, to_pay: u64, new_bet: u64) -> TableView {
    let b = with_bet(paid_from_stack(t, uid, to_pay), uid, to_pay);
    TableView { current_bet: new_bet, acted: Set::empty().insert(uid), ..b }
}

/// The player raises the current bet by `raise_amount` and the turn moves
/// on. A player's account balance is `balance`; the bot pays from its stack.
/// Returns what was paid, which the caller takes from the player's account
/// unless the player is the bot, and the new current bet.
pub fn apply_raise(state: &mut PokerGameState, uid: u64, raise_amount: u64, balance: i64)
    -> (r: Result<(u64, u64), FlowError>)
    requires
        old(state).current_bet + raise_amount <= u64::MAX,
        raise_check(old(state)@, uid, raise_amount, balance) matches Ok((p, _))
            ==> bet_fits(old(state)@, uid, p) && turn_fits(old(state)@),
    ensures
        r == raise_check(old(state)@, uid, raise_amount, balance),
        r matches Ok((p, b)) ==> final(state)@ == raised_table(old(state)@, uid, p, b).after_advance_turn().0,
        r is Err ==> final(state)@ == old(state)@,
{
    let new_bet = state.current_bet + raise_amount;
    let to_pay = new_bet.saturating_sub(state.player_bet(uid));
    if to_pay == 0 {
        return Err(FlowError::RaiseTooSmall);
    }
    if state.would_exceed_max_hand_bet(uid, to_pay) {
        return Err(FlowError::RaiseExceedsMaxHandBet);
    }
    if is_bot(uid) {
        if state.bot_balance < to_pay {
            return Err(FlowError::BotCannotRaise);
        }
        state.bot_balance = state.bot_balance - to_pay;
    } else {
        if balance_as_unsigned(balance) < to_pay {
            return Err(FlowError::NotEnoughChipsToRaise);
        }
    }
    state.place_bet(uid, to_pay);
    state.current_bet = new_bet;
    state.clear_acted_except(uid);
    state.mark_acted(uid);
    assert(state@.acted =~= Set::empty().insert(uid));
    assert(state@ == raised_table(old(state)@, uid, to_pay, new_bet));
    state.advance_turn();
    Ok((to_pay, new_bet))
}

/// The larger of two amounts.
pub open spec fn max_u64(a: u64, b: u64) -> u64 {
    if a >= b { a } else { b }
}

/// The first half of going all in, for `uid` whose account holds `bal`
/// (ignored for the bot, which shoves its stack): what the player puts in
/// and the new current bet.
pub open spec fn all_in_check(t: TableView, uid: u64, bal: i64) -> Result<(u64, u64), FlowError> {
    if uid == BOT_USER_ID {
        if t.bot_balance == 0 {
            Err(FlowError::BotHasNoChips)
        } else {
            Ok((t.bot_balance, max_u64(t.current_bet, (t.round_bet(uid) + t.bot_balance) as u64)))
        }
    } else if bal <= 0 {
        Err(FlowError::NoChips)
    } else {
        Ok((bal as u64, max_u64(t.current_bet, (t.round_bet(uid) + bal) as u64)))
    }
}

/// Works out an all-in by `uid`: the whole of the account balance
/// `balance`, or the bot's whole stack. The caller then empties the
/// player's account (not the bot's) before `commit_all_in`.
pub fn prepare_all_in(state: &PokerGameState, uid: u64, balance: i64) -> (r: Result<(u64, u64), FlowError>)
    requires
        all_in_check(state@, uid, balance) matches Ok((p, _)) ==> state@.round_bet(uid) + p <= u64::MAX,
    ensures
        r == all_in_check(state@, uid, balance),
{
    let user_bet = state.player_bet(uid);
    if is_bot(uid) {
        let bal = state.bot_balance;
        if bal == 0 {
            return Err(FlowError::BotHasNoChips);
        }
        let new_total = user_bet + bal;
        let new_bet = if state.current_bet >= new_total { state.current_bet } else { new_total };
        Ok((bal, new_bet))
    } else {
        if balance <= 0 {
            return Err(FlowError::NoChips);
        }
        let to_pay = balance as u64;
        let new_total = user_bet + to_pay;
        let new_bet = if state.current_bet >= new_total { state.current_bet } else { new_total };
        Ok((to_pay, new_bet))
    }
}

/// The table once `uid` has gone all in with `to_pay`, the current bet now
/// `new_bet`, before the turn moves: the bot's stack is empty, the player
/// is all in and the only one who has acted.
pub open spec fn all_in_table(t: TableView, uid: u64, to_pay: u64, new_bet: u64) -> TableView {
    let s = if uid == BOT_USER_ID { TableView { bot_balance: 0, ..t } } else { t };
    let b = with_bet(s, uid, to_pay);
    TableView { current_bet: new_bet, all_in: b.all_in.insert(uid), acted: Set::empty().insert(uid), ..b }
}

/// The outcome of the second half of going all in.
pub open spec fn all_in_commit_check(t: TableView, uid: u64, to_pay: u64) -> Result<(), FlowError> {
    if exceeds_max(t, uid, to_pay) { Err(FlowError::AllInExceedsMaxHandBet) } else { Ok(()) }
}

/// Finishes an all-in worked out by `prepare_all_in`: the chips go into the
/// pot, the player is all in and the turn moves on, unless the table's limit
/// on a hand's bets forbids it.
pub fn commit_all_in(state: &mut PokerGameState, uid: u64, to_pay: u64, new_bet: u64) -> (r: Result<(), FlowError>)
    requires
        !exceeds_max(old(state)@, uid, to_pay) ==> bet_fits(old(state)@, uid, to_pay) && turn_fits(old(state)@),
    ensures
        r == all_in_commit_check(old(state)@, uid, to_pay),
        r is Ok ==> final(state)@ == all_in_table(old(state)@, uid, to_pay, new_bet).after_advance_turn().0,
        r is Err ==> final(state)@ == old(state)@,
{
    if state.would_exceed_max_hand_bet(uid, to_pay) {
        return Err(FlowError::AllInExceedsMaxHandBet);
    }
    if is_bot(uid) {
        state.bot_balance = 0;
    }
    state.place_bet(uid, to_pay);
    state.current_bet = new_bet;
    state.all_in.insert(uid);
    state.clear_acted_except(uid);
    state.mark_acted(uid);
    assert(state@.acted =~= Set::empty().insert(uid));
    assert(state@ == all_in_table(old(state)@, uid, to_pay, new_bet));
    state.advance_turn();
    Ok(())
}

// ---------------------------------------------------------------------------
// Starting a hand
// ---------------------------------------------------------------------------

/// How starting the game from the lobby went.
#[derive(Debug, Clone, Copy, PartialEq, Eq, Structural)]
pub enum GameStart {
    /// The table had already left the lobby; nothing changed.
    NotInLobby,
    /// Nobody had joined; nothing changed.
    NoPlayers,
    /// The hand began; `bot_added` when a lone player got the bot as opponent.
    Started { bot_added: bool },
}

/// The table with the bot seated, if it was not already.
pub open spec fn with_bot(t: TableView) -> TableView {
    if t.players.contains(BOT_USER_ID) {
        t
    } else {
        TableView { players: t.players.push(BOT_USER_ID), has_bot: true, ..t }
    }
}

/// The table once the hand has begun: a lone player gets the bot as
/// opponent, and the table moves to the pre-flop.
pub open spec fn begun_table(t: TableView) -> TableView {
    let s = if t.players.len() == 1 { with_bot(t) } else { t };
    s.after_advance_phase()
}

/// The outcome of starting the game.
pub open spec fn game_start_of(t: TableView) -> GameStart {
    if t.phase != Phase::Lobby {
        GameStart::NotInLobby
    } else if t.players.len() == 0 {
        GameStart::NoPlayers
    } else {
        GameStart::Started { bot_added: t.players.len() == 1 }
    }
}

/// Starts the game from the lobby: with one player the bot joins, then the
/// table moves to the pre-flop. Hole cards and blinds come next.
pub fn begin_game(state: &mut PokerGameState) -> (r: GameStart)
    ensures
        r == game_start_of(old(state)@),
        r is Started ==> final(state)@ == begun_table(old(state)@),
        !(r is Started) ==> final(state)@ == old(state)@,
{
    match state.phase {
        Phase::Lobby => {},
        _ => { return GameStart::NotInLobby; },
    }
    if state.players.len() == 0 {
        return GameStart::NoPlayers;
    }
    let lone = state.players.len() == 1;
    if lone {
        state.add_bot();
    }
    state.advance_phase();
    GameStart::Started { bot_added: lone }
}

/// The seats of the small and the big blind at a table of `len` players with
/// the dealer in seat `dealer`. Heads-up the dealer posts the small blind;
/// otherwise the two seats after the dealer post.
pub open spec fn blind_seats(len: int, dealer: int) -> (int, int) {
    if len == 2 {
        (dealer, (dealer + 1) % len)
    } else {
        ((dealer + 1) % len, (dealer + 2) % len)
    }
}

/// Computes `blind_seats`.
pub fn blind_positions(len: usize, dealer: usize) -> (r: (usize, usize))
    requires
        len > 0,
        dealer + 2 <= usize::MAX,
    ensures
        r.0 == blind_seats(len as int, dealer as int).0,
        r.1 == blind_seats(len as int, dealer as int).1,
{
    if len == 2 {
        (dealer, (dealer + 1) % len)
    } else {
        ((dealer + 1) % len, (dealer + 2) % len)
    }
}

/// The table once `uid` has posted a blind of `amount`: the bot pays from
/// its stack, down to zero at most.
pub open spec fn blind_posted(t: TableView, uid: u64, amount: u64) -> TableView {
    let s = if uid == BOT_USER_ID { TableView { bot_balance: sat_sub(t.bot_balance, amount), ..t } } else { t };
    with_bet(s, uid, amount)
}

/// The table after the first blind.
pub open spec fn small_blind_table(t: TableView) -> TableView {
    let seats = blind_seats(t.players.len() as int, t.dealer_index as int);
    blind_posted(t, t.players[seats.0], t.small_blind)
}

/// The table once both blinds are in: the current bet is the big blind and
/// the action starts with the seat after the big blind.
pub open spec fn blinds_table(t: TableView) -> TableView {
    let n = t.players.len() as int;
    let seats = blind_seats(n, t.dealer_index as int);
    let s = small_blind_table(t);
    let b = blind_posted(s, t.players[seats.1], t.big_blind);
    TableView { current_bet: t.big_blind, current_player_index: ((seats.1 + 1) % n) as usize, ..b }
}

/// Posting the blinds overflows nothing and reads only existing seats.
pub open spec fn blinds_fit(t: TableView) -> bool {
    let n = t.players.len() as int;
    let seats = blind_seats(n, t.dealer_index as int);
    &&& n > 0
    &&& t.dealer_index + 2 <= usize::MAX
    &&& 0 <= seats.0 < n
    &&& bet_fits(t, t.players[seats.0], t.small_blind)
    &&& bet_fits(small_blind_table(t), t.players[seats.1], t.big_blind)
}

/// Posts the blinds; returns who posted the small and who the big blind.
/// The caller charges the players' accounts, the bot's stack is charged here.
pub fn post_blinds(state: &mut PokerGameState) -> (r: (u64, u64))
    requires
        blinds_fit(old(state)@),
    ensures
        ({
            let t = old(state)@;
            let seats = blind_seats(t.players.len() as int, t.dealer_index as int);
            &&& r == (t.players[seats.0], t.players[seats.1])
            &&& final(state)@ == blinds_table(t)
        }),
{
    let len = state.players.len();
    let (sb_pos, bb_pos) = blind_positions(len, state.dealer_index);
    let sb_uid = state.players[sb_pos];
    let bb_uid = state.players[bb_pos];
    if is_bot(sb_uid) {
        state.bot_balance = state.bot_balance.saturating_sub(state.small_blind);
    }
    let small = state.small_blind;
    state.place_bet(sb_uid, small);
    assert(state@ == small_blind_table(old(state)@));
    if is_bot(bb_uid) {
        state.bot_balance = state.bot_balance.saturating_sub(state.big_blind);
    }
    let big = state.big_blind;
    state.place_bet(bb_uid, big);
    state.current_bet = big;
    state.current_player_index = (bb_pos + 1) % len;
    (sb_uid, bb_uid)
}

// ---------------------------------------------------------------------------
// Moving the game on
// ---------------------------------------------------------------------------

/// What happens next at the table.
#[derive(Debug, Clone, Copy, PartialEq, Eq, Structural)]
pub enum TurnStep {
    /// The betting round is over and the table moved to `phase`; `cards`
    /// community cards are to be dealt.
    NewRound { phase: Phase, cards: u8 },
    /// It is `uid`'s turn, watched by the timer `timer_id`.
    Turn { uid: u64, timer_id: u64 },
    /// The turn index points at no seat; the timer is `timer_id`.
    NoTurn { timer_id: u64 },
}

/// How many community cards come out when the table moves from `prev` to `next`.
pub open spec fn cards_to_deal(prev: Phase, next: Phase) -> u8 {
    if prev == Phase::PreFlop && next == Phase::Flop {
        3
    } else if prev == Phase::Flop && next == Phase::Turn {
        1
    } else if prev == Phase::Turn && next == Phase::River {
        1
    } else {
        0
    }
}

/// The table at the start of a new betting round: no bets, nobody has
/// acted, and the action starts after the dealer.
pub open spec fn round_reset(t: TableView) -> TableView {
    TableView {
        current_bet: 0,
        round_bets: Map::empty(),
        acted: Set::empty(),
        current_player_index: ((t.dealer_index + 1) % (t.players.len() as int)) as usize,
        ..t
    }
}

/// The next step of the game from table `t`, and the table after it. The
/// turn first skips players who cannot bet; when the betting round is over
/// the table moves to the next stage, otherwise the turn timer is renewed.
pub open spec fn turn_step_of(t: TableView) -> (TableView, TurnStep) {
    let s = t.after_skip_folded();
    if s.round_complete() {
        let a = s.after_advance_phase();
        (round_reset(a), TurnStep::NewRound { phase: a.phase, cards: cards_to_deal(s.phase, a.phase) })
    } else {
        let timer = (s.turn_timer_id + 1) as u64;
        let u = TableView { turn_timer_id: timer, ..s };
        (u, match s.current() {
            Some(uid) => TurnStep::Turn { uid, timer_id: timer },
            None => TurnStep::NoTurn { timer_id: timer },
        })
    }
}

/// Moves the game on by one step; the caller deals the cards of a new
/// round, prompts the player whose turn it is and starts the timers.
pub fn next_turn_step(state: &mut PokerGameState) -> (r: TurnStep)
    requires
        old(state)@.players.len() > 0,
        old(state).current_player_index < usize::MAX,
        old(state).dealer_index < usize::MAX,
        !old(state)@.after_skip_folded().round_complete() ==> old(state).turn_timer_id < u64::MAX,
    ensures
        final(state)@ == turn_step_of(old(state)@).0,
        r == turn_step_of(old(state)@).1,
{
    state.skip_folded_players();
    let ghost s = state@;
    if state.betting_round_complete() {
        let prev = state.phase;
        state.advance_phase();
        let next = state.phase;
        let cards: u8 = match (prev, next) {
            (Phase::PreFlop, Phase::Flop) => 3,
            (Phase::Flop, Phase::Turn) => 1,
            (Phase::Turn, Phase::River) => 1,
            _ => 0,
        };
        state.current_bet = 0;
        state.round_bets.clear();
        state.acted_this_round.clear();
        state.current_player_index = (state.dealer_index + 1) % state.players.len();
        assert(state@ == round_reset(s.after_advance_phase()));
        TurnStep::NewRound { phase: next, cards }
    } else {
        state.turn_timer_id = state.turn_timer_id + 1;
        let timer_id = state.turn_timer_id;
        match state.current_player() {
            Some(uid) => TurnStep::Turn { uid, timer_id },
            None => TurnStep::NoTurn { timer_id },
        }
    }
}

/// A turn timer that runs out folds `uid` only while it is still the
/// current timer and still `uid`'s turn.
pub fn auto_fold_due(state: &PokerGameState, uid: u64, timer_id: u64) -> (r: bool)
    ensures
        r == (state.turn_timer_id == timer_id && state@.current() == Some(uid)),
{
    if state.turn_timer_id != timer_id {
        return false;
    }
    match state.current_player() {
        Some(current) => current == uid,
        None => false,
    }
}

/// The bot acts on a timer only while it is still the current timer, still
/// `uid`'s turn, and `uid` is the bot.
pub fn bot_turn_due(state: &PokerGameState, uid: u64, timer_id: u64) -> (r: bool)
    ensures
        r == (state.turn_timer_id == timer_id && state@.current() == Some(uid) && uid == BOT_USER_ID),
{
    if state.turn_timer_id != timer_id {
        return false;
    }
    match state.current_player() {
        Some(current) => current == uid && is_bot(uid),
        None => false,
    }
}

// ---------------------------------------------------------------------------
// Showdown
// ---------------------------------------------------------------------------

/// The value of the best hand `uid` can make from their hole cards and the
/// community cards.
pub open spec fn player_value(t: TableView, uid: u64) -> Seq<u8> {
    hand_value(eval_cards(t.hole(uid)) + eval_cards(t.community_cards))
}

/// Nobody in `field` holds a better hand than `uid`.
pub open spec fn unbeaten(t: TableView, field: Seq<u64>, uid: u64) -> bool {
    forall|k: int| 0 <= k < field.len() ==> !lex_gt(#[trigger] player_value(t, field[k]), player_value(t, uid))
}

/// The players of `players` whom nobody in `field` beats, in order.
pub open spec fn unbeaten_of(t: TableView, field: Seq<u64>, players: Seq<u64>) -> Seq<u64>
    decreases players.len(),
{
    if players.len() == 0 {
        Seq::empty()
    } else if unbeaten(t, field, players.last()) {
        unbeaten_of(t, field, players.drop_last()).push(players.last())
    } else {
        unbeaten_of(t, field, players.drop_last())
    }
}

/// The winners of the showdown: the active players with the best hand, in
/// seat order.
pub open spec fn showdown_winners(t: TableView) -> Seq<u64> {
    unbeaten_of(t, t.active(), t.active())
}

/// `pot` shared among `winners`: each gets an equal share, and the first
/// `pot % winners` of them one chip more.
pub open spec fn split_pot(pot: u64, winners: Seq<u64>) -> Seq<(u64, u64)> {
    let w = winners.len() as int;
    Seq::new(winners.len(), |i: int| (winners[i], ((pot as int) / w + if i < (pot as int) % w { 1int } else { 0int }) as u64))
}

/// What each winner of the showdown takes from the pot.
pub open spec fn showdown_payouts_of(t: TableView) -> Seq<(u64, u64)> {
    split_pot(t.pot, showdown_winners(t))
}

/// When `best` holds a hand nobody in `field` beats, the players nobody in
/// `field` beats are those whose hand `best`'s does not beat.
proof fn lemma_unbeaten_by_best(t: TableView, field: Seq<u64>, best: int, j: int)
    requires
        0 <= best < field.len(),
        0 <= j < field.len(),
        unbeaten(t, field, field[best]),
    ensures
        unbeaten(t, field, field[j]) <==> !lex_gt(player_value(t, field[best]), player_value(t, field[j])),
{
    let vb = player_value(t, field[best]);
    let vj = player_value(t, field[j]);
    if unbeaten(t, field, field[j]) {
        assert(!lex_gt(player_value(t, field[best]), vj));
    }
    if !lex_gt(vb, vj) {
        assert(!lex_gt(player_value(t, field[j]), vb));
        lemma_lex_gt_total(vb, vj);
        assert(vb =~= vj);
    }
}

/// Shares `pot` among `winners` as `split_pot` says.
pub fn split_pot_among(pot: u64, winners: &Vec<u64>) -> (r: Vec<(u64, u64)>)
    ensures
        r@ == split_pot(pot, winners@),
{
    let mut r: Vec<(u64, u64)> = Vec::new();
    let w = winners.len();
    if w == 0 {
        assert(r@ =~= split_pot(pot, winners@));
        return r;
    }
    let share = pot / (w as u64);
    let remainder = pot % (w as u64);
    proof {
        assert(share * w + remainder == pot) by (nonlinear_arith)
            requires share == pot / (w as u64), remainder == pot % (w as u64), w >= 1;
        assert(remainder < w);
        if remainder > 0 {
            assert(share + 1 <= pot) by (nonlinear_arith)
                requires share * w + remainder == pot, remainder >= 1, w >= 1, share >= 0;
        }
    }
    let mut i: usize = 0;
    while i < w
        invariant
            w == winners@.len(),
            w >= 1,
            i <= w,
            share == (pot as int) / (w as int),
            remainder == (pot as int) % (w as int),
            remainder > 0 ==> share + 1 <= pot,
            r@ =~= split_pot(pot, winners@).take(i as int),
        decreases w - i,
    {
        let extra: u64 = if i < remainder as usize { 1 } else { 0 };
        let amount = share + extra;
        r.push((winners[i], amount));
        i = i + 1;
    }
    r
}

/// What each winner of the showdown takes: the whole pot when one active
/// player is left, otherwise the pot shared among the active players with
/// the best hand; nothing when nobody is active. The caller credits the
/// winners' accounts, and the bot's stack.
pub fn showdown_payouts(state: &PokerGameState) -> (r: Vec<(u64, u64)>)
    ensures
        r@ == showdown_payouts_of(state@),
{
    let ghost t = state@;
    let active = state.active_players();
    let n = active.len();
    if n == 0 {
        let r: Vec<(u64, u64)> = Vec::new();
        assert(r@ =~= showdown_payouts_of(t));
        return r;
    }
    if n == 1 {
        let r = vec![(active[0], state.pot)];
        proof {
            let a = t.active();
            lemma_lex_gt_irreflexive(player_value(t, a[0]));
            assert(unbeaten(t, a, a[0]));
            assert(a.drop_last() =~= Seq::<u64>::empty());
            assert(a.last() == a[0]);
            assert(unbeaten_of(t, a, a.drop_last()) =~= Seq::<u64>::empty());
            assert(showdown_winners(t) =~= seq![a[0]]);
            assert((state.pot as int) / 1 == state.pot);
            assert((state.pot as int) % 1 == 0);
            assert(r@ =~= showdown_payouts_of(t));
        }
        return r;
    }
    let mut values: Vec<Vec<u8>> = Vec::new();
    let mut i: usize = 0;
    while i < n
        invariant
            n == active@.len(),
            active@ == t.active(),
            t == state@,
            i <= n,
            values@.len() == i,
            forall|k: int| 0 <= k < i ==> (#[trigger] values@[k])@ == player_value(t, active@[k]),
        decreases n - i,
    {
        let cards = state.all_cards_for_player(active[i]);
        let v = evaluate_seven(cards.as_slice());
        values.push(v);
        i = i + 1;
    }
    let mut best: usize = 0;
    proof { lemma_lex_gt_irreflexive(values@[0]@); }
    let mut i: usize = 1;
    while i < n
        invariant
            n == active@.len(),
            values@.len() == n,
            1 <= i <= n,
            best < i,
            forall|k: int| 0 <= k < i ==> !lex_gt((#[trigger] values@[k])@, values@[best as int]@),
        decreases n - i,
    {
        if lex_greater(&values[i], &values[best]) {
            proof {
                assert forall|k: int| 0 <= k < i + 1 implies !lex_gt((#[trigger] values@[k])@, values@[i as int]@) by {
                    if k == i {
                        lemma_lex_gt_irreflexive(values@[i as int]@);
                    } else if lex_gt(values@[k]@, values@[i as int]@) {
                        crate::commands::poker::hand_evaluator::lemma_lex_gt_transitive(
                            values@[k]@, values@[i as int]@, values@[best as int]@);
                    }
                }
            }
            best = i;
        }
        i = i + 1;
    }
    proof {
        let a = t.active();
        assert forall|k: int| 0 <= k < a.len() implies !lex_gt(#[trigger] player_value(t, a[k]), player_value(t, a[best as int])) by {
            assert(values@[k]@ == player_value(t, a[k]));
        }
        assert(unbeaten(t, a, a[best as int]));
    }
    let mut winners: Vec<u64> = Vec::new();
    let mut i: usize = 0;
    while i < n
        invariant
            n == active@.len(),
            active@ == t.active(),
            values@.len() == n,
            best < n,
            forall|k: int| 0 <= k < n ==> (#[trigger] values@[k])@ == player_value(t, active@[k]),
            unbeaten(t, active@, active@[best as int]),
            i <= n,
            winners@ == unbeaten_of(t, active@, active@.take(i as int)),
        decreases n - i,
    {
        proof {
            lemma_unbeaten_by_best(t, active@, best as int, i as int);
            assert(active@.take(i + 1).drop_last() =~= active@.take(i as int));
            assert(values@[i as int]@ == player_value(t, active@[i as int]));
            assert(values@[best as int]@ == player_value(t, active@[best as int]));
        }
        if !lex_greater(&values[best], &values[i]) {
            winners.push(active[i]);
        }
        i = i + 1;
    }
    assert(active@.take(n as int) =~= active@);
    split_pot_among(state.pot, &winners)
}

/// Credits showdown winnings to the bot's stack.
pub fn credit_bot(state: &mut PokerGameState, amount: u64)
    requires
        old(state).bot_balance + amount <= u64::MAX,
    ensures
        final(state)@ == (TableView { bot_balance: (old(state)@.bot_balance + amount) as u64, ..old(state)@ }),
{
    state.bot_balance = state.bot_balance + amount;
}

// ---------------------------------------------------------------------------
// Opening a table
// ---------------------------------------------------------------------------

/// Why a table could not be opened.
#[derive(Debug, Clone, Copy, PartialEq, Eq, Structural)]
pub enum StartError {
    GameActive,
    ZeroMaxBet,
    MaxBetOverBalance,
}

/// The message of each refusal to open a table.
pub open spec fn start_error_text(e: StartError) -> Seq<char> {
    match e {
        StartError::GameActive => "A poker game is already active in this channel."@,
        StartError::ZeroMaxBet => "Maximum hand bet must be greater than 0."@,
        StartError::MaxBetOverBalance => "Maximum hand bet cannot exceed your current balance."@,
    }
}

impl StartError {
    /// The message of the refusal.
    pub fn message(&self) -> (r: &'static str)
        ensures
            r@ == start_error_text(*self),
    {
        match self {
            StartError::GameActive => "A poker game is already active in this channel.",
            StartError::ZeroMaxBet => "Maximum hand bet must be greater than 0.",
            StartError::MaxBetOverBalance => "Maximum hand bet cannot exceed your current balance.",
        }
    }
}

/// A table stored for the channel blocks a new one unless its game is finished.
pub fn check_no_active_game(existing: Option<Phase>) -> (r: Result<(), StartError>)
    ensures
        r == match existing {
            Some(p) => if p != Phase::Finished { Err(StartError::GameActive) } else { Ok(()) },
            None => Ok(()),
        },
{
    match existing {
        Some(Phase::Finished) => Ok(()),
        Some(_) => Err(StartError::GameActive),
        None => Ok(()),
    }
}

/// The limit on a hand's bets given as a signed option, read as `u64`
/// (a negative number wraps round).
pub fn max_bet_option(raw: Option<i64>) -> (r: Option<u64>)
    ensures
        r == match raw { Some(v) => Some(as_unsigned(v) as u64), None => None },
{
    match raw {
        Some(v) => Some(balance_as_unsigned(v)),
        None => None,
    }
}

/// A limit on a hand's bets must be above 0.
pub fn check_max_bet_nonzero(max: u64) -> (r: Result<(), StartError>)
    ensures
        r == if max == 0 { Err(StartError::ZeroMaxBet) } else { Ok(()) },
{
    if max == 0 { Err(StartError::ZeroMaxBet) } else { Ok(()) }
}

/// A limit on a hand's bets must not be above the host's balance `bal`
/// (read as unsigned, so a negative balance allows any limit).
pub fn check_max_bet_balance(max: u64, bal: i64) -> (r: Result<(), StartError>)
    ensures
        r == if as_unsigned(bal) < max { Err(StartError::MaxBetOverBalance) } else { Ok(()) },
{
    if balance_as_unsigned(bal) < max { Err(StartError::MaxBetOverBalance) } else { Ok(()) }
}

/// A new table in the lobby, opened by `host`, with the lobby and turn
/// times and the limit on a hand's bets.
pub fn new_lobby(host: u64, max_hand_bet: Option<u64>) -> (r: PokerGameState)
    ensures
        r@ == (TableView {
            lobby_seconds: LOBBY_SECONDS,
            turn_seconds: TURN_SECONDS,
            max_hand_bet,
            ..PokerGameState::new_table_view(host)
        }),
{
    let mut state = PokerGameState::new(host);
    state.lobby_seconds = LOBBY_SECONDS;
    state.turn_seconds = TURN_SECONDS;
    state.max_hand_bet = max_hand_bet;
    state
}

/// Whether a button press by `clicker` is acted on: anyone may join or
/// start, a player's buttons answer only that player.
pub fn button_for(component: crate::commands::poker::components::PokerComponent, clicker: u64) -> (r: bool)
    ensures
        r == match component {
            crate::commands::poker::components::PokerComponent::ShowCards { uid, .. } => uid == clicker,
            crate::commands::poker::components::PokerComponent::Action { uid, .. } => uid == clicker,
            _ => true,
        },
{
    match component {
        crate::commands::poker::components::PokerComponent::ShowCards { uid, .. } => uid == clicker,
        crate::commands::poker::components::PokerComponent::Action { uid, .. } => uid == clicker,
        _ => true,
    }
}

// ---------------------------------------------------------------------------
// What every hand keeps
// ---------------------------------------------------------------------------

/// The chips paid out in a list of payouts.
pub open spec fn payout_total(s: Seq<(u64, u64)>) -> int
    decreases s.len(),
{
    if s.len() == 0 { 0 } else { payout_total(s.drop_last()) + s.last().1 }
}

/// The first `k` shares of a split pot add up to `k` equal shares plus one
/// chip for each of them that gets an odd chip.
proof fn lemma_split_pot_prefix(pot: u64, winners: Seq<u64>, k: int)
    requires
        winners.len() >= 1,
        0 <= k <= winners.len(),
    ensures
        ({
            let w = winners.len() as int;
            let q = (pot as int) / w;
            let r = (pot as int) % w;
            payout_total(split_pot(pot, winners).take(k)) == k * q + if k < r { k } else { r }
        }),
    decreases k,
{
    let w = winners.len() as int;
    let q = (pot as int) / w;
    let r = (pot as int) % w;
    let s = split_pot(pot, winners);
    if k == 0 {
        assert(s.take(0) =~= Seq::<(u64, u64)>::empty());
    } else {
        lemma_split_pot_prefix(pot, winners, k - 1);
        assert(s.take(k).drop_last() =~= s.take(k - 1));
        assert(s.take(k).last() == s[k - 1]);
        vstd::arithmetic::div_mod::lemma_fundamental_div_mod(pot as int, w);
        assert(0 <= r < w) by {
            vstd::arithmetic::div_mod::lemma_mod_bound(pot as int, w);
        }
        assert(q >= 0) by {
            vstd::arithmetic::div_mod::lemma_div_pos_is_pos(pot as int, w);
        }
        if k - 1 < r {
            assert(q + 1 <= pot) by (nonlinear_arith)
                requires w * q + r == pot, r >= 1, w >= 1, q >= 0;
        }
        assert(k * q == (k - 1) * q + q) by (nonlinear_arith);
    }
}

/// The showdown hands out the whole pot, among as many winners as there
/// are unbeaten active players; each winner gets an equal share or one
/// chip more. Someone always wins while a player is active.
pub proof fn lemma_showdown_pays_out_the_pot(t: TableView)
    requires
        t.active().len() >= 1,
    ensures
        showdown_winners(t).len() >= 1,
        showdown_payouts_of(t).len() == showdown_winners(t).len(),
        payout_total(showdown_payouts_of(t)) == t.pot,
        forall|i: int| 0 <= i < showdown_winners(t).len() ==> {
            let w = showdown_winners(t).len() as int;
            &&& (#[trigger] showdown_payouts_of(t)[i]).0 == showdown_winners(t)[i]
            &&& showdown_payouts_of(t)[i].1 == (t.pot as int) / w
                || showdown_payouts_of(t)[i].1 == (t.pot as int) / w + 1
        },
{
    let a = t.active();
    let b = lemma_best_exists(t, a, a.len() as int);
    lemma_unbeaten_of_keeps(t, a, a, b);
    let winners = showdown_winners(t);
    let w = winners.len() as int;
    lemma_split_pot_prefix(t.pot, winners, w);
    let s = split_pot(t.pot, winners);
    assert(s.take(w) =~= s);
    vstd::arithmetic::div_mod::lemma_fundamental_div_mod(t.pot as int, w);
    vstd::arithmetic::div_mod::lemma_mod_bound(t.pot as int, w);
    vstd::arithmetic::div_mod::lemma_div_pos_is_pos(t.pot as int, w);
    assert forall|i: int| 0 <= i < w implies {
        &&& (#[trigger] s[i]).0 == winners[i]
        &&& s[i].1 == (t.pot as int) / w || s[i].1 == (t.pot as int) / w + 1
    } by {
        let q = (t.pot as int) / w;
        let r = (t.pot as int) % w;
        if i < r {
            assert(q + 1 <= t.pot) by (nonlinear_arith)
                requires w * q + r == t.pot, r >= 1, w >= 1, q >= 0;
        }
    }
}

/// Among the first `k` players of a non-empty `field` one holds a hand no
/// other of them beats; returns its place.
proof fn lemma_best_exists(t: TableView, field: Seq<u64>, k: int) -> (b: int)
    requires
        1 <= k <= field.len(),
    ensures
        0 <= b < k,
        forall|m: int| 0 <= m < k ==> !lex_gt(#[trigger] player_value(t, field[m]), player_value(t, field[b])),
    decreases k,
{
    if k == 1 {
        lemma_lex_gt_irreflexive(player_value(t, field[0]));
        0
    } else {
        let b0 = lemma_best_exists(t, field, k - 1);
        let vk = player_value(t, field[k - 1]);
        let vb = player_value(t, field[b0]);
        if lex_gt(vk, vb) {
            assert forall|m: int| 0 <= m < k implies !lex_gt(#[trigger] player_value(t, field[m]), vk) by {
                if m == k - 1 {
                    lemma_lex_gt_irreflexive(vk);
                } else if lex_gt(player_value(t, field[m]), vk) {
                    crate::commands::poker::hand_evaluator::lemma_lex_gt_transitive(player_value(t, field[m]), vk, vb);
                }
            }
            k - 1
        } else {
            b0
        }
    }
}

/// A player of `players` whom nobody in `field` beats is among
/// `unbeaten_of(field, players)`, which is then not empty.
proof fn lemma_unbeaten_of_keeps(t: TableView, field: Seq<u64>, players: Seq<u64>, j: int)
    requires
        0 <= j < players.len(),
        forall|m: int| 0 <= m < field.len() ==> !lex_gt(#[trigger] player_value(t, field[m]), player_value(t, players[j])),
    ensures
        unbeaten_of(t, field, players).len() >= 1,
    decreases players.len(),
{
    if j == players.len() - 1 {
        assert(players.last() == players[j]);
        assert(unbeaten(t, field, players.last()));
    } else {
        assert(players.drop_last()[j] == players[j]);
        lemma_unbeaten_of_keeps(t, field, players.drop_last(), j);
    }
}

/// No successful call, raise or all-in takes a player's bets over the hand
/// past the table's limit.
pub proof fn lemma_bets_respect_max_hand_bet(t: TableView, uid: u64, bal: i64, raise: u64, to_pay: u64, new_bet: u64)
    ensures
        match (call_check(t, uid, bal), t.max_hand_bet) {
            (Ok(c), Some(m)) => bet_fits(t, uid, c) ==> called_table(t, uid, c).after_advance_turn().0.hand_bet(uid) <= m,
            _ => true,
        },
        match (raise_check(t, uid, raise, bal), t.max_hand_bet) {
            (Ok((p, b)), Some(m)) => bet_fits(t, uid, p)
                ==> raised_table(t, uid, p, b).after_advance_turn().0.hand_bet(uid) <= m,
            _ => true,
        },
        match (all_in_commit_check(t, uid, to_pay), t.max_hand_bet) {
            (Ok(()), Some(m)) => bet_fits(t, uid, to_pay)
                ==> all_in_table(t, uid, to_pay, new_bet).after_advance_turn().0.hand_bet(uid) <= m,
            _ => true,
        },
{
}

/// Betting moves chips and loses none: the pot grows by what the player
/// pays, and so do the player's bets this round and over the hand. When the
/// bot pays, its stack shrinks by the same amount, so stack and pot together
/// stay the same.
pub proof fn lemma_bets_move_chips_into_the_pot(t: TableView, uid: u64, bal: i64, raise: u64, to_pay: u64, new_bet: u64)
    ensures
        match call_check(t, uid, bal) {
            Ok(c) => bet_fits(t, uid, c) ==> {
                let f = called_table(t, uid, c).after_advance_turn().0;
                &&& f.pot == t.pot + c
                &&& f.hand_bet(uid) == t.hand_bet(uid) + c
                &&& f.round_bet(uid) == t.round_bet(uid) + c
                &&& uid == BOT_USER_ID ==> f.bot_balance + f.pot == t.bot_balance + t.pot
                &&& uid != BOT_USER_ID ==> f.bot_balance == t.bot_balance
            },
            Err(_) => true,
        },
        match raise_check(t, uid, raise, bal) {
            Ok((p, b)) => bet_fits(t, uid, p) ==> {
                let f = raised_table(t, uid, p, b).after_advance_turn().0;
                &&& f.pot == t.pot + p
                &&& f.hand_bet(uid) == t.hand_bet(uid) + p
                &&& f.round_bet(uid) == t.round_bet(uid) + p
                &&& f.current_bet == b
                &&& uid == BOT_USER_ID ==> f.bot_balance + f.pot == t.bot_balance + t.pot
                &&& uid != BOT_USER_ID ==> f.bot_balance == t.bot_balance
            },
            Err(_) => true,
        },
        match all_in_check(t, uid, bal) {
            Ok((p, b)) => uid == BOT_USER_ID && bet_fits(t, uid, p) && all_in_commit_check(t, uid, p) is Ok ==> {
                let f = all_in_table(t, uid, p, b).after_advance_turn().0;
                &&& f.pot == t.pot + p
                &&& f.bot_balance == 0
                &&& f.bot_balance + f.pot == t.bot_balance + t.pot
            },
            Err(_) => true,
        },
{
}

/// The turn scan from step `s` to step `k` finds a player exactly when one of
/// those seats holds a player who still has to act, and then stops at the
/// first of them.
proof fn lemma_turn_scan_finds_actor(t: TableView, s: int, k: int)
    requires
        t.players.len() > 0,
        s >= 1,
    ensures
        0 <= t.turn_scan(s, k).0 < t.players.len(),
        t.turn_scan(s, k).1 <==> exists|j: int| s <= j <= k && #[trigger] t.needs_turn(t.step_pos(j)),
        t.turn_scan(s, k).1 ==> exists|j: int| s <= j <= k
            && t.turn_scan(s, k).0 == t.step_pos(j)
            && #[trigger] t.needs_turn(t.step_pos(j))
            && forall|i: int| s <= i < j ==> !#[trigger] t.needs_turn(t.step_pos(i)),
    decreases k + 1 - s,
{
    if s <= k {
        if t.needs_turn(t.step_pos(s)) {
            assert(forall|i: int| s <= i < s ==> !#[trigger] t.needs_turn(t.step_pos(i)));
        } else {
            lemma_turn_scan_finds_actor(t, s + 1, k);
            if exists|j: int| s <= j <= k && #[trigger] t.needs_turn(t.step_pos(j)) {
                let j = choose|j: int| s <= j <= k && #[trigger] t.needs_turn(t.step_pos(j));
                assert(j != s);
                assert(s + 1 <= j <= k);
            }
        }
    }
}

/// Moving the turn changes nothing but whose turn it is. With two or more
/// active players it succeeds exactly when some seat, counted on from the
/// current one, holds a player who still has to act (not folded, not all
/// in, and either yet to act or short of the current bet), and the turn
/// then goes to the first such seat in seat order.
pub proof fn lemma_turn_goes_to_a_player_who_must_act(t: TableView)
    requires
        0 < t.players.len() <= usize::MAX,
    ensures
        t.after_advance_turn().0 == (TableView { current_player_index: t.after_advance_turn().0.current_player_index, ..t }),
        t.after_advance_turn().1 ==> {
            let f = t.after_advance_turn().0;
            &&& f.current_player_index < t.players.len()
            &&& t.needs_turn(f.current_player_index as int)
        },
        t.active().len() >= 2 ==> (t.after_advance_turn().1 <==> exists|j: int|
            1 <= j <= t.players.len() && #[trigger] t.needs_turn(t.step_pos(j))),
        t.after_advance_turn().1 ==> exists|j: int| 1 <= j <= t.players.len()
            && t.after_advance_turn().0.current_player_index == t.step_pos(j)
            && #[trigger] t.needs_turn(t.step_pos(j))
            && forall|i: int| 1 <= i < j ==> !#[trigger] t.needs_turn(t.step_pos(i)),
        t.active().len() < 2 ==> t.after_advance_turn() == (t, false),
{
    let n = t.players.len() as int;
    lemma_turn_scan_finds_actor(t, 1, n);
}

/// Starting a hand from the lobby (`begin_game`), dealing the hole cards
/// (`deal_hole_cards`) and posting the blinds (`post_blinds`) leaves the
/// table in the pre-flop with every seated player holding two cards, the
/// small and the big blind posted by the seats `blind_seats` names, the pot
/// grown by both blinds, the big blind as the bet to call, the action with
/// the seat after the big blind, and the bot's stack charged, down to zero
/// at most, for a blind it posts.
pub proof fn lemma_hand_starts_with_blinds_posted(t: TableView, drawn: Seq<u8>)
    requires
        t.phase == Phase::Lobby,
        2 <= begun_table(t).players.len() <= usize::MAX,
        begun_table(t).players.no_duplicates(),
        t.dealer_index < begun_table(t).players.len(),
        drawn.len() == 2 * begun_table(t).players.len(),
        blinds_fit(TableView {
            hole_cards: dealt_hole_cards(begun_table(t).hole_cards, begun_table(t).players, drawn),
            ..begun_table(t)
        }),
    ensures
        ({
            let b = begun_table(t);
            let d = TableView { hole_cards: dealt_hole_cards(b.hole_cards, b.players, drawn), ..b };
            let f = blinds_table(d);
            let n = b.players.len() as int;
            let seats = blind_seats(n, t.dealer_index as int);
            let sb = b.players[seats.0];
            let bb = b.players[seats.1];
            let after_small = if sb == BOT_USER_ID { sat_sub(t.bot_balance, t.small_blind) } else { t.bot_balance };
            &&& f.phase == Phase::PreFlop
            &&& f.players == b.players
            &&& forall|i: int| 0 <= i < n ==> #[trigger] f.hole(f.players[i]).len() == 2
            &&& sb != bb
            &&& f.round_bet(sb) == t.small_blind
            &&& f.round_bet(bb) == t.big_blind
            &&& f.pot == t.pot + t.small_blind + t.big_blind
            &&& f.current_bet == t.big_blind
            &&& f.current_player_index == (seats.1 + 1) % n
            &&& f.bot_balance == if bb == BOT_USER_ID { sat_sub(after_small, t.big_blind) } else { after_small }
        }),
{
    let b = begun_table(t);
    let d = TableView { hole_cards: dealt_hole_cards(b.hole_cards, b.players, drawn), ..b };
    let n = b.players.len() as int;
    let seats = blind_seats(n, t.dealer_index as int);
    lemma_dealt_two_each(b.hole_cards, b.players, drawn);
    assert(0 <= seats.0 < n && 0 <= seats.1 < n && seats.0 != seats.1) by {
        if n == 2 {
            assert(t.dealer_index < 2);
        } else {
            vstd::arithmetic::div_mod::lemma_mod_bound(t.dealer_index + 1, n);
            vstd::arithmetic::div_mod::lemma_mod_bound(t.dealer_index + 2, n);
            lemma_mod_step(t.dealer_index + 1, n);
            if (t.dealer_index + 1) % n == n - 1 {
                vstd::arithmetic::div_mod::lemma_mod_self_0(n);
                assert((t.dealer_index + 2) % n == 0);
            } else {
                vstd::arithmetic::div_mod::lemma_small_mod(((t.dealer_index + 1) % n + 1) as nat, n as nat);
            }
        }
    }
    assert(b.players[seats.0] != b.players[seats.1]);
    assert(d.round_bets == Map::<u64, u64>::empty());
    vstd::arithmetic::div_mod::lemma_mod_bound(seats.1 + 1, n);
}

/// When the betting round is over in the pre-flop, flop or turn, the next
/// step (`next_turn_step`) moves the table to the next street, asks for
/// three new community cards after the pre-flop and one otherwise, clears
/// the bets and who has acted, and gives the action to the seat after the
/// dealer.
pub proof fn lemma_new_street_resets_the_round(t: TableView)
    requires
        0 < t.players.len() <= usize::MAX,
        t.after_skip_folded().round_complete(),
        t.after_skip_folded().phase == Phase::PreFlop || t.after_skip_folded().phase == Phase::Flop
            || t.after_skip_folded().phase == Phase::Turn,
    ensures
        ({
            let s = t.after_skip_folded();
            let f = turn_step_of(t).0;
            let next = if s.phase == Phase::PreFlop { Phase::Flop } else if s.phase == Phase::Flop { Phase::Turn } else { Phase::River };
            &&& f.phase == next
            &&& turn_step_of(t).1 == (TurnStep::NewRound { phase: next, cards: if s.phase == Phase::PreFlop { 3u8 } else { 1u8 } })
            &&& f.community_cards == t.community_cards
            &&& f.current_bet == 0
            &&& f.round_bets == Map::<u64, u64>::empty()
            &&& f.acted == Set::<u64>::empty()
            &&& f.current_player_index == (t.dealer_index + 1) % (t.players.len() as int)
            &&& f.players == t.players
            &&& f.pot == t.pot
        }),
{
    vstd::arithmetic::div_mod::lemma_mod_bound(t.dealer_index + 1, t.players.len() as int);
}

/// A check or call brings the caller's bet for this betting round up to the
/// current bet: what is paid is the difference (nothing when the caller's
/// bet already covers it), the pot grows by it and the caller has acted.
pub proof fn lemma_call_matches_the_current_bet(t: TableView, uid: u64, bal: i64)
    ensures
        call_check(t, uid, bal) matches Ok(c) ==> {
            &&& t.round_bet(uid) <= t.current_bet ==> t.round_bet(uid) + c == t.current_bet
            &&& t.round_bet(uid) > t.current_bet ==> c == 0
        },
        call_check(t, uid, bal) matches Ok(c) ==> bet_fits(t, uid, c) ==> {
            let f = called_table(t, uid, c);
            &&& f.round_bet(uid) == if t.round_bet(uid) <= t.current_bet { t.current_bet } else { t.round_bet(uid) }
            &&& f.pot == t.pot + c
            &&& f.acted.contains(uid)
        },
{
}

/// A raise lifts the current bet by the raise and brings the raiser's bet
/// for this betting round up to it: what is paid is the difference, the
/// pot grows by it, and the raiser is then the only one who has acted. A
/// raise that would cost nothing is refused.
pub proof fn lemma_raise_lifts_the_bet(t: TableView, uid: u64, raise: u64, bal: i64)
    requires
        t.current_bet + raise <= u64::MAX,
    ensures
        (raise_check(t, uid, raise, bal) == Err::<(u64, u64), FlowError>(FlowError::RaiseTooSmall))
            <==> t.round_bet(uid) >= t.current_bet + raise,
        raise_check(t, uid, raise, bal) matches Ok((p, b)) ==> {
            &&& b == t.current_bet + raise
            &&& t.round_bet(uid) + p == b
            &&& p > 0
        },
        raise_check(t, uid, raise, bal) matches Ok((p, b)) ==> bet_fits(t, uid, p) ==> {
            let f = raised_table(t, uid, p, b);
            &&& f.round_bet(uid) == b
            &&& f.current_bet == b
            &&& f.pot == t.pot + p
            &&& f.acted == Set::<u64>::empty().insert(uid)
        },
{
}

/// Going all in puts the player's whole balance (the bot: its whole stack)
/// into the pot, and the current bet becomes the player's bet for the round
/// when that is higher: never below it, never below the current bet, and
/// one of the two.
pub proof fn lemma_all_in_raises_the_bet_to_the_shove(t: TableView, uid: u64, bal: i64)
    ensures
        all_in_check(t, uid, bal) matches Ok((p, b)) ==> t.round_bet(uid) + p <= u64::MAX ==> {
            &&& p == if uid == BOT_USER_ID { t.bot_balance as int } else { bal as int }
            &&& p > 0
            &&& b >= t.round_bet(uid) + p
            &&& b >= t.current_bet
            &&& (b == t.current_bet || b == t.round_bet(uid) + p)
        },
{
}

/// A betting round with two or more active players is over exactly when
/// every active player who is not all in has acted this round and matched
/// the current bet; so while such a player has yet to act, the next step
/// (`next_turn_step`) hands out a turn rather than a new street.
pub proof fn lemma_round_over_only_when_everyone_has_acted(t: TableView)
    ensures
        t.active().len() >= 2 ==> (t.round_complete() <==> forall|i: int| 0 <= i < t.active().len() ==> {
            let id = #[trigger] t.active()[i];
            t.all_in.contains(id) || (t.acted.contains(id) && t.round_bet(id) >= t.current_bet)
        }),
        t.active().len() >= 2 && t.round_complete() ==> forall|i: int| 0 <= i < t.active().len()
            && !t.all_in.contains(#[trigger] t.active()[i]) ==> t.acted.contains(t.active()[i]),
        ({
            let s = t.after_skip_folded();
            turn_step_of(t).1 is NewRound && s.active().len() >= 2 ==> forall|i: int| 0 <= i < s.active().len()
                && !s.all_in.contains(#[trigger] s.active()[i]) ==> s.acted.contains(s.active()[i])
        }),
{
}

/// Moving to the next stage keeps the seats, the folds, the pot, every
/// player's bets over the hand, the hole cards and the bot's stack; the
/// stages run Lobby, Pre-Flop, Flop, Turn, River, Showdown and then stay.
pub proof fn lemma_stages_keep_the_chips(t: TableView)
    ensures
        ({
            let f = t.after_advance_phase();
            &&& f.players == t.players
            &&& f.folded == t.folded
            &&& f.all_in == t.all_in
            &&& f.pot == t.pot
            &&& f.hand_bets == t.hand_bets
            &&& f.hole_cards == t.hole_cards
            &&& f.bot_balance == t.bot_balance
            &&& f.phase == match t.phase {
                Phase::Lobby => Phase::PreFlop,
                Phase::PreFlop => Phase::Flop,
                Phase::Flop => Phase::Turn,
                Phase::Turn => Phase::River,
                Phase::River => Phase::Showdown,
                Phase::Showdown => Phase::Showdown,
                Phase::Finished => Phase::Finished,
            }
        }),
        round_reset(t).hand_bets == t.hand_bets,
        round_reset(t).pot == t.pot,
        round_reset(t).round_bets == Map::<u64, u64>::empty(),
{
}

// ---------------------------------------------------------------------------
// Looking ahead: outcomes and counter limits before a move is made
// ---------------------------------------------------------------------------

/// Whether putting `amount` into the pot for `uid` fits every counter.
pub fn bet_fits_now(state: &PokerGameState, uid: u64, amount: u64) -> (r: bool)
    ensures
        r == bet_fits(state@, uid, amount),
{
    state.player_bet(uid).checked_add(amount).is_some()
        && state.pot.checked_add(amount).is_some()
        && state.hand_bet(uid).checked_add(amount).is_some()
}

/// Whether moving the turn on fits the seat index.
pub fn turn_fits_now(state: &PokerGameState) -> (r: bool)
    ensures
        r == turn_fits(state@),
{
    let active = state.active_players();
    active.len() < 2 || state.current_player_index < usize::MAX
}

/// Whether posting the blinds reads only existing seats and fits every counter.
pub fn blinds_fit_now(state: &PokerGameState) -> (r: bool)
    ensures
        r == blinds_fit(state@),
{
    let n = state.players.len();
    if n == 0 || state.dealer_index > usize::MAX - 2 {
        return false;
    }
    let (sb, bb) = blind_positions(n, state.dealer_index);
    if sb >= n {
        return false;
    }
    let sb_uid = state.players[sb];
    let bb_uid = state.players[bb];
    if !bet_fits_now(state, sb_uid, state.small_blind) {
        return false;
    }
    let ghost s = small_blind_table(state@);
    let (round, pot, hand) = if sb_uid == bb_uid {
        (state.player_bet(bb_uid) + state.small_blind, state.pot + state.small_blind,
            state.hand_bet(bb_uid) + state.small_blind)
    } else {
        (state.player_bet(bb_uid), state.pot + state.small_blind, state.hand_bet(bb_uid))
    };
    assert(round == s.round_bet(bb_uid) && pot == s.pot && hand == s.hand_bet(bb_uid));
    round.checked_add(state.big_blind).is_some() && pot.checked_add(state.big_blind).is_some()
        && hand.checked_add(state.big_blind).is_some()
}

/// The outcome a check or call would have, without making it.
pub fn preview_check_call(state: &PokerGameState, uid: u64, balance: i64) -> (r: Result<u64, FlowError>)
    ensures
        r == call_check(state@, uid, balance),
{
    let to_call = call_amount(state, uid);
    if state.would_exceed_max_hand_bet(uid, to_call) {
        Err(FlowError::CallExceedsMaxHandBet)
    } else if is_bot(uid) {
        if state.bot_balance < to_call { Err(FlowError::BotCannotCall) } else { Ok(to_call) }
    } else if balance_as_unsigned(balance) < to_call {
        Err(FlowError::NotEnoughChipsToCall)
    } else {
        Ok(to_call)
    }
}

/// Whether a check or call would overflow a counter (where `apply_check_call` may not be used).
pub fn check_call_overflows(state: &PokerGameState, uid: u64, balance: i64) -> (r: bool)
    ensures
        r == !(call_check(state@, uid, balance) is Ok
            ==> bet_fits(state@, uid, call_amount_of(state@, uid)) && turn_fits(state@)),
{
    match preview_check_call(state, uid, balance) {
        Ok(c) => !(bet_fits_now(state, uid, c) && turn_fits_now(state)),
        Err(_) => false,
    }
}

/// The outcome a raise would have, without making it.
pub fn preview_raise(state: &PokerGameState, uid: u64, raise_amount: u64, balance: i64) -> (r: Result<(u64, u64), FlowError>)
    requires
        state.current_bet + raise_amount <= u64::MAX,
    ensures
        r == raise_check(state@, uid, raise_amount, balance),
{
    let new_bet = state.current_bet + raise_amount;
    let to_pay = new_bet.saturating_sub(state.player_bet(uid));
    if to_pay == 0 {
        Err(FlowError::RaiseTooSmall)
    } else if state.would_exceed_max_hand_bet(uid, to_pay) {
        Err(FlowError::RaiseExceedsMaxHandBet)
    } else if is_bot(uid) {
        if state.bot_balance < to_pay { Err(FlowError::BotCannotRaise) } else { Ok((to_pay, new_bet)) }
    } else if balance_as_unsigned(balance) < to_pay {
        Err(FlowError::NotEnoughChipsToRaise)
    } else {
        Ok((to_pay, new_bet))
    }
}

/// Whether a raise would overflow a counter (where `apply_raise` may not be used).
pub fn raise_overflows(state: &PokerGameState, uid: u64, raise_amount: u64, balance: i64) -> (r: bool)
    ensures
        r == !(state.current_bet + raise_amount <= u64::MAX
            && (raise_check(state@, uid, raise_amount, balance) matches Ok((p, _))
                ==> bet_fits(state@, uid, p) && turn_fits(state@))),
{
    if state.current_bet.checked_add(raise_amount).is_none() {
        return true;
    }
    match preview_raise(state, uid, raise_amount, balance) {
        Ok((p, _)) => !(bet_fits_now(state, uid, p) && turn_fits_now(state)),
        Err(_) => false,
    }
}

/// Whether working out an all-in would overflow (where `prepare_all_in` may not be used).
pub fn all_in_overflows(state: &PokerGameState, uid: u64, balance: i64) -> (r: bool)
    ensures
        r == !(all_in_check(state@, uid, balance) matches Ok((p, _)) ==> state@.round_bet(uid) + p <= u64::MAX),
{
    let bet = state.player_bet(uid);
    if is_bot(uid) {
        state.bot_balance != 0 && bet.checked_add(state.bot_balance).is_none()
    } else {
        balance > 0 && bet.checked_add(balance as u64).is_none()
    }
}

/// Whether finishing an all-in would overflow a counter (where `commit_all_in` may not be used).
pub fn commit_all_in_overflows(state: &PokerGameState, uid: u64, to_pay: u64) -> (r: bool)
    ensures
        r == !(!exceeds_max(state@, uid, to_pay) ==> bet_fits(state@, uid, to_pay) && turn_fits(state@)),
{
    !state.would_exceed_max_hand_bet(uid, to_pay) && !(bet_fits_now(state, uid, to_pay) && turn_fits_now(state))
}

/// Whether folding would overflow the seat index (where `apply_fold` may not be used).
pub fn fold_overflows(state: &PokerGameState, uid: u64) -> (r: bool)
    ensures
        r == !turn_fits(folded_table(state@, uid)),
{
    let mut active: usize = 0;
    let mut i: usize = 0;
    let ghost f = folded_table(state@, uid);
    assert(f.active() == crate::commands::poker::session::active_of(state@.players, state@.folded.insert(uid)));
    while i < state.players.len()
        invariant
            i <= state@.players.len(),
            active as int == crate::commands::poker::session::active_of(state@.players.take(i as int), state@.folded.insert(uid)).len(),
            active <= i,
        decreases state.players.len() - i,
    {
        let p = state.players[i];
        proof {
            assert(state@.players.take(i + 1).drop_last() =~= state@.players.take(i as int));
            assert(state@.players.take(i + 1).last() == p);
        }
        if p != uid && !state.is_folded(p) {
            active = active + 1;
        }
        i = i + 1;
    }
    assert(state@.players.take(state@.players.len() as int) =~= state@.players);
    !(active < 2 || state.current_player_index < usize::MAX)
}

/// Whether moving the game on would break a limit (where `next_turn_step` may not be used).
pub fn turn_step_overflows(state: &PokerGameState) -> (r: bool)
    ensures
        r == !(state@.players.len() > 0 && state.current_player_index < usize::MAX && state.dealer_index < usize::MAX
            && (!state@.after_skip_folded().round_complete() ==> state.turn_timer_id < u64::MAX)),
{
    if state.players.len() == 0 || state.current_player_index == usize::MAX || state.dealer_index == usize::MAX {
        return true;
    }
    if state.turn_timer_id < u64::MAX {
        return false;
    }
    !turn_step_round_over(state)
}

/// Whether, once the turn has skipped players who cannot bet, the betting round is over.
fn turn_step_round_over(state: &PokerGameState) -> (r: bool)
    requires
        state@.players.len() > 0,
        state.current_player_index < usize::MAX,
    ensures
        r == state@.after_skip_folded().round_complete(),
{
    let ghost s = state@.after_skip_folded();
    let active = state.active_players();
    assert(s.active() == state@.active());
    if active.len() < 2 {
        return true;
    }
    let mut i: usize = 0;
    while i < active.len()
        invariant
            active@ == s.active(),
            s == state@.after_skip_folded(),
            active@.len() >= 2,
            i <= active@.len(),
            forall|j: int| 0 <= j < i ==> {
                let id = #[trigger] s.active()[j];
                s.all_in.contains(id) || (s.round_bet(id) >= s.current_bet && s.acted.contains(id))
            },
        decreases active.len() - i,
    {
        let uid = active[i];
        assert(s.active()[i as int] == uid);
        if !state.is_all_in(uid) {
            if state.player_bet(uid) < state.current_bet || !state.acted_this_round.contains(&uid) {
                return false;
            }
        }
        i = i + 1;
    }
    true
}

} // verus!
