use gambling_bot::commands::poker::flow::{
    apply_check_call, apply_fold, apply_raise, auto_fold_due, begin_game, blind_positions, bot_turn_due,
    call_amount, check_max_bet_balance, check_max_bet_nonzero, check_no_active_game, commit_all_in, credit_bot,
    join_lobby, max_bet_option, new_lobby, next_turn_step, post_blinds, prepare_all_in, raise_amount,
    showdown_payouts, split_pot_among, validate_action, FlowError, GameStart, PlayerAction, StartError, TurnStep,
};
use gambling_bot::commands::poker::session::{Phase, PokerGameState, BOT_USER_ID};

#[test]
fn player_action_from_str() {
    assert_eq!(PlayerAction::from_name("fold"), Some(PlayerAction::Fold));
    assert_eq!(PlayerAction::from_name("checkcall"), Some(PlayerAction::CheckCall));
    assert_eq!(PlayerAction::from_name("raise"), Some(PlayerAction::Raise));
    assert_eq!(PlayerAction::from_name("allin"), Some(PlayerAction::AllIn));
    assert_eq!(PlayerAction::from_name("check"), None);
    assert_eq!(PlayerAction::from_name(""), None);
}

fn two_player_preflop() -> PokerGameState {
    let mut state = new_lobby(1, None);
    assert_eq!(join_lobby(&mut state, 2), Ok(()));
    assert_eq!(begin_game(&mut state), GameStart::Started { bot_added: false });
    state
}

#[test]
fn joining_only_in_the_lobby_and_once() {
    let mut state = new_lobby(1, Some(500));
    assert_eq!(state.max_hand_bet, Some(500));
    assert_eq!(state.lobby_seconds, 60);
    assert_eq!(join_lobby(&mut state, 1), Err(FlowError::AlreadyJoined));
    assert_eq!(join_lobby(&mut state, 2), Ok(()));
    state.advance_phase();
    assert_eq!(join_lobby(&mut state, 3), Err(FlowError::GameAlreadyStarted));
    assert_eq!(FlowError::GameAlreadyStarted.message(), "The game has already started.");
}

#[test]
fn lone_player_gets_the_bot() {
    let mut state = new_lobby(1, None);
    assert_eq!(begin_game(&mut state), GameStart::Started { bot_added: true });
    assert_eq!(state.players, vec![1, BOT_USER_ID]);
    assert!(state.has_bot);
    assert_eq!(state.phase, Phase::PreFlop);
    assert_eq!(begin_game(&mut state), GameStart::NotInLobby);
    let mut empty = new_lobby(1, None);
    empty.players.clear();
    assert_eq!(begin_game(&mut empty), GameStart::NoPlayers);
}

#[test]
fn blinds_heads_up_and_three_handed() {
    assert_eq!(blind_positions(2, 0), (0, 1));
    assert_eq!(blind_positions(3, 0), (1, 2));
    assert_eq!(blind_positions(4, 3), (0, 1));

    let mut state = two_player_preflop();
    let (sb, bb) = post_blinds(&mut state);
    assert_eq!((sb, bb), (1, 2));
    assert_eq!(state.pot, 75);
    assert_eq!(state.player_bet(1), 25);
    assert_eq!(state.player_bet(2), 50);
    assert_eq!(state.current_bet, 50);
    assert_eq!(state.current_player_index, 0);
}

#[test]
fn bot_posts_blind_from_its_stack() {
    let mut state = new_lobby(1, None);
    begin_game(&mut state);
    state.bot_balance = 30;
    let (_, bb) = post_blinds(&mut state);
    assert_eq!(bb, BOT_USER_ID);
    assert_eq!(state.bot_balance, 0);
    assert_eq!(state.hand_bet(BOT_USER_ID), 50);
}

#[test]
fn only_the_current_player_may_act() {
    let mut state = two_player_preflop();
    post_blinds(&mut state);
    assert_eq!(validate_action(&state, 2), Err(FlowError::NotYourTurn));
    assert_eq!(validate_action(&state, 1), Ok(()));
    state.fold(1);
    assert_eq!(validate_action(&state, 1), Err(FlowError::AlreadyFolded));
    state.current_player_index = 9;
    assert_eq!(validate_action(&state, 1), Err(FlowError::NoActiveTurn));
}

#[test]
fn call_matches_the_bet_and_moves_the_turn() {
    let mut state = two_player_preflop();
    post_blinds(&mut state);
    assert_eq!(call_amount(&state, 1), 25);
    assert_eq!(apply_check_call(&mut state, 1, 10), Err(FlowError::NotEnoughChipsToCall));
    assert_eq!(state.pot, 75);
    assert_eq!(apply_check_call(&mut state, 1, 1000), Ok(25));
    assert_eq!(state.pot, 100);
    assert_eq!(state.player_bet(1), 50);
    assert!(state.acted_this_round.contains(&1));
    assert_eq!(state.current_player(), Some(2));
}

#[test]
fn negative_balance_reads_as_huge_when_calling() {
    let mut state = two_player_preflop();
    post_blinds(&mut state);
    assert_eq!(apply_check_call(&mut state, 1, -1), Ok(25));
}

#[test]
fn bot_pays_calls_from_its_stack() {
    let mut state = new_lobby(1, None);
    begin_game(&mut state);
    post_blinds(&mut state);
    // heads-up: player 1 posts 25, the bot 50; player 1 raises to 150
    assert_eq!(apply_raise(&mut state, 1, 100, 1000), Ok((125, 150)));
    assert_eq!(state.current_player(), Some(BOT_USER_ID));
    let before = state.bot_balance;
    state.bot_balance = 50;
    assert_eq!(apply_check_call(&mut state, BOT_USER_ID, 0), Err(FlowError::BotCannotCall));
    state.bot_balance = before;
    assert_eq!(apply_check_call(&mut state, BOT_USER_ID, 0), Ok(100));
    assert_eq!(state.bot_balance, before - 100);
    assert_eq!(state.pot, 300);
}

#[test]
fn raise_checks_in_order() {
    let mut state = two_player_preflop();
    post_blinds(&mut state);
    state.max_hand_bet = Some(100);
    assert_eq!(apply_raise(&mut state, 1, 0, 1000), Ok((25, 50)));
    let mut state = two_player_preflop();
    post_blinds(&mut state);
    state.place_bet(1, 25);
    assert_eq!(apply_raise(&mut state, 1, 0, 1000), Err(FlowError::RaiseTooSmall));
    state.max_hand_bet = Some(100);
    assert_eq!(apply_raise(&mut state, 1, 200, 1000), Err(FlowError::RaiseExceedsMaxHandBet));
    state.max_hand_bet = None;
    assert_eq!(apply_raise(&mut state, 1, 200, 100), Err(FlowError::NotEnoughChipsToRaise));
    assert_eq!(apply_raise(&mut state, 1, 200, 200), Ok((200, 250)));
    assert_eq!(state.current_bet, 250);
    assert!(state.acted_this_round.contains(&1));
    assert!(!state.acted_this_round.contains(&2));
    assert_eq!(raise_amount(None), 50);
    assert_eq!(raise_amount(Some(7)), 7);
}

#[test]
fn call_past_the_hand_limit_is_refused() {
    let mut state = two_player_preflop();
    post_blinds(&mut state);
    state.max_hand_bet = Some(40);
    assert_eq!(apply_check_call(&mut state, 1, 1000), Err(FlowError::CallExceedsMaxHandBet));
    assert_eq!(
        FlowError::CallExceedsMaxHandBet.message(),
        "This call would exceed the maximum hand bet."
    );
}

#[test]
fn all_in_for_players_and_bot() {
    let mut state = two_player_preflop();
    post_blinds(&mut state);
    assert_eq!(prepare_all_in(&state, 1, 0), Err(FlowError::NoChips));
    assert_eq!(prepare_all_in(&state, 1, 500), Ok((500, 525)));
    assert_eq!(prepare_all_in(&state, 1, 10), Ok((10, 50)));
    assert_eq!(commit_all_in(&mut state, 1, 500, 525), Ok(()));
    assert!(state.all_in.contains(&1));
    assert_eq!(state.current_bet, 525);
    assert_eq!(state.pot, 575);
    assert_eq!(state.current_player(), Some(2));

    let mut bot_table = new_lobby(1, None);
    begin_game(&mut bot_table);
    bot_table.bot_balance = 0;
    assert_eq!(prepare_all_in(&bot_table, BOT_USER_ID, 0), Err(FlowError::BotHasNoChips));
    bot_table.bot_balance = 300;
    assert_eq!(prepare_all_in(&bot_table, BOT_USER_ID, 0), Ok((300, 300)));
    bot_table.max_hand_bet = Some(100);
    assert_eq!(commit_all_in(&mut bot_table, BOT_USER_ID, 300, 300), Err(FlowError::AllInExceedsMaxHandBet));
    assert_eq!(bot_table.bot_balance, 300);
    bot_table.max_hand_bet = None;
    assert_eq!(commit_all_in(&mut bot_table, BOT_USER_ID, 300, 300), Ok(()));
    assert_eq!(bot_table.bot_balance, 0);
}

#[test]
fn fold_moves_the_turn() {
    let mut state = two_player_preflop();
    post_blinds(&mut state);
    apply_fold(&mut state, 1);
    assert!(state.is_folded(1));
    // one active player left: the turn stays
    assert_eq!(state.current_player_index, 0);
}

#[test]
fn rounds_move_through_the_stages() {
    let mut state = two_player_preflop();
    post_blinds(&mut state);
    assert_eq!(next_turn_step(&mut state), TurnStep::Turn { uid: 1, timer_id: 1 });
    apply_check_call(&mut state, 1, 1000).unwrap();
    assert_eq!(next_turn_step(&mut state), TurnStep::Turn { uid: 2, timer_id: 2 });
    apply_check_call(&mut state, 2, 1000).unwrap();
    assert_eq!(next_turn_step(&mut state), TurnStep::NewRound { phase: Phase::Flop, cards: 3 });
    assert_eq!(state.current_bet, 0);
    assert!(state.round_bets.is_empty());
    assert_eq!(state.current_player_index, 1);
    assert_eq!(state.hand_bet(1), 50);
    apply_check_call(&mut state, 2, 0).unwrap();
    apply_check_call(&mut state, 1, 0).unwrap();
    assert_eq!(next_turn_step(&mut state), TurnStep::NewRound { phase: Phase::Turn, cards: 1 });
}

#[test]
fn everyone_but_one_folded_ends_the_round() {
    let mut state = two_player_preflop();
    post_blinds(&mut state);
    apply_fold(&mut state, 1);
    assert_eq!(next_turn_step(&mut state), TurnStep::NewRound { phase: Phase::Flop, cards: 3 });
    assert_eq!(next_turn_step(&mut state), TurnStep::NewRound { phase: Phase::Turn, cards: 1 });
    assert_eq!(next_turn_step(&mut state), TurnStep::NewRound { phase: Phase::River, cards: 1 });
    assert_eq!(next_turn_step(&mut state), TurnStep::NewRound { phase: Phase::Showdown, cards: 0 });
    assert_eq!(showdown_payouts(&state), vec![(2, 75)]);
}

#[test]
fn timers_only_fire_for_the_current_turn() {
    let mut state = two_player_preflop();
    post_blinds(&mut state);
    let step = next_turn_step(&mut state);
    assert_eq!(step, TurnStep::Turn { uid: 1, timer_id: 1 });
    assert!(auto_fold_due(&state, 1, 1));
    assert!(!auto_fold_due(&state, 1, 0));
    assert!(!auto_fold_due(&state, 2, 1));
    assert!(!bot_turn_due(&state, 1, 1));
    state.players[0] = BOT_USER_ID;
    assert!(bot_turn_due(&state, BOT_USER_ID, 1));
}

#[test]
fn showdown_best_hand_takes_the_pot() {
    let mut state = new_lobby(1, None);
    join_lobby(&mut state, 2).unwrap();
    join_lobby(&mut state, 3).unwrap();
    state.pot = 300;
    // community: 2d 7h 9c Jd Kh (ints: suit * 13 + face index)
    for c in [1u8, 19, 34, 10, 25] {
        state.add_community_card(c);
    }
    state.set_hole_cards(1, vec![0, 13]); // aces
    state.set_hole_cards(2, vec![11, 37]); // queens
    state.set_hole_cards(3, vec![2, 3]); // 3 and 4
    assert_eq!(showdown_payouts(&state), vec![(1, 300)]);
    state.fold(1);
    assert_eq!(showdown_payouts(&state), vec![(2, 300)]);
}

#[test]
fn showdown_split_gives_odd_chips_to_the_first_winners() {
    let mut state = new_lobby(1, None);
    join_lobby(&mut state, 2).unwrap();
    join_lobby(&mut state, 3).unwrap();
    state.pot = 301;
    // the board is a royal flush in diamonds: everyone ties
    for c in [0u8, 12, 11, 10, 9] {
        state.add_community_card(c);
    }
    state.set_hole_cards(1, vec![14, 15]);
    state.set_hole_cards(2, vec![16, 17]);
    state.set_hole_cards(3, vec![18, 19]);
    let payouts = showdown_payouts(&state);
    assert_eq!(payouts, vec![(1, 101), (2, 100), (3, 100)]);
    assert_eq!(payouts.iter().map(|p| p.1).sum::<u64>(), 301);
}

#[test]
fn split_pot_amounts_add_up() {
    assert_eq!(split_pot_among(10, &vec![4, 5, 6]), vec![(4, 4), (5, 3), (6, 3)]);
    assert_eq!(split_pot_among(0, &vec![1, 2]), vec![(1, 0), (2, 0)]);
    assert_eq!(split_pot_among(9, &vec![]), Vec::<(u64, u64)>::new());
    let shares = split_pot_among(u64::MAX, &vec![1, 2, 3, 4, 5, 6, 7]);
    assert_eq!(shares.iter().map(|p| p.1 as u128).sum::<u128>(), u64::MAX as u128);
}

#[test]
fn nobody_active_means_no_payouts() {
    let mut state = new_lobby(1, None);
    state.fold(1);
    state.pot = 10;
    assert!(showdown_payouts(&state).is_empty());
}

#[test]
fn crediting_the_bot() {
    let mut state = new_lobby(1, None);
    credit_bot(&mut state, 250);
    assert_eq!(state.bot_balance, 1250);
}

#[test]
fn opening_checks() {
    assert_eq!(check_no_active_game(None), Ok(()));
    assert_eq!(check_no_active_game(Some(Phase::Finished)), Ok(()));
    assert_eq!(check_no_active_game(Some(Phase::River)), Err(StartError::GameActive));
    assert_eq!(max_bet_option(Some(-1)), Some(u64::MAX));
    assert_eq!(max_bet_option(Some(500)), Some(500));
    assert_eq!(max_bet_option(None), None);
    assert_eq!(check_max_bet_nonzero(0), Err(StartError::ZeroMaxBet));
    assert_eq!(check_max_bet_nonzero(1), Ok(()));
    assert_eq!(check_max_bet_balance(500, 499), Err(StartError::MaxBetOverBalance));
    assert_eq!(check_max_bet_balance(500, 500), Ok(()));
    assert_eq!(check_max_bet_balance(500, -3), Ok(()));
    assert_eq!(StartError::ZeroMaxBet.message(), "Maximum hand bet must be greater than 0.");
}

#[test]
fn a_hand_starts_with_cards_dealt_and_blinds_posted() {
    let mut state = PokerGameState::new(1);
    state.add_player(2);
    state.add_player(3);
    assert!(matches!(begin_game(&mut state), GameStart::Started { bot_added: false }));
    state.deal_hole_cards(&vec![0, 1, 2, 3, 4, 5]);
    let (sb, bb) = post_blinds(&mut state);
    assert_eq!((sb, bb), (2, 3));
    assert_eq!(state.phase, Phase::PreFlop);
    for uid in [1u64, 2, 3] {
        assert_eq!(state.hole_cards.get(&uid).map(|c| c.len()), Some(2));
    }
    assert_eq!(state.player_bet(2), state.small_blind);
    assert_eq!(state.player_bet(3), state.big_blind);
    assert_eq!(state.pot, state.small_blind + state.big_blind);
    assert_eq!(state.current_bet, state.big_blind);
    assert_eq!(state.current_player_index, 0);
}
