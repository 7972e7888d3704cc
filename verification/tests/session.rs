use gambling_bot::commands::poker::hand_evaluator::EvalCard;
use gambling_bot::commands::poker::session::{
    is_bot, next_active_after_dealer, position_after_dealer, state_key, Phase, PokerGameState, BOT_USER_ID,
};

#[test]
fn betting_round_not_complete_after_blinds() {
    let mut state = PokerGameState::new(1);
    state.add_player(2);
    state.advance_phase();
    state.place_bet(2, 25);
    state.place_bet(1, 50);
    state.current_bet = 50;
    assert!(!state.betting_round_complete());
}

#[test]
fn betting_round_complete_after_both_call() {
    let mut state = PokerGameState::new(1);
    state.add_player(2);
    state.advance_phase();
    state.place_bet(2, 50);
    state.place_bet(1, 50);
    state.current_bet = 50;
    state.mark_acted(2);
    state.mark_acted(1);
    assert!(state.betting_round_complete());
}

#[test]
fn advance_turn_moves_to_next_unacted_player() {
    let mut state = PokerGameState::new(1);
    state.add_player(2);
    state.current_player_index = 1;
    state.advance_turn();
    assert_eq!(state.current_player(), Some(1));
}

#[test]
fn all_in_player_skipped_in_turn_order() {
    let mut state = PokerGameState::new(1);
    state.add_player(2);
    state.add_player(3);
    state.current_player_index = 0;
    state.all_in.insert(1);
    state.acted_this_round.insert(2);
    state.place_bet(2, 50);
    state.current_bet = 50;
    assert!(state.advance_turn());
    assert_eq!(state.current_player(), Some(3));
}

#[test]
fn betting_round_complete_with_all_in_short_stack() {
    let mut state = PokerGameState::new(1);
    state.add_player(2);
    state.add_player(3);
    state.current_bet = 100;
    state.place_bet(1, 20);
    state.all_in.insert(1);
    state.place_bet(2, 100);
    state.acted_this_round.insert(2);
    state.place_bet(3, 100);
    state.acted_this_round.insert(3);
    assert!(state.betting_round_complete());
}

#[test]
fn new_game_has_sensible_defaults() {
    let state = PokerGameState::new(1);
    assert_eq!(state.phase, Phase::Lobby);
    assert_eq!(state.players, vec![1]);
    assert_eq!(state.pot, 0);
    assert_eq!(state.current_bet, 0);
    assert_eq!(state.small_blind, 25);
    assert_eq!(state.big_blind, 50);
    assert!(!state.has_bot);
}

#[test]
fn add_player_rejects_duplicates() {
    let mut state = PokerGameState::new(1);
    assert!(!state.add_player(1));
    assert!(state.add_player(2));
    assert!(!state.add_player(2));
    assert_eq!(state.players.len(), 2);
}

#[test]
fn add_bot_only_once() {
    let mut state = PokerGameState::new(1);
    state.add_bot();
    state.add_bot();
    assert!(state.has_bot);
    assert_eq!(state.players.iter().filter(|&&p| p == BOT_USER_ID).count(), 1);
    assert!(is_bot(BOT_USER_ID));
    assert!(!is_bot(1));
}

#[test]
fn remove_player_marks_folded_and_drops_state() {
    let mut state = PokerGameState::new(1);
    state.add_player(2);
    state.place_bet(2, 50);
    state.set_hole_cards(2, vec![0, 1]);

    assert!(state.remove_player(2));
    assert!(!state.players.contains(&2));
    assert!(state.is_folded(2));
    assert_eq!(state.player_bet(2), 0);
    assert!(state.hole_cards_eval(2).is_empty());
    assert!(!state.remove_player(2));
}

#[test]
fn remove_player_fixes_out_of_range_turn_index() {
    let mut state = PokerGameState::new(1);
    state.add_player(2);
    state.current_player_index = 1;
    state.remove_player(2);
    assert_eq!(state.current_player_index, 0);
    assert_eq!(state.current_player(), Some(1));
}

#[test]
fn place_bet_accumulates_pot_and_hand_bets() {
    let mut state = PokerGameState::new(1);
    state.place_bet(1, 25);
    state.place_bet(1, 50);
    assert_eq!(state.pot, 75);
    assert_eq!(state.player_bet(1), 75);
    assert_eq!(state.hand_bet(1), 75);
}

#[test]
fn hand_bet_survives_round_bet_reset() {
    let mut state = PokerGameState::new(1);
    state.add_player(2);
    state.place_bet(1, 50);
    state.advance_phase();
    state.advance_phase();
    assert_eq!(state.player_bet(1), 0);
    assert_eq!(state.hand_bet(1), 50);
}

#[test]
fn max_hand_bet_enforced() {
    let mut state = PokerGameState::new(1);
    assert!(!state.would_exceed_max_hand_bet(1, 1_000_000));

    state.max_hand_bet = Some(100);
    state.place_bet(1, 60);
    assert!(!state.would_exceed_max_hand_bet(1, 40));
    assert!(state.would_exceed_max_hand_bet(1, 41));
}

#[test]
fn fold_marks_player_acted_and_folded() {
    let mut state = PokerGameState::new(1);
    state.fold(1);
    assert!(state.is_folded(1));
    assert!(state.acted_this_round.contains(&1));
    assert!(state.active_players().is_empty());
}

#[test]
fn clear_acted_except_keeps_only_raiser() {
    let mut state = PokerGameState::new(1);
    state.add_player(2);
    state.add_player(3);
    state.mark_acted(1);
    state.mark_acted(2);
    state.clear_acted_except(3);
    assert!(!state.acted_this_round.contains(&1));
    assert!(!state.acted_this_round.contains(&2));
    assert!(state.acted_this_round.contains(&3));
}

#[test]
fn advance_phase_cycles_and_resets_round_state() {
    let mut state = PokerGameState::new(1);
    state.add_player(2);

    state.advance_phase();
    assert_eq!(state.phase, Phase::PreFlop);
    assert_eq!(state.current_bet, state.big_blind);

    state.place_bet(1, 50);
    state.mark_acted(1);

    state.advance_phase();
    assert_eq!(state.phase, Phase::Flop);
    assert_eq!(state.current_bet, 0);
    assert!(state.round_bets.is_empty());
    assert!(state.acted_this_round.is_empty());

    state.advance_phase();
    assert_eq!(state.phase, Phase::Turn);
    state.advance_phase();
    assert_eq!(state.phase, Phase::River);
    state.advance_phase();
    assert_eq!(state.phase, Phase::Showdown);
    state.advance_phase();
    assert_eq!(state.phase, Phase::Showdown);
}

#[test]
fn skip_folded_players_moves_past_folded() {
    let mut state = PokerGameState::new(1);
    state.add_player(2);
    state.add_player(3);
    state.current_player_index = 0;
    state.fold(1);
    state.skip_folded_players();
    assert_eq!(state.current_player(), Some(2));
}

#[test]
fn skip_folded_players_all_folded_does_not_hang() {
    let mut state = PokerGameState::new(1);
    state.add_player(2);
    state.fold(1);
    state.fold(2);
    state.skip_folded_players();
}

#[test]
fn betting_round_complete_single_active_player() {
    let mut state = PokerGameState::new(1);
    state.add_player(2);
    state.fold(2);
    assert!(state.betting_round_complete());
    assert!(!state.advance_turn());
}

#[test]
fn position_after_dealer_offsets() {
    let mut state = PokerGameState::new(1);
    state.add_player(2);
    state.add_player(3);
    state.dealer_index = 0;
    assert_eq!(position_after_dealer(&state, 1), Some(2));
    assert_eq!(position_after_dealer(&state, 2), Some(3));
    assert_eq!(position_after_dealer(&state, 3), Some(1));
}

#[test]
fn position_after_dealer_empty_table() {
    let mut state = PokerGameState::new(1);
    state.players.clear();
    assert_eq!(position_after_dealer(&state, 1), None);
}

#[test]
fn next_active_after_dealer_skips_folded() {
    let mut state = PokerGameState::new(1);
    state.add_player(2);
    state.add_player(3);
    state.dealer_index = 0;
    state.fold(2);
    assert_eq!(next_active_after_dealer(&state), Some(3));
}

#[test]
fn hole_and_community_cards_convert_to_eval() {
    let mut state = PokerGameState::new(1);
    state.set_hole_cards(1, vec![0, 12]);
    state.add_community_card(13);

    let hole = state.hole_cards_eval(1);
    assert_eq!(hole, vec![EvalCard::new(14, 0), EvalCard::new(13, 0)]);

    let community = state.community_cards_eval();
    assert_eq!(community, vec![EvalCard::new(14, 1)]);

    let all = state.all_cards_for_player(1);
    assert_eq!(all.len(), 3);
}

#[test]
fn state_key_format() {
    assert_eq!(state_key(111, 222), "poker_state_111_222");
}

#[test]
fn next_active_after_a_folded_dealer_is_the_first_active() {
    let mut state = PokerGameState::new(1);
    state.add_player(2);
    state.add_player(3);
    state.dealer_index = 0;
    state.fold(1);
    assert_eq!(next_active_after_dealer(&state), Some(2));
    state.dealer_index = 2;
    assert_eq!(next_active_after_dealer(&state), Some(2));
}

#[test]
fn advance_turn_wraps_round_and_reports_nobody() {
    let mut state = PokerGameState::new(1);
    state.add_player(2);
    state.add_player(3);
    state.current_player_index = 2;
    state.mark_acted(1);
    state.mark_acted(2);
    state.mark_acted(3);
    assert!(!state.advance_turn());
    // three active players: three seats on, back where it started
    assert_eq!(state.current_player_index, 2);
    state.current_bet = 10;
    assert!(state.advance_turn());
    assert_eq!(state.current_player(), Some(1));
}

#[test]
fn skip_folded_with_out_of_range_index() {
    let mut state = PokerGameState::new(1);
    state.add_player(2);
    state.current_player_index = 7;
    state.skip_folded_players();
    // 7 is past the seats: one step on is (7 + 1) % 2 == 0
    assert_eq!(state.current_player_index, 0);
}

#[test]
fn remove_player_takes_out_the_first_seat_only() {
    let mut state = PokerGameState::new(1);
    state.players.push(2);
    state.players.push(1);
    assert!(state.remove_player(1));
    assert_eq!(state.players, vec![2, 1]);
}

#[test]
fn advance_turn_passes_folded_seats_to_the_next_actor() {
    let mut state = PokerGameState::new(1);
    state.add_player(2);
    state.add_player(3);
    state.add_player(4);
    state.fold(2);
    state.fold(3);
    state.current_player_index = 0;
    assert!(state.advance_turn());
    assert_eq!(state.current_player(), Some(4));
}

#[test]
fn hole_cards_are_dealt_two_per_seat_in_order() {
    let mut state = PokerGameState::new(1);
    state.add_player(2);
    state.add_player(3);
    state.deal_hole_cards(&vec![10, 11, 20, 21, 30, 31]);
    assert_eq!(state.hole_cards.get(&1), Some(&vec![10, 11]));
    assert_eq!(state.hole_cards.get(&2), Some(&vec![20, 21]));
    assert_eq!(state.hole_cards.get(&3), Some(&vec![30, 31]));
}
