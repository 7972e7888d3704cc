use gambling_bot::commands::poker::session::{Phase, PokerGameState, BOT_USER_ID};
use gambling_bot::commands::poker::ui::{
    action_result_description, all_in_message, check_call_message, dealt_title, format_community_cards,
    format_table_overview, hole_cards_description, lobby_description, player_name, prompt_description,
    prompt_title, raise_message, showdown_description, single_winner_description, timeout_description,
    your_turn_message,
};

#[test]
fn player_name_distinguishes_bot() {
    assert_eq!(player_name(BOT_USER_ID), "Bot");
    assert_eq!(player_name(123), "<@123>");
}

#[test]
fn community_cards_empty_shows_none() {
    let state = PokerGameState::new(1);
    assert_eq!(format_community_cards(&state), "None");
}

#[test]
fn table_overview_shows_phase_pot_and_players() {
    let mut state = PokerGameState::new(1);
    state.add_player(2);
    state.advance_phase();
    state.place_bet(1, 50);

    let overview = format_table_overview(&state);
    assert!(overview.contains("Phase: Pre-Flop"), "{}", overview);
    assert!(overview.contains("Pot: **50**"), "{}", overview);
    assert!(overview.contains("<@1>"), "{}", overview);
    assert!(overview.contains("<@2>"), "{}", overview);
    assert!(!overview.contains("(folded)"), "{}", overview);
}

#[test]
fn table_overview_marks_folded_players() {
    let mut state = PokerGameState::new(1);
    state.add_player(2);
    state.fold(2);

    let overview = format_table_overview(&state);
    assert!(overview.contains("<@2>  (folded)"), "{}", overview);
}

#[test]
fn table_overview_in_full() {
    let mut state = PokerGameState::new(1);
    state.add_bot();
    state.advance_phase();
    state.place_bet(1, 50);
    state.fold(BOT_USER_ID);
    assert_eq!(
        format_table_overview(&state),
        "Phase: Pre-Flop\nPot: **50**\nCurrent bet: **50**\nCurrent turn: <@1>\nCommunity cards:\nNone\n\nPlayers:\n<@1>  - bet: 50\nBot  (folded) - bet: 0"
    );
    state.current_player_index = 5;
    assert!(format_table_overview(&state).contains("Current turn: None"));
}

#[test]
fn community_cards_drawn_as_emoji() {
    let mut state = PokerGameState::new(1);
    state.add_community_card(0);
    state.add_community_card(51);
    assert_eq!(format_community_cards(&state).matches('\n').count(), 1);
    assert!(format_community_cards(&state).contains("<:rA:"));
    assert!(format_community_cards(&state).contains("<:bK:"));
}

#[test]
fn lobby_lists_the_players() {
    let mut state = PokerGameState::new(5);
    state.add_player(6);
    state.add_bot();
    assert_eq!(
        lobby_description(&state, 60),
        "Join the game! Starting in **60** seconds.\nPlayers: <@5>, <@6>, Bot"
    );
}

#[test]
fn announcements() {
    assert_eq!(check_call_message(0, 50), "checked.");
    assert_eq!(check_call_message(25, 50), "called the 50 chip bet.");
    assert_eq!(raise_message(50, 100), "raised by 50. Current bet is now 100.");
    assert_eq!(all_in_message(700), "went all in with 700 chips!");
    assert_eq!(timeout_description(3), "<@3> took too long and folded.");
    assert_eq!(your_turn_message(BOT_USER_ID), "Bot, it's your turn!");
    assert_eq!(prompt_title(4), "<@4>'s Turn");
    assert_eq!(dealt_title(Phase::Flop), "Flop Dealt");
    assert_eq!(dealt_title(Phase::Lobby), " Dealt");
    assert_eq!(single_winner_description(9, 120), "<@9> wins the pot of 120 chips!");
    let state = PokerGameState::new(1);
    assert!(action_result_description(&state, 1, "folded.").starts_with("<@1> folded.\n\nPhase: Lobby"));
    assert!(prompt_description(&state).ends_with("Use **Show Cards** to view your hand privately."));
}

#[test]
fn hole_cards_text() {
    let mut state = PokerGameState::new(1);
    assert_eq!(hole_cards_description(&state, 1), "No hole cards yet.");
    state.set_hole_cards(1, vec![0, 13]);
    assert!(hole_cards_description(&state, 1).contains("<:s_hearts:"));
}

#[test]
fn showdown_text_lists_hands_and_winners() {
    let mut state = PokerGameState::new(1);
    state.add_player(2);
    state.pot = 100;
    for c in [0u8, 12, 11, 10, 9] {
        state.add_community_card(c);
    }
    state.set_hole_cards(1, vec![14, 15]);
    state.set_hole_cards(2, vec![16, 17]);
    let text = showdown_description(&state, &vec![1, 2]);
    assert!(text.starts_with("<@1>:\n"), "{}", text);
    assert!(text.contains("(Straight Flush)\n<@2>:\n"), "{}", text);
    assert!(text.ends_with("\n\n<@1>, <@2> wins the pot of 100 chips!"), "{}", text);
}
