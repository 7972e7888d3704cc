use gambling_bot::commands::money::{
    check_confirmation, check_reset_user_bal, check_set_bal, may_moderate, reset_confirm_id, ConfirmError, MoneyError,
};
use gambling_bot::redis::decks::{deck_key, deck_to_ints, primative_to_deck};
use gambling_bot::redis::keys::{channel_key, cleanup_patterns, roulette_table_key};
use gambling_bot::redis::users::{
    added_balance, looked_up_balance, needs_account, read_balance, user_key, winnings_action, WinningsAction,
    STARTING_BAL,
};
use gambling_bot::sql::{balance_after_stake, get_db_link, StakeError};
use gambling_bot::utils::deck::{card_to_int, generate_deck, int_to_card};
use gambling_bot::utils::money::{balance_after_change, logged_delta, reset_delta};

#[test]
fn balance_changes_saturate() {
    assert_eq!(balance_after_change(100, 50), 150);
    assert_eq!(balance_after_change(i64::MAX, 1), i64::MAX);
    assert_eq!(balance_after_change(i64::MIN, -1), i64::MIN);
    assert_eq!(logged_delta(100, 40), -60);
    assert_eq!(logged_delta(i64::MIN, 1), i64::MAX);
    assert_eq!(reset_delta(2500), STARTING_BAL - 2500);
    assert_eq!(reset_delta(i64::MIN), i64::MAX);
}

#[test]
fn reset_brings_the_balance_back() {
    for current in [0i64, 1, 9999, 10000, 123456789, -5000, i64::MAX] {
        assert_eq!(balance_after_change(current, reset_delta(current)), STARTING_BAL);
    }
    // too negative: the difference saturates and the reset falls short
    assert_ne!(balance_after_change(i64::MIN, reset_delta(i64::MIN)), STARTING_BAL);
}

#[test]
fn account_lookups() {
    assert_eq!(user_key(5, 7), "user_5_7");
    assert_eq!(read_balance(None), 0);
    assert_eq!(read_balance(Some(-3)), -3);
    assert!(needs_account(0));
    assert!(!needs_account(-1));
    assert_eq!(looked_up_balance(0, true), STARTING_BAL);
    assert_eq!(looked_up_balance(0, false), 0);
    assert_eq!(looked_up_balance(42, false), 42);
    assert_eq!(added_balance(42, -50), -8);
    assert_eq!(winnings_action(20), WinningsAction::Credit(20));
    assert_eq!(winnings_action(-20), WinningsAction::LogLoss(-20));
    assert_eq!(winnings_action(0), WinningsAction::Nothing);
}

#[test]
fn storage_keys() {
    assert_eq!(deck_key(0, 99), "deck_poker_99");
    assert_eq!(deck_key(3, 99), "deck_unknown_99");
    assert_eq!(channel_key(4), "channel_4");
    assert_eq!(roulette_table_key(4), "roulette_4");
    let patterns = cleanup_patterns(1, 2);
    assert_eq!(patterns.len(), 10);
    assert_eq!(patterns[0], "poker_1_2_*");
    assert_eq!(patterns[7], "poker_state_1_2");
    assert_eq!(patterns[8], "poker_user_bet_1_2_*");
    assert_eq!(patterns[9], "deck_poker_1_2");
}

#[test]
fn decks_are_stored_as_card_numbers() {
    let deck = primative_to_deck(vec![0, 51, 13]);
    assert_eq!(deck.deck, vec![int_to_card(0), int_to_card(51), int_to_card(13)]);
    assert_eq!(deck_to_ints(&deck), vec![0, 51, 13]);
    assert_eq!(card_to_int(deck.deck[1]), 51);
}

#[test]
fn a_stored_deck_reads_back_unchanged() {
    let deck = generate_deck(52);
    let back = primative_to_deck(deck_to_ints(&deck));
    assert_eq!(back.deck, deck.deck);
}

#[test]
fn database_links() {
    assert_eq!(get_db_link("casino", "bot", "pw", "10.0.0.2"), "mysql://bot:pw@10.0.0.2/casino");
    assert_eq!(gambling_bot::redis::get_db_link("127.0.0.1"), "redis://127.0.0.1");
    assert_eq!(balance_after_stake(100, 30), Ok(70));
    assert_eq!(balance_after_stake(100, 101), Err(StakeError::NotEnoughBalance));
}

#[test]
fn moderation_rules() {
    assert!(may_moderate(true, None, Some(5)));
    assert!(may_moderate(false, Some(6), Some(5)));
    assert!(!may_moderate(false, Some(5), Some(5)));
    assert!(may_moderate(false, Some(1), None));
    assert!(!may_moderate(false, None, None));
    assert!(!may_moderate(false, None, Some(1)));
}

#[test]
fn balance_command_checks() {
    assert_eq!(check_set_bal(Some(3), Some(10), false), Ok((3, 10)));
    assert_eq!(check_set_bal(None, Some(10), false), Err(MoneyError::MissingUserOrAmount));
    assert_eq!(check_set_bal(Some(3), Some(-1), true), Err(MoneyError::NegativeAmount));
    assert_eq!(check_set_bal(Some(3), Some(0), true), Err(MoneyError::SetBotBalance));
    assert_eq!(check_reset_user_bal(None, 1, false), Err(MoneyError::InvalidUser));
    assert_eq!(check_reset_user_bal(Some(1), 1, true), Err(MoneyError::ResetOwnBalance));
    assert_eq!(check_reset_user_bal(Some(2), 1, true), Err(MoneyError::ResetBotBalance));
    assert_eq!(check_reset_user_bal(Some(2), 1, false), Ok(2));
    assert_eq!(MoneyError::NegativeAmount.message(), "Amount cannot be negative.");
}

#[test]
fn reset_confirmations() {
    let id = reset_confirm_id(42, 1000);
    assert_eq!(id, "reset_bal:42:1000");
    assert_eq!(check_confirmation(&id, 1300, 42), Ok(()));
    assert_eq!(check_confirmation(&id, 1301, 42), Err(ConfirmError::Expired));
    assert_eq!(check_confirmation(&id, 500, 42), Ok(()));
    assert_eq!(check_confirmation(&id, 1000, 43), Err(ConfirmError::NotForYou));
    assert_eq!(check_confirmation("reset_bal:42", 0, 42), Err(ConfirmError::InvalidConfirmation));
    assert_eq!(check_confirmation("reset_bal:x:1", 0, 42), Err(ConfirmError::BadUserId));
    assert_eq!(check_confirmation("reset_bal:42:", 0, 42), Err(ConfirmError::BadTimestamp));
}
