use gambling_bot::commands::poker::session::BOT_USER_ID;
use gambling_bot::secrets::{admin_list, admin_server, find_secret, is_admin_user};
use gambling_bot::utils::cleanup::{checked_group_refunds, group_refunds, poker_refund, stale_session_keys, state_guild_id};

#[test]
fn guild_id_of_a_session_key() {
    assert_eq!(state_guild_id("poker_state_111_222"), 111);
    assert_eq!(state_guild_id("poker_state_x_222"), 0);
    assert_eq!(state_guild_id("poker_state"), 0);
    assert_eq!(state_guild_id("a_b_+7_c"), 7);
}

#[test]
fn keys_of_a_stale_session() {
    assert_eq!(
        stale_session_keys("poker_state_1_2"),
        Some(("poker_state_1_2".to_string(), "poker_1_2_*".to_string()))
    );
    assert_eq!(stale_session_keys("poker_state_1"), None);
    assert_eq!(
        stale_session_keys("poker_state_a_b_c"),
        Some(("poker_state_a_b".to_string(), "poker_a_b_*".to_string()))
    );
}

#[test]
fn poker_refunds_skip_the_bot() {
    assert_eq!(poker_refund(5, 300), Some(300));
    assert_eq!(poker_refund(BOT_USER_ID, 300), None);
    assert_eq!(poker_refund(5, u64::MAX), Some(-1));
}

#[test]
fn roulette_refunds_grouped_by_player_and_guild() {
    let bets = vec![(1u64, 10u64, 50i64), (2, 10, 5), (1, 10, 25), (1, 11, 7)];
    assert_eq!(group_refunds(&bets), vec![(1, 10, 75), (2, 10, 5), (1, 11, 7)]);
    assert_eq!(group_refunds(&vec![]), Vec::<(u64, u64, i64)>::new());
}

#[test]
fn roulette_refunds_that_overflow_are_refused() {
    let bets = vec![(1u64, 10u64, i64::MAX), (2, 10, 5), (1, 10, 1)];
    assert_eq!(checked_group_refunds(&bets), None);
    let bets = vec![(1u64, 10u64, i64::MAX), (1, 11, 1), (1, 10, -1)];
    assert_eq!(checked_group_refunds(&bets), Some(vec![(1, 10, i64::MAX - 1), (1, 11, 1)]));
}

#[test]
fn settings_file() {
    let file = "Database,DB,casino\nAdmins,admin_list, 1,2 ,x,3\nLink,URL,a,b,c\r\n";
    let s = find_secret(file, "db");
    assert_eq!((s.name.as_str(), s.key.as_str(), s.value.as_str()), ("Database", "DB", "casino"));
    let a = find_secret(file, "ADMIN_LIST");
    assert_eq!(a.value, " 1,2 ,x,3");
    assert_eq!(admin_list(&a.value), vec![1, 2, 3]);
    assert_eq!(find_secret(file, "url").value, "a,b,c");
    let none = find_secret(file, "missing");
    assert_eq!((none.name.as_str(), none.key.as_str(), none.value.as_str()), ("none", "none", "none"));
    assert_eq!(find_secret("", "x").value, "none");
    assert_eq!(admin_server("123"), Some(123));
    assert_eq!(admin_server("none"), None);
    assert!(is_admin_user(&vec![1, 2, 3], 2));
    assert!(!is_admin_user(&vec![1, 2, 3], 4));
}
