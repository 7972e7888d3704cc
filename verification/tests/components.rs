use gambling_bot::commands::poker::components::{
    action_button_id, join_button_id, parse_poker_custom_id, raise_button_id, show_cards_button_id,
    start_button_id, ComponentError, PokerComponent,
};
use gambling_bot::commands::poker::flow::{button_for, PlayerAction};

#[test]
fn parses_join_and_start() {
    assert_eq!(
        parse_poker_custom_id("poker:join:111:222").unwrap(),
        Some(PokerComponent::Join { gid: 111, cid: 222 })
    );
    assert_eq!(
        parse_poker_custom_id("poker:start:111:222").unwrap(),
        Some(PokerComponent::Start { gid: 111, cid: 222 })
    );
}

#[test]
fn parses_showcards_with_uid() {
    assert_eq!(
        parse_poker_custom_id("poker:showcards:1:2:3").unwrap(),
        Some(PokerComponent::ShowCards { gid: 1, cid: 2, uid: 3 })
    );
}

#[test]
fn parses_actions() {
    assert_eq!(
        parse_poker_custom_id("poker:fold:1:2:3").unwrap(),
        Some(PokerComponent::Action { gid: 1, cid: 2, uid: 3, action: PlayerAction::Fold, amount: None })
    );
    assert_eq!(
        parse_poker_custom_id("poker:checkcall:1:2:3").unwrap(),
        Some(PokerComponent::Action { gid: 1, cid: 2, uid: 3, action: PlayerAction::CheckCall, amount: None })
    );
    assert_eq!(
        parse_poker_custom_id("poker:allin:1:2:3").unwrap(),
        Some(PokerComponent::Action { gid: 1, cid: 2, uid: 3, action: PlayerAction::AllIn, amount: None })
    );
    assert_eq!(
        parse_poker_custom_id("poker:raise:1:2:3:200").unwrap(),
        Some(PokerComponent::Action { gid: 1, cid: 2, uid: 3, action: PlayerAction::Raise, amount: Some(200) })
    );
}

#[test]
fn rejects_non_poker_and_incomplete_ids() {
    assert_eq!(parse_poker_custom_id("other:join:1:2").unwrap(), None);
    assert_eq!(parse_poker_custom_id("poker:join:1").unwrap(), None);
    assert_eq!(parse_poker_custom_id("poker:fold:1:2").unwrap(), None);
    assert_eq!(parse_poker_custom_id("poker:raise:1:2:3").unwrap(), None);
    assert_eq!(parse_poker_custom_id("poker:bogus:1:2:3").unwrap(), None);
}

#[test]
fn errors_on_malformed_ids() {
    assert!(parse_poker_custom_id("poker:join:abc:2").is_err());
    assert!(parse_poker_custom_id("poker:join:1:abc").is_err());
    assert!(parse_poker_custom_id("poker:fold:1:2:abc").is_err());
    assert!(parse_poker_custom_id("poker:raise:1:2:3:abc").is_err());
}

#[test]
fn each_malformed_piece_has_its_error() {
    assert_eq!(parse_poker_custom_id("poker:join:abc:2"), Err(ComponentError::InvalidGuildId));
    assert_eq!(parse_poker_custom_id("poker:join:1:-2"), Err(ComponentError::InvalidChannelId));
    assert_eq!(parse_poker_custom_id("poker:showcards:1:2:x"), Err(ComponentError::InvalidUserId));
    assert_eq!(parse_poker_custom_id("poker:raise:1:2:3:"), Err(ComponentError::InvalidRaiseAmount));
    // the ids are read before the action word
    assert_eq!(parse_poker_custom_id("poker:bogus:x:2:3"), Err(ComponentError::InvalidGuildId));
    assert_eq!(ComponentError::InvalidUserId.message(), "Invalid user id");
    // extra pieces are ignored, `+` is accepted as by `str::parse`
    assert_eq!(
        parse_poker_custom_id("poker:start:+1:2:extra").unwrap(),
        Some(PokerComponent::Start { gid: 1, cid: 2 })
    );
}

#[test]
fn button_ids_read_back() {
    let (g, c, u) = (987654321987654321u64, 123u64, u64::MAX);
    assert_eq!(join_button_id(g, c), "poker:join:987654321987654321:123");
    assert_eq!(parse_poker_custom_id(&join_button_id(g, c)), Ok(Some(PokerComponent::Join { gid: g, cid: c })));
    assert_eq!(parse_poker_custom_id(&start_button_id(g, c)), Ok(Some(PokerComponent::Start { gid: g, cid: c })));
    assert_eq!(
        parse_poker_custom_id(&show_cards_button_id(g, c, u)),
        Ok(Some(PokerComponent::ShowCards { gid: g, cid: c, uid: u }))
    );
    for a in [PlayerAction::Fold, PlayerAction::CheckCall, PlayerAction::AllIn] {
        assert_eq!(
            parse_poker_custom_id(&action_button_id(g, c, u, a)),
            Ok(Some(PokerComponent::Action { gid: g, cid: c, uid: u, action: a, amount: None }))
        );
    }
    assert_eq!(raise_button_id(1, 2, 3, 100), "poker:raise:1:2:3:100");
    assert_eq!(
        parse_poker_custom_id(&raise_button_id(g, c, u, 200)),
        Ok(Some(PokerComponent::Action { gid: g, cid: c, uid: u, action: PlayerAction::Raise, amount: Some(200) }))
    );
}

#[test]
fn buttons_answer_only_their_player() {
    assert!(button_for(PokerComponent::Join { gid: 1, cid: 2 }, 9));
    assert!(button_for(PokerComponent::ShowCards { gid: 1, cid: 2, uid: 9 }, 9));
    assert!(!button_for(PokerComponent::ShowCards { gid: 1, cid: 2, uid: 9 }, 8));
    assert!(!button_for(
        PokerComponent::Action { gid: 1, cid: 2, uid: 9, action: PlayerAction::Fold, amount: None },
        8
    ));
}
