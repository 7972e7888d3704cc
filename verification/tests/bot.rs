use rand::rngs::StdRng;
use rand::SeedableRng;

use gambling_bot::commands::poker::bot::{decide_action, decide_from_roll};
use gambling_bot::commands::poker::flow::PlayerAction;
use gambling_bot::commands::poker::session::{PokerGameState, BOT_USER_ID};

fn state_with_bot(bot_balance: u64, current_bet: u64, bot_bet: u64) -> PokerGameState {
    let mut state = PokerGameState::new(1);
    state.add_bot();
    state.bot_balance = bot_balance;
    state.current_bet = current_bet;
    if bot_bet > 0 {
        state.round_bets.insert(BOT_USER_ID, bot_bet);
    }
    state
}

#[test]
fn broke_bot_facing_bet_always_folds() {
    let state = state_with_bot(0, 100, 0);
    let mut rng = StdRng::seed_from_u64(42);
    for _ in 0..100 {
        let (action, _) = decide_action(&state, &mut rng);
        assert_eq!(action, PlayerAction::Fold);
    }
}

#[test]
fn short_stack_only_folds_or_shoves() {
    let state = state_with_bot(30, 100, 0);
    let mut rng = StdRng::seed_from_u64(7);
    for _ in 0..200 {
        let (action, _) = decide_action(&state, &mut rng);
        assert!(matches!(action, PlayerAction::Fold | PlayerAction::AllIn));
    }
}

#[test]
fn no_bet_and_no_chips_always_checks() {
    let state = state_with_bot(0, 0, 0);
    let mut rng = StdRng::seed_from_u64(1);
    for _ in 0..100 {
        let (action, _) = decide_action(&state, &mut rng);
        assert_eq!(action, PlayerAction::CheckCall);
    }
}

#[test]
fn never_raises_above_balance() {
    let state = state_with_bot(60, 30, 0);
    let mut rng = StdRng::seed_from_u64(99);
    for _ in 0..200 {
        let (action, amount) = decide_action(&state, &mut rng);
        if action == PlayerAction::Raise {
            let raise = amount.expect("raise must carry an amount");
            assert!(30 + raise <= 60, "raise exceeds bot balance");
        }
    }
}

#[test]
fn decisions_are_eventually_varied() {
    let state = state_with_bot(1000, 0, 0);
    let mut rng = StdRng::seed_from_u64(1234);
    let mut saw_check = false;
    let mut saw_raise = false;
    for _ in 0..500 {
        let (action, _) = decide_action(&state, &mut rng);
        saw_check |= action == PlayerAction::CheckCall;
        saw_raise |= action == PlayerAction::Raise;
        if saw_check && saw_raise {
            return;
        }
    }
    panic!("bot never varied its action (check: {}, raise: {})", saw_check, saw_raise);
}

#[test]
fn roll_thresholds() {
    // nothing to call
    assert_eq!(decide_from_roll(0, 1000, 69), (PlayerAction::CheckCall, None));
    assert_eq!(decide_from_roll(0, 1000, 70), (PlayerAction::Raise, Some(50)));
    assert_eq!(decide_from_roll(0, 1000, 89), (PlayerAction::Raise, Some(50)));
    assert_eq!(decide_from_roll(0, 1000, 90), (PlayerAction::AllIn, None));
    assert_eq!(decide_from_roll(0, 49, 80), (PlayerAction::AllIn, None));
    assert_eq!(decide_from_roll(0, 0, 95), (PlayerAction::CheckCall, None));
    // facing a bet
    assert_eq!(decide_from_roll(100, 1000, 59), (PlayerAction::CheckCall, None));
    assert_eq!(decide_from_roll(100, 1000, 60), (PlayerAction::Raise, Some(50)));
    assert_eq!(decide_from_roll(100, 149, 60), (PlayerAction::AllIn, None));
    assert_eq!(decide_from_roll(100, 1000, 85), (PlayerAction::AllIn, None));
    assert_eq!(decide_from_roll(100, 100, 90), (PlayerAction::Fold, None));
    assert_eq!(decide_from_roll(100, 1000, 95), (PlayerAction::Fold, None));
    // cannot call
    assert_eq!(decide_from_roll(100, 30, 29), (PlayerAction::AllIn, None));
    assert_eq!(decide_from_roll(100, 30, 30), (PlayerAction::Fold, None));
}
