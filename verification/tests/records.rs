use gambling_bot::sql::structs::{BetResult, BettingTypes, Card, RouletteBet, Suite};

#[test]
fn cards_and_suits_show_their_names() {
    assert_eq!(Card::ONE.to_display_string(), "ONE");
    assert_eq!(Card::TEN.to_display_string(), "TEN");
    assert_eq!(Card::KING.to_display_string(), "KING");
    assert_eq!(Suite::DIAMONDS.to_display_string(), "DIAMONDS");
    assert_eq!(Suite::SPADES.to_display_string(), "SPADES");
}

#[test]
fn waiting_bet_shows_its_fields() {
    let bet = RouletteBet {
        amount: 250,
        user_id: 7,
        channel_id: 8,
        guild_id: 9,
        bet_type: BettingTypes::SPECIFIC,
        specific_bet: Some(17),
    };
    assert_eq!(
        bet.to_display_string(),
        "(amount: 250, user_id: 7, channel_id: 8, bet_type: 6, specific_bet: 17)"
    );
    let bet = RouletteBet { amount: -5, bet_type: BettingTypes::RED, specific_bet: None, ..bet };
    assert_eq!(bet.to_display_string(), "(amount: -5, user_id: 7, channel_id: 8, bet_type: 0)");
}

#[test]
fn settled_bet_shows_its_fields() {
    let r = BetResult { user_id: 3, net: -100, bet_type: 1, specific_bet: None };
    assert_eq!(r.to_display_string(), "user_id: 3, net: -100, bet_type: 1");
    let r = BetResult { user_id: 3, net: i64::MIN, bet_type: 6, specific_bet: Some(0) };
    assert_eq!(
        r.to_display_string(),
        "user_id: 3, net: -9223372036854775808, bet_type: 6, specific_bet: 0"
    );
}
