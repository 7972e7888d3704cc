use gambling_bot::commands::roulette::roulette_bet::BettingTypesEnum;
use gambling_bot::commands::roulette::roulette_odds::get_odds;
use gambling_bot::sql::structs::BettingTypes;
use gambling_bot::sql::structs::BetResult;
use gambling_bot::utils::roulette::{bet_check, get_color, SpinResult};

#[test]
fn even_money_bets_pay_1_to_1() {
    for opt in ["red", "black", "odd", "even", "low", "high"] {
        assert_eq!(get_odds(opt), "1 to 1");
    }
}

#[test]
fn green_pays_17_to_1() {
    assert_eq!(get_odds("green"), "17 to 1");
}

#[test]
fn single_numbers_pay_35_to_1() {
    for n in 0..=36 {
        assert_eq!(get_odds(&n.to_string()), "35 to 1");
    }
}

#[test]
fn invalid_options_rejected() {
    for opt in ["37", "-1", "abc", ""] {
        assert_eq!(get_odds(opt), "Invalid option", "expected {} to be invalid", opt);
    }
}

#[test]
fn odds_read_numbers_as_i32() {
    assert_eq!(get_odds("-0"), "35 to 1");
    assert_eq!(get_odds("+36"), "35 to 1");
    assert_eq!(get_odds("0000000000007"), "35 to 1");
    assert_eq!(get_odds("99999999999"), "Invalid option");
    assert_eq!(get_odds("number"), "Invalid option");
}

#[test]
fn quoted_odds_are_what_a_winning_bet_pays() {
    for (name, pocket) in [("red", 1u8), ("black", 2), ("even", 4), ("odd", 5), ("low", 3), ("high", 30), ("green", 0), ("17", 17)] {
        let kind = BettingTypesEnum::from_name(name);
        let mut bet = BetResult {
            user_id: 1,
            net: 10,
            bet_type: BettingTypes::from_bettingtypeenum(kind).id(),
            specific_bet: kind.get_specific(),
        };
        bet_check(&mut bet, SpinResult { value: pocket, color: get_color(pocket), oddness: pocket % 2 == 0 });
        let odds = get_odds(name);
        let multiple: i64 = odds.split(' ').next().unwrap().parse().unwrap();
        assert_eq!(bet.net, 10 + 10 * multiple, "{}", name);
    }
}
