use gambling_bot::sql::structs::BetResult;
use gambling_bot::utils::roulette::{
    bet_check, get_color, get_spin, results_description, settle_bets, spin_description, spin_from_byte, Color,
    SpinResult,
};

const REDS: [u8; 18] = [1, 3, 5, 7, 9, 12, 14, 16, 18, 19, 21, 23, 25, 27, 30, 32, 34, 36];
const BLACKS: [u8; 18] = [2, 4, 6, 8, 10, 11, 13, 15, 17, 20, 22, 24, 26, 28, 29, 31, 33, 35];

fn spin(value: u8) -> SpinResult {
    SpinResult { value, color: get_color(value), oddness: value % 2 == 0 }
}

fn bet(amount: i64, bet_type: u8, specific_bet: Option<u8>) -> BetResult {
    BetResult { user_id: 1, net: amount, bet_type, specific_bet }
}

#[test]
fn wheel_colors_match_standard_layout() {
    for &n in REDS.iter() {
        assert_eq!(get_color(n), Color::RED, "{} should be red", n);
    }
    for &n in BLACKS.iter() {
        assert_eq!(get_color(n), Color::BLACK, "{} should be black", n);
    }
    assert_eq!(get_color(0), Color::GREEN);
    assert_eq!(get_color(37), Color::GREEN);
}

#[test]
fn every_number_has_a_color() {
    for n in 0..=37u8 {
        let _ = get_color(n);
    }
}

#[test]
fn spin_produces_valid_results() {
    for _ in 0..1000 {
        let s = get_spin();
        assert!(s.value < 38);
        assert_eq!(s.color, get_color(s.value));
        assert_eq!(s.oddness, s.value % 2 == 0);
    }
}

#[test]
fn red_bet_wins_on_red_loses_on_black() {
    let mut b = bet(100, 0, None);
    bet_check(&mut b, spin(1));
    assert_eq!(b.net, 200);

    let mut b = bet(100, 0, None);
    bet_check(&mut b, spin(2));
    assert_eq!(b.net, -100);

    let mut b = bet(100, 0, None);
    bet_check(&mut b, spin(0));
    assert_eq!(b.net, -100);
}

#[test]
fn black_bet_wins_on_black_loses_on_red() {
    let mut b = bet(100, 1, None);
    bet_check(&mut b, spin(2));
    assert_eq!(b.net, 200);

    let mut b = bet(100, 1, None);
    bet_check(&mut b, spin(1));
    assert_eq!(b.net, -100);
}

#[test]
fn even_and_odd_bets() {
    let mut b = bet(100, 2, None);
    bet_check(&mut b, spin(4));
    assert_eq!(b.net, 200);

    let mut b = bet(100, 2, None);
    bet_check(&mut b, spin(5));
    assert_eq!(b.net, -100);

    let mut b = bet(100, 3, None);
    bet_check(&mut b, spin(5));
    assert_eq!(b.net, 200);

    let mut b = bet(100, 3, None);
    bet_check(&mut b, spin(4));
    assert_eq!(b.net, -100);
}

#[test]
fn low_and_high_bets() {
    let mut b = bet(100, 4, None);
    bet_check(&mut b, spin(18));
    assert_eq!(b.net, 200);

    let mut b = bet(100, 4, None);
    bet_check(&mut b, spin(19));
    assert_eq!(b.net, -100);

    let mut b = bet(100, 5, None);
    bet_check(&mut b, spin(19));
    assert_eq!(b.net, 200);

    let mut b = bet(100, 5, None);
    bet_check(&mut b, spin(18));
    assert_eq!(b.net, -100);
}

#[test]
fn specific_bet_pays_35_to_1() {
    let mut b = bet(100, 6, Some(17));
    bet_check(&mut b, spin(17));
    assert_eq!(b.net, 100 + 100 * 35);

    let mut b = bet(100, 6, Some(17));
    bet_check(&mut b, spin(18));
    assert_eq!(b.net, -100);
}

#[test]
fn specific_bet_on_zero_is_valid() {
    let mut b = bet(100, 6, Some(0));
    bet_check(&mut b, spin(0));
    assert_eq!(b.net, 100 + 100 * 35);
}

#[test]
fn specific_bet_without_number_loses() {
    let mut b = bet(100, 6, None);
    bet_check(&mut b, spin(17));
    assert_eq!(b.net, -100);
}

#[test]
fn green_bet_wins_on_zero_and_double_zero() {
    let mut b = bet(100, 7, None);
    bet_check(&mut b, spin(0));
    assert_eq!(b.net, 100 + 100 * 17);

    let mut b = bet(100, 7, None);
    bet_check(&mut b, spin(37));
    assert_eq!(b.net, 100 + 100 * 17);

    let mut b = bet(100, 7, None);
    bet_check(&mut b, spin(5));
    assert_eq!(b.net, -100);
}

#[test]
fn even_money_bets_lose_on_zero_and_double_zero() {
    for bet_type in [2, 3, 4, 5] {
        let mut b = bet(100, bet_type, None);
        bet_check(&mut b, spin(0));
        assert_eq!(b.net, -100, "bet_type {} should lose on 0", bet_type);

        let mut b = bet(100, bet_type, None);
        bet_check(&mut b, spin(37));
        assert_eq!(b.net, -100, "bet_type {} should lose on 00", bet_type);
    }
}

#[test]
fn unknown_bet_type_loses() {
    let mut b = bet(100, 99, None);
    bet_check(&mut b, spin(1));
    assert_eq!(b.net, -100);
}

#[test]
fn spin_from_byte_wraps_round_the_wheel() {
    assert_eq!(spin_from_byte(0), spin(0));
    assert_eq!(spin_from_byte(37), spin(37));
    assert_eq!(spin_from_byte(38), spin(0));
    assert_eq!(spin_from_byte(255), spin(255 % 38));
    assert_eq!(spin_from_byte(45).value, 7);
}

#[test]
fn settle_bets_settles_each_bet() {
    let mut bets = vec![bet(100, 0, None), bet(50, 7, None), bet(10, 6, Some(3))];
    settle_bets(&mut bets, spin(3));
    assert_eq!(bets[0].net, 200);
    assert_eq!(bets[1].net, -50);
    assert_eq!(bets[2].net, 10 + 10 * 35);
    assert_eq!(bets[2].specific_bet, Some(3));
}

#[test]
fn spin_and_results_text() {
    assert_eq!(spin_description(spin(3)), "Value: 3, Color: Red, Oddness: false");
    assert_eq!(spin_description(spin(0)), "Value: 0, Color: Green, Oddness: true");
    let settled = vec![
        BetResult { user_id: 7, net: 200, bet_type: 0, specific_bet: None },
        BetResult { user_id: 8, net: -50, bet_type: 7, specific_bet: None },
    ];
    assert_eq!(
        results_description(spin(3), &settled),
        "The results are in! The spin was Value: 3, Color: Red, Oddness: false!\n<@7> won 200!\n<@8> lost 50!"
    );
}
