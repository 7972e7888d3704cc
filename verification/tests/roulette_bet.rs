use gambling_bot::commands::roulette::roulette_bet::{
    bet_placed_message, make_roulette_bet, resolve_bet_type, BetRequestError, BettingTypesEnum,
};
use gambling_bot::commands::roulette::RouletteCommandsEnum;
use gambling_bot::sql::structs::{BettingTypes, RouletteBet};

#[test]
fn from_name_parses_all_slash_command_choices() {
    assert_eq!(BettingTypesEnum::from_name("red"), BettingTypesEnum::Red);
    assert_eq!(BettingTypesEnum::from_name("black"), BettingTypesEnum::Black);
    assert_eq!(BettingTypesEnum::from_name("green"), BettingTypesEnum::Green);
    assert_eq!(BettingTypesEnum::from_name("even"), BettingTypesEnum::Even);
    assert_eq!(BettingTypesEnum::from_name("odd"), BettingTypesEnum::Odd);
    assert_eq!(BettingTypesEnum::from_name("low"), BettingTypesEnum::Low);
    assert_eq!(BettingTypesEnum::from_name("high"), BettingTypesEnum::High);
    assert_eq!(BettingTypesEnum::from_name("number"), BettingTypesEnum::Specific(0));
}

#[test]
fn from_name_parses_numbers() {
    assert_eq!(BettingTypesEnum::from_name("0"), BettingTypesEnum::Specific(0));
    assert_eq!(BettingTypesEnum::from_name("17"), BettingTypesEnum::Specific(17));
    assert_eq!(BettingTypesEnum::from_name("36"), BettingTypesEnum::Specific(36));
}

#[test]
fn from_name_rejects_invalid() {
    for s in ["37", "abc", "", "-1"] {
        assert_eq!(BettingTypesEnum::from_name(s), BettingTypesEnum::Invalid, "expected {} to be invalid", s);
    }
}

#[test]
fn betting_types_map_to_bet_check_ids() {
    assert_eq!(BettingTypes::from_bettingtypeenum(BettingTypesEnum::Red) as u8, 0);
    assert_eq!(BettingTypes::from_bettingtypeenum(BettingTypesEnum::Black) as u8, 1);
    assert_eq!(BettingTypes::from_bettingtypeenum(BettingTypesEnum::Even) as u8, 2);
    assert_eq!(BettingTypes::from_bettingtypeenum(BettingTypesEnum::Odd) as u8, 3);
    assert_eq!(BettingTypes::from_bettingtypeenum(BettingTypesEnum::Low) as u8, 4);
    assert_eq!(BettingTypes::from_bettingtypeenum(BettingTypesEnum::High) as u8, 5);
    assert_eq!(BettingTypes::from_bettingtypeenum(BettingTypesEnum::Specific(7)) as u8, 6);
    assert_eq!(BettingTypes::from_bettingtypeenum(BettingTypesEnum::Green) as u8, 7);
}

#[test]
fn stored_ids_match_the_cast() {
    for t in [
        BettingTypes::RED,
        BettingTypes::BLACK,
        BettingTypes::EVEN,
        BettingTypes::ODD,
        BettingTypes::LOW,
        BettingTypes::HIGH,
        BettingTypes::SPECIFIC,
        BettingTypes::GREEN,
        BettingTypes::INVALID,
    ] {
        assert_eq!(t.id(), t as u8);
    }
}

#[test]
fn from_name_accepts_plus_and_leading_zeros_and_specific() {
    assert_eq!(BettingTypesEnum::from_name("+5"), BettingTypesEnum::Specific(5));
    assert_eq!(BettingTypesEnum::from_name("007"), BettingTypesEnum::Specific(7));
    assert_eq!(BettingTypesEnum::from_name("specific"), BettingTypesEnum::Specific(0));
    assert_eq!(BettingTypesEnum::from_name("256"), BettingTypesEnum::Invalid);
    assert_eq!(BettingTypesEnum::from_name("Red"), BettingTypesEnum::Invalid);
}

#[test]
fn specific_number_accessors() {
    let mut b = BettingTypesEnum::Red;
    assert_eq!(b.get_specific(), None);
    assert_eq!(b.derive_integer(), 1);
    b.set_specific(12);
    assert_eq!(b, BettingTypesEnum::Specific(12));
    assert_eq!(b.get_specific(), Some(12));
    assert_eq!(b.derive_integer(), 8);
    assert_eq!(BettingTypesEnum::Invalid.derive_integer(), 0);
    assert_eq!(BettingTypesEnum::High.derive_integer(), 7);
}

#[test]
fn bet_type_display() {
    assert_eq!(BettingTypesEnum::Green.to_display_string(), "Green");
    assert_eq!(BettingTypesEnum::Specific(23).to_display_string(), "23");
    assert_eq!(BettingTypesEnum::Invalid.to_display_string(), "Invalid");
}

#[test]
fn number_bets_take_the_requested_number() {
    assert_eq!(resolve_bet_type(BettingTypesEnum::Specific(0), Some(17)), Ok(BettingTypesEnum::Specific(17)));
    assert_eq!(resolve_bet_type(BettingTypesEnum::Specific(0), Some(37)), Ok(BettingTypesEnum::Invalid));
    assert_eq!(resolve_bet_type(BettingTypesEnum::Specific(0), Some(-1)), Ok(BettingTypesEnum::Invalid));
    assert_eq!(resolve_bet_type(BettingTypesEnum::Specific(0), None), Err(BetRequestError::ExpectedInteger));
    assert_eq!(resolve_bet_type(BettingTypesEnum::Red, None), Ok(BettingTypesEnum::Red));
}

#[test]
fn stored_bet_and_confirmation() {
    let b = make_roulette_bet(1, 2, 3, 100, BettingTypesEnum::Specific(9));
    assert_eq!(
        b,
        RouletteBet {
            amount: 100,
            user_id: 1,
            channel_id: 2,
            guild_id: 3,
            bet_type: BettingTypes::SPECIFIC,
            specific_bet: Some(9)
        }
    );
    assert_eq!(make_roulette_bet(1, 2, 3, 5, BettingTypesEnum::Odd).specific_bet, None);
    assert_eq!(bet_placed_message(100, BettingTypesEnum::Red), "You have placed a bet of 100 on Red!");
    assert_eq!(bet_placed_message(-5, BettingTypesEnum::Specific(0)), "You have placed a bet of -5 on 0!");
    assert_eq!(
        bet_placed_message(i64::MIN, BettingTypesEnum::Odd),
        format!("You have placed a bet of {} on Odd!", i64::MIN)
    );
}

#[test]
fn roulette_commands_by_name() {
    assert_eq!(RouletteCommandsEnum::from_str("roulette"), RouletteCommandsEnum::Roulette);
    assert_eq!(RouletteCommandsEnum::from_str("roulette_odds"), RouletteCommandsEnum::RouletteOdds);
    assert_eq!(RouletteCommandsEnum::from_str("roulette_table"), RouletteCommandsEnum::RouletteTable);
    assert_eq!(RouletteCommandsEnum::from_str("spin"), RouletteCommandsEnum::InvalidCommand);
}
