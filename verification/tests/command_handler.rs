use gambling_bot::commands::money::MoneyCommandsEnum;
use gambling_bot::utils::command_handler::{command_to_category, CategoriesEnum};
use gambling_bot::utils::game_id_to_name;

#[test]
fn commands_route_to_their_category() {
    for cmd in ["bal", "reset_bal", "reset_user_bal"] {
        assert!(matches!(command_to_category(cmd), CategoriesEnum::Money), "{}", cmd);
    }
    for cmd in ["roulette", "roulette_odds", "roulette_table"] {
        assert!(matches!(command_to_category(cmd), CategoriesEnum::Roulette), "{}", cmd);
    }
    for cmd in ["pstart", "pjoin", "pleave", "phand"] {
        assert!(matches!(command_to_category(cmd), CategoriesEnum::Poker), "{}", cmd);
    }
    assert!(matches!(command_to_category("slots"), CategoriesEnum::Slots));
    assert!(matches!(command_to_category("blackjack"), CategoriesEnum::Blackjack));
}

#[test]
fn unknown_commands_are_invalid() {
    for cmd in ["", "pdance", "BAL", "roulette_"] {
        assert!(matches!(command_to_category(cmd), CategoriesEnum::InvalidCategory), "{}", cmd);
    }
}

#[test]
fn category_from_str() {
    assert!(matches!(CategoriesEnum::from_name("poker"), CategoriesEnum::Poker));
    assert!(matches!(CategoriesEnum::from_name("nope"), CategoriesEnum::InvalidCategory));
}

#[test]
fn every_category_name_reads() {
    assert_eq!(CategoriesEnum::from_name("money"), CategoriesEnum::Money);
    assert_eq!(CategoriesEnum::from_name("roulette"), CategoriesEnum::Roulette);
    assert_eq!(CategoriesEnum::from_name("slots"), CategoriesEnum::Slots);
    assert_eq!(CategoriesEnum::from_name("blackjack"), CategoriesEnum::Blackjack);
    assert_eq!(CategoriesEnum::from_name("mod"), CategoriesEnum::Mod);
    assert_eq!(CategoriesEnum::from_name("help"), CategoriesEnum::Help);
}

#[test]
fn set_bal_is_not_routed_to_money() {
    assert_eq!(command_to_category("set_bal"), CategoriesEnum::InvalidCategory);
}

#[test]
fn game_id_to_name_maps_known_games() {
    assert_eq!(game_id_to_name(0), "poker");
    assert_eq!(game_id_to_name(1), "unknown");
    assert_eq!(game_id_to_name(255), "unknown");
}

#[test]
fn money_commands_by_name() {
    assert_eq!(MoneyCommandsEnum::from_name("bal"), MoneyCommandsEnum::Balance);
    assert_eq!(MoneyCommandsEnum::from_name("reset_bal"), MoneyCommandsEnum::ResetBalance);
    assert_eq!(MoneyCommandsEnum::from_name("reset_user_bal"), MoneyCommandsEnum::ResetUserBalance);
    assert_eq!(MoneyCommandsEnum::from_name("set_bal"), MoneyCommandsEnum::SetBalance);
    assert_eq!(MoneyCommandsEnum::from_name("balance"), MoneyCommandsEnum::InvalidCommand);
}
