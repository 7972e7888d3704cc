use gambling_bot::commands::poker::poker_discard::normalize_discard_input;
use gambling_bot::commands::poker::PokerCommandsEnum;

#[test]
fn command_strings_roundtrip() {
    for cmd in [PokerCommandsEnum::Join, PokerCommandsEnum::Leave, PokerCommandsEnum::Start, PokerCommandsEnum::Hand] {
        let parsed = PokerCommandsEnum::from_name(cmd.to_str());
        assert_eq!(parsed.to_str(), cmd.to_str());
    }
}

#[test]
fn unknown_command_is_invalid() {
    assert_eq!(PokerCommandsEnum::from_name("pdance").to_str(), PokerCommandsEnum::InvalidCommand.to_str());
}

#[test]
fn invalid_command_name_reads_back_as_invalid() {
    assert_eq!(PokerCommandsEnum::from_name("invalid"), PokerCommandsEnum::InvalidCommand);
    assert_eq!(PokerCommandsEnum::from_name("phand"), PokerCommandsEnum::Hand);
}

#[test]
fn discard_input_keeps_first_of_each_position() {
    assert_eq!(normalize_discard_input("1 3 5"), "135");
    assert_eq!(normalize_discard_input("3,1,3,1"), "31");
    assert_eq!(normalize_discard_input("0 6 9 abc"), "");
    assert_eq!(normalize_discard_input("55554444"), "54");
    assert_eq!(normalize_discard_input(""), "");
    assert_eq!(normalize_discard_input("٣2"), "2");
    assert_eq!(normalize_discard_input("5 5 1 9 3 2 4 1 2 3"), "51324");
}
