use gambling_bot::commands::poker::hand_evaluator::{
    check_straight,
    card_to_emoji, card_tuple_to_eval, cards_to_discord_emojis, evaluate_seven, rank_to_string, EvalCard, Rank, Suit,
};
use gambling_bot::sql::structs::{Card, Suite};

fn c(rank: Rank, suit: Suit) -> EvalCard {
    EvalCard::new(rank, suit)
}

/// Five "core" cards plus two junk cards that don't interact.
fn seven(core: [EvalCard; 5], junk: [EvalCard; 2]) -> Vec<EvalCard> {
    core.iter().chain(junk.iter()).copied().collect()
}

#[test]
fn test_royal_flush_beats_straight_flush() {
    let royal = vec![
        EvalCard::new(14, 0),
        EvalCard::new(13, 0),
        EvalCard::new(12, 0),
        EvalCard::new(11, 0),
        EvalCard::new(10, 0),
        EvalCard::new(2, 1),
        EvalCard::new(3, 2),
    ];
    let straight_flush = vec![
        EvalCard::new(9, 1),
        EvalCard::new(8, 1),
        EvalCard::new(7, 1),
        EvalCard::new(6, 1),
        EvalCard::new(5, 1),
        EvalCard::new(2, 0),
        EvalCard::new(3, 0),
    ];
    assert!(evaluate_seven(&royal) > evaluate_seven(&straight_flush));
}

#[test]
fn test_pair_beats_high_card() {
    let pair = vec![
        EvalCard::new(14, 0),
        EvalCard::new(14, 1),
        EvalCard::new(2, 0),
        EvalCard::new(3, 1),
        EvalCard::new(5, 2),
        EvalCard::new(7, 3),
        EvalCard::new(9, 0),
    ];
    let high = vec![
        EvalCard::new(14, 0),
        EvalCard::new(13, 1),
        EvalCard::new(11, 0),
        EvalCard::new(9, 1),
        EvalCard::new(7, 2),
        EvalCard::new(5, 3),
        EvalCard::new(3, 0),
    ];
    assert!(evaluate_seven(&pair) > evaluate_seven(&high));
}

#[test]
fn test_discord_emojis_format() {
    let cards = vec![EvalCard::new(14, 0), EvalCard::new(13, 3)];
    let emoji = cards_to_discord_emojis(&cards);
    assert!(emoji.contains("<:rA:"));
    assert!(emoji.contains("<:s_diamonds:"));
    assert!(emoji.contains("<:bK:"));
    assert!(emoji.contains("<:s_spades:"));
    assert!(emoji.contains('\n'));
}

#[test]
fn detects_straight_flush() {
    let hand = seven([c(9, 2), c(8, 2), c(7, 2), c(6, 2), c(5, 2)], [c(14, 0), c(13, 1)]);
    assert_eq!(evaluate_seven(&hand)[0], 8);
}

#[test]
fn detects_four_of_a_kind_with_kicker() {
    let hand = seven([c(9, 0), c(9, 1), c(9, 2), c(9, 3), c(14, 0)], [c(2, 1), c(3, 2)]);
    assert_eq!(evaluate_seven(&hand), vec![7, 9, 14]);
}

#[test]
fn detects_full_house() {
    let hand = seven([c(10, 0), c(10, 1), c(10, 2), c(4, 0), c(4, 1)], [c(7, 3), c(13, 0)]);
    assert_eq!(evaluate_seven(&hand), vec![6, 10, 4]);
}

#[test]
fn detects_flush() {
    let hand = seven([c(14, 1), c(11, 1), c(9, 1), c(6, 1), c(2, 1)], [c(3, 0), c(4, 2)]);
    let rank = evaluate_seven(&hand);
    assert_eq!(rank, vec![5, 14, 11, 9, 6, 2]);
}

#[test]
fn detects_straight() {
    let hand = seven([c(10, 0), c(9, 1), c(8, 2), c(7, 0), c(6, 1)], [c(2, 2), c(14, 3)]);
    assert_eq!(evaluate_seven(&hand), vec![4, 10]);
}

#[test]
fn detects_wheel_straight_ace_low() {
    let hand = seven([c(14, 0), c(2, 1), c(3, 2), c(4, 0), c(5, 1)], [c(9, 2), c(11, 3)]);
    assert_eq!(evaluate_seven(&hand), vec![4, 5]);
}

#[test]
fn detects_three_of_a_kind_with_kickers() {
    let hand = seven([c(8, 0), c(8, 1), c(8, 2), c(14, 0), c(11, 1)], [c(2, 2), c(4, 3)]);
    assert_eq!(evaluate_seven(&hand), vec![3, 8, 14, 11]);
}

#[test]
fn detects_two_pair_with_kicker() {
    let hand = seven([c(12, 0), c(12, 1), c(5, 2), c(5, 0), c(9, 1)], [c(2, 2), c(3, 3)]);
    assert_eq!(evaluate_seven(&hand), vec![2, 12, 5, 9]);
}

#[test]
fn detects_pair_with_kickers() {
    let hand = seven([c(11, 0), c(11, 1), c(14, 2), c(9, 0), c(4, 1)], [c(2, 2), c(6, 3)]);
    assert_eq!(evaluate_seven(&hand), vec![1, 11, 14, 9, 6]);
}

#[test]
fn detects_high_card() {
    let hand = seven([c(14, 0), c(12, 1), c(9, 2), c(6, 0), c(3, 1)], [c(2, 2), c(4, 3)]);
    assert_eq!(evaluate_seven(&hand), vec![0, 14, 12, 9, 6, 4]);
}

#[test]
fn category_ordering_holds() {
    let straight_flush = seven([c(9, 2), c(8, 2), c(7, 2), c(6, 2), c(5, 2)], [c(2, 0), c(3, 1)]);
    let quads = seven([c(9, 0), c(9, 1), c(9, 2), c(9, 3), c(2, 0)], [c(3, 1), c(4, 2)]);
    let full_house = seven([c(9, 0), c(9, 1), c(9, 2), c(2, 0), c(2, 1)], [c(3, 2), c(4, 3)]);
    let flush = seven([c(14, 1), c(11, 1), c(9, 1), c(6, 1), c(2, 1)], [c(3, 0), c(4, 2)]);
    let straight = seven([c(10, 0), c(9, 1), c(8, 2), c(7, 0), c(6, 1)], [c(2, 2), c(14, 3)]);
    let trips = seven([c(8, 0), c(8, 1), c(8, 2), c(14, 0), c(11, 1)], [c(2, 2), c(4, 3)]);
    let two_pair = seven([c(12, 0), c(12, 1), c(5, 2), c(5, 0), c(9, 1)], [c(2, 2), c(3, 3)]);
    let pair = seven([c(11, 0), c(11, 1), c(14, 2), c(9, 0), c(4, 1)], [c(2, 2), c(6, 3)]);
    let high = seven([c(14, 0), c(12, 1), c(9, 2), c(6, 0), c(3, 1)], [c(2, 2), c(4, 3)]);

    let ordered = [&straight_flush, &quads, &full_house, &flush, &straight, &trips, &two_pair, &pair, &high];
    for w in ordered.windows(2) {
        assert!(evaluate_seven(w[0]) > evaluate_seven(w[1]), "category ordering violated");
    }
}

#[test]
fn higher_pair_wins() {
    let aces = seven([c(14, 0), c(14, 1), c(9, 2), c(6, 0), c(3, 1)], [c(2, 2), c(4, 3)]);
    let kings = seven([c(13, 0), c(13, 1), c(9, 2), c(6, 0), c(3, 1)], [c(2, 2), c(4, 3)]);
    assert!(evaluate_seven(&aces) > evaluate_seven(&kings));
}

#[test]
fn same_pair_kicker_decides() {
    let ace_kicker = seven([c(11, 0), c(11, 1), c(14, 2), c(9, 0), c(4, 1)], [c(2, 2), c(6, 3)]);
    let king_kicker = seven([c(11, 2), c(11, 3), c(13, 0), c(9, 1), c(4, 2)], [c(2, 0), c(6, 1)]);
    assert!(evaluate_seven(&ace_kicker) > evaluate_seven(&king_kicker));
}

#[test]
fn two_pair_higher_top_pair_wins() {
    let aces_up = seven([c(14, 0), c(14, 1), c(2, 2), c(2, 0), c(9, 1)], [c(3, 2), c(4, 3)]);
    let kings_up = seven([c(13, 0), c(13, 1), c(12, 2), c(12, 0), c(9, 1)], [c(3, 2), c(4, 3)]);
    assert!(evaluate_seven(&aces_up) > evaluate_seven(&kings_up));
}

#[test]
fn identical_hands_tie() {
    let a = seven([c(10, 0), c(10, 1), c(14, 2), c(9, 0), c(4, 1)], [c(2, 2), c(6, 3)]);
    let b = seven([c(10, 2), c(10, 3), c(14, 0), c(9, 1), c(4, 2)], [c(2, 0), c(6, 1)]);
    assert_eq!(evaluate_seven(&a), evaluate_seven(&b));
}

#[test]
fn straight_higher_top_card_wins() {
    let broadway = seven([c(14, 0), c(13, 1), c(12, 2), c(11, 0), c(10, 1)], [c(2, 2), c(3, 3)]);
    let wheel = seven([c(14, 1), c(2, 0), c(3, 1), c(4, 2), c(5, 0)], [c(9, 2), c(11, 3)]);
    assert!(evaluate_seven(&broadway) > evaluate_seven(&wheel));
}

#[test]
fn picks_best_five_of_seven() {
    let hand = vec![c(14, 0), c(14, 1), c(13, 2), c(13, 0), c(2, 1), c(7, 2), c(9, 3)];
    assert_eq!(evaluate_seven(&hand), vec![2, 14, 13, 9]);
}

#[test]
fn three_of_a_kind_on_board_plus_pair_is_full_house() {
    let hand = vec![c(8, 0), c(8, 1), c(8, 2), c(5, 0), c(5, 1), c(11, 2), c(3, 3)];
    assert_eq!(evaluate_seven(&hand), vec![6, 8, 5]);
}

#[test]
fn four_flush_cards_do_not_make_a_flush() {
    let hand = vec![c(14, 1), c(11, 1), c(9, 1), c(6, 1), c(2, 0), c(3, 2), c(4, 3)];
    assert_eq!(evaluate_seven(&hand)[0], 0);
}

#[test]
fn rank_to_string_covers_all_categories() {
    let cases = [
        (8, "Straight Flush"),
        (7, "Four of a Kind"),
        (6, "Full House"),
        (5, "Flush"),
        (4, "Straight"),
        (3, "Three of a Kind"),
        (2, "Two Pair"),
        (1, "Pair"),
        (0, "High Card"),
    ];
    for (cat, name) in cases {
        assert_eq!(rank_to_string(&[cat]), name);
    }
    assert_eq!(rank_to_string(&[]), "Unknown");
}

#[test]
fn card_to_emoji_formats_ranks_and_suits() {
    assert_eq!(card_to_emoji(c(14, 0)), "A♦");
    assert_eq!(card_to_emoji(c(13, 1)), "K♥");
    assert_eq!(card_to_emoji(c(10, 2)), "10♣");
    assert_eq!(card_to_emoji(c(2, 3)), "2♠");
}

#[test]
fn card_tuple_to_eval_maps_ace_high() {
    assert_eq!(card_tuple_to_eval((Card::ONE, Suite::SPADES)), c(14, 3));
    assert_eq!(card_tuple_to_eval((Card::KING, Suite::HEARTS)), c(13, 1));
    assert_eq!(card_tuple_to_eval((Card::TWO, Suite::DIAMONDS)), c(2, 0));
}

#[test]
fn fewer_than_five_cards_value_zero() {
    assert_eq!(evaluate_seven(&[c(14, 0), c(14, 1)]), vec![0]);
    assert_eq!(evaluate_seven(&[]), vec![0]);
}

#[test]
fn five_card_hand_is_its_own_best() {
    let hand = vec![c(14, 2), c(13, 2), c(12, 2), c(11, 2), c(10, 2)];
    assert_eq!(evaluate_seven(&hand), vec![8, 14]);
}

#[test]
fn check_straight_finds_the_highest_straight_in_any_sorted_ranks() {
    assert_eq!(check_straight(&vec![14, 13, 12, 11, 10, 9, 8]), Some(14));
    assert_eq!(check_straight(&vec![9, 8, 7, 6, 5, 4, 3, 2]), Some(9));
    assert_eq!(check_straight(&vec![14, 5, 4, 3, 2]), Some(5));
    assert_eq!(check_straight(&vec![14, 14, 5, 5, 4, 3, 2]), Some(5));
    assert_eq!(check_straight(&vec![14, 6, 5, 4, 3, 2]), Some(6));
    assert_eq!(check_straight(&vec![10, 9, 9, 8, 7, 6]), Some(10));
    assert_eq!(check_straight(&vec![13, 12, 11, 10, 8]), None);
    assert_eq!(check_straight(&vec![7, 7, 7, 7, 7]), None);
    assert_eq!(check_straight(&vec![]), None);
}

#[test]
fn value_ignores_card_order_and_suit_names() {
    let hands: Vec<Vec<(Rank, Suit)>> = vec![
        vec![(14, 0), (13, 0), (12, 0), (11, 0), (10, 0), (2, 1), (3, 2)],
        vec![(9, 1), (9, 2), (4, 3), (4, 0), (4, 1), (13, 2), (2, 3)],
        vec![(5, 0), (4, 1), (3, 2), (2, 3), (14, 0), (8, 0), (8, 1)],
        vec![(7, 3), (11, 3), (2, 3), (13, 3), (6, 1), (6, 2), (10, 3)],
    ];
    let rename = |s: Suit| (s + 1) % 4;
    for hand in hands {
        let cards: Vec<EvalCard> = hand.iter().map(|&(r, s)| EvalCard::new(r, s)).collect();
        let moved: Vec<EvalCard> = hand.iter().rev().map(|&(r, s)| EvalCard::new(r, rename(s))).collect();
        assert_eq!(evaluate_seven(&cards), evaluate_seven(&moved));
    }
}
