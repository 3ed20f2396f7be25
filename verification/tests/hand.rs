use poker_server::cards::{rank_of, suit_of, translate_card};
use poker_server::display::{decimal, display_hand};
use poker_server::hand::{get_best_hand, get_hand_type, hand_type_to_string, score_gt};

#[test]
fn test_get_hand_type_high_card() {
    let hand = vec![0, 8, 23, 29, 51]; // Ace Hearts 9 Hearts Jack Diamond 4 Spade King Club
    let result = get_hand_type(&hand);
    assert_eq!(result, (0, 13, 12, 10, 8, 3));
}

#[test]
fn test_get_hand_type_one_pair() {
    let hand = vec![2, 15, 32, 48, 18]; // 3 Hearts, 3 Diamond, 7 Spade, 10 Club, 6 Diamond
    let result = get_hand_type(&hand);
    assert_eq!(result, (1, 2, 9, 6, 5, 0)); // One pair of 3s, followed by high cards in descending order
}

#[test]
fn test_get_hand_type_two_pair() {
    let hand = vec![2, 15, 32, 45, 18]; // 3 Hearts, 3 Diamond, 7 Spade, 7 Club, 6 Diamond
    let result = get_hand_type(&hand);
    assert_eq!(result, (2, 6, 2, 5, 0, 0)); // Two pair of 3s and 7s
}

#[test]
fn test_get_hand_type_three_of_a_kind() {
    let hand = vec![2, 15, 28, 45, 18]; // 3 Hearts, 3 Diamond, 3 Spade, 7 Club, 6 Diamond
    let result = get_hand_type(&hand);
    assert_eq!(result, (3, 2, 6, 5, 0, 0)); // Three of a kind of 3s
}

#[test]
fn test_get_hand_type_straight() {
    let hand = vec![2, 16, 30, 44, 19]; // 3 Hearts, 4 Diamond, 5 Spade, 6 Club, 7 Diamond
    let result = get_hand_type(&hand);
    assert_eq!(result, (4, 6, 0, 0, 0, 0)); // Straight from 3 to 7
}

#[test]
fn test_get_hand_type_flush() {
    let hand = vec![6, 1, 2, 3, 4]; // 7 Hearts, 2 Hearts, 3 Hearts, 4 Hearts, 5 Hearts
    let result = get_hand_type(&hand);
    assert_eq!(result, (5, 6, 4, 3, 2, 1)); // Flush, seven high
}

#[test]
fn test_get_hand_type_full_house() {
    let hand = vec![2, 15, 28, 45, 19]; // 3 Hearts, 3 Diamond, 3 Spade, 7 Club, 7 Diamond
    let result = get_hand_type(&hand);
    assert_eq!(result, (6, 2, 6, 0, 0, 0)); // Full house: the rank of the three, then the rank of the pair
}

#[test]
fn test_get_hand_type_four_of_a_kind() {
    let hand = vec![2, 15, 28, 41, 19]; // 3 Hearts, 3 Diamond, 3 Spade, 3 Club, 7 Diamond
    let result = get_hand_type(&hand);
    assert_eq!(result, (7, 2, 6, 0, 0, 0)); // Four 3s with a 7 as kicker
}

#[test]
fn test_get_hand_type_straight_flush() {
    let hand = vec![2, 3, 4, 5, 6]; // 3 Hearts, 4 Hearts, 5 Hearts, 6 Hearts, 7 Hearts
    let result = get_hand_type(&hand);
    assert_eq!(result, (8, 6, 6, 0, 0, 0)); // Straight flush from 3 to 7
}

#[test]
fn full_house_with_the_pair_below_the_three() {
    // 7 7 7 3 3
    assert_eq!(get_hand_type(&[6, 19, 32, 2, 15]), (6, 6, 2, 0, 0, 0));
}

#[test]
fn four_of_a_kind_with_a_low_kicker() {
    // 7 7 7 7 3
    assert_eq!(get_hand_type(&[6, 19, 32, 45, 2]), (7, 6, 2, 0, 0, 0));
}

#[test]
fn ace_counts_high_and_the_wheel_is_no_straight() {
    // A 2 3 4 5 of mixed suits: high card, ace high
    assert_eq!(get_hand_type(&[0, 14, 28, 42, 4]), (0, 13, 4, 3, 2, 1));
    // 10 J Q K A of mixed suits: straight, ace high
    assert_eq!(get_hand_type(&[9, 23, 37, 51, 0]), (4, 13, 0, 0, 0, 0));
}

#[test]
fn three_of_a_kind_kickers_in_each_position() {
    // 5 5 5 with 2 and 9
    assert_eq!(get_hand_type(&[4, 17, 30, 1, 8]), (3, 4, 8, 1, 0, 0));
    // 9 9 9 with 2 and 5
    assert_eq!(get_hand_type(&[8, 21, 34, 1, 4]), (3, 8, 4, 1, 0, 0));
}

#[test]
fn two_pair_kicker_in_each_position() {
    // 3 3 7 7 with kicker 9, 5 and 2
    assert_eq!(get_hand_type(&[2, 15, 6, 19, 8]), (2, 6, 2, 8, 0, 0));
    assert_eq!(get_hand_type(&[2, 15, 6, 19, 4]), (2, 6, 2, 4, 0, 0));
    assert_eq!(get_hand_type(&[2, 15, 6, 19, 14]), (2, 6, 2, 1, 0, 0));
}

#[test]
fn one_pair_in_each_position() {
    assert_eq!(get_hand_type(&[5, 18, 1, 2, 3 + 13]), (1, 5, 3, 2, 1, 0));
    assert_eq!(get_hand_type(&[1, 14, 5, 8, 10 + 13]), (1, 1, 10, 8, 5, 0));
    assert_eq!(get_hand_type(&[11, 24, 1, 2, 3 + 13]), (1, 11, 3, 2, 1, 0));
}

#[test]
fn score_does_not_depend_on_card_order() {
    let hand = [2, 15, 32, 45, 18];
    let expected = get_hand_type(&hand);
    let orders: [[usize; 5]; 5] =
        [[4, 3, 2, 1, 0], [1, 0, 3, 2, 4], [2, 4, 0, 3, 1], [3, 1, 4, 0, 2], [0, 2, 4, 1, 3]];
    for order in orders.iter() {
        let permuted: Vec<i32> = order.iter().map(|&i| hand[i]).collect();
        assert_eq!(get_hand_type(&permuted), expected);
    }
}

#[test]
fn best_of_seven_picks_the_strongest_five() {
    // 3H 4H 5H 6H 7H plus two kings: the straight flush wins
    assert_eq!(get_best_hand(&[2, 3, 4, 5, 6, 12, 25]), (8, 6, 6, 0, 0, 0));
    // K K K 7 7 3 9: full house, kings over sevens
    assert_eq!(get_best_hand(&[12, 25, 38, 6, 19, 2, 8]), (6, 12, 6, 0, 0, 0));
    // nothing but high cards: A K J 9 7
    assert_eq!(get_best_hand(&[0, 25, 36, 8, 45, 2, 17]), (0, 13, 12, 10, 8, 6));
}

#[test]
fn best_of_seven_does_not_depend_on_card_order() {
    let cards = [12, 25, 38, 6, 19, 2, 8];
    let expected = get_best_hand(&cards);
    let mut rotated = cards.to_vec();
    for _ in 0..7 {
        rotated.rotate_left(1);
        assert_eq!(get_best_hand(&rotated), expected);
    }
    let mut reversed = cards.to_vec();
    reversed.reverse();
    assert_eq!(get_best_hand(&reversed), expected);
}

#[test]
fn scores_compare_lexicographically() {
    assert!(score_gt((1, 2, 9, 6, 5, 0), (0, 13, 12, 10, 8, 3)));
    assert!(score_gt((5, 6, 4, 3, 2, 1), (5, 6, 4, 3, 1, 0)));
    assert!(!score_gt((5, 6, 4, 3, 2, 1), (5, 6, 4, 3, 2, 1)));
    assert!(!score_gt((2, 6, 2, 5, 0, 0), (2, 6, 3, 1, 0, 0)));
    assert!(score_gt((2, 6, 2, 5, 0, 1), (2, 6, 2, 5, 0, 0)));
}

#[test]
fn card_rank_and_suit_round_trip() {
    for card in 0..52 {
        let rank = rank_of(card);
        let suit = suit_of(card);
        assert!((0..13).contains(&rank));
        assert!((0..4).contains(&suit));
        assert_eq!(suit * 13 + rank, card);
    }
    for suit in 0..4 {
        for rank in 0..13 {
            assert_eq!(rank_of(suit * 13 + rank), rank);
            assert_eq!(suit_of(suit * 13 + rank), suit);
        }
    }
}

#[test]
fn cards_are_named_by_rank_and_suit() {
    assert_eq!(translate_card(0), "Ace Hearts");
    assert_eq!(translate_card(9), "10 Hearts");
    assert_eq!(translate_card(14), "2 Diamond");
    assert_eq!(translate_card(36), "Jack Spade");
    assert_eq!(translate_card(50), "Queen Club");
    assert_eq!(translate_card(51), "King Club");
    assert_eq!(translate_card(53), "X");
    assert_eq!(translate_card(104), "X");
}

#[test]
fn hand_categories_have_names() {
    let names = [
        "High Card",
        "One Pair",
        "Two Pair",
        "Three of a Kind",
        "Straight",
        "Flush",
        "Full House",
        "Four of a Kind",
        "Straight Flush",
    ];
    for (category, name) in names.iter().enumerate() {
        assert_eq!(hand_type_to_string(category as i32), *name);
    }
    assert_eq!(hand_type_to_string(9), "Unknown Hand");
    assert_eq!(hand_type_to_string(-1), "Unknown Hand");
}

#[test]
fn numbers_are_written_in_decimal() {
    assert_eq!(decimal(0), "0");
    assert_eq!(decimal(7), "7");
    assert_eq!(decimal(10), "10");
    assert_eq!(decimal(52), "52");
    assert_eq!(decimal(1234567890), "1234567890");
}

#[test]
fn hands_are_shown_card_by_card() {
    let hands = vec![vec![0, 22, 53 + 4], vec![], vec![51]];
    let messages = display_hand(&hands);
    assert_eq!(messages.len(), 3);
    assert_eq!(messages[0], "Your hand:\n1. Ace Hearts\n2. 10 Diamond\n3. X\n");
    assert_eq!(messages[1], "Your hand:\n");
    assert_eq!(messages[2], "Your hand:\n1. King Club\n");
    let long: Vec<i32> = (0..11).collect();
    let shown = display_hand(&vec![long]);
    assert!(shown[0].ends_with("10. 10 Hearts\n11. Jack Hearts\n"));
}
