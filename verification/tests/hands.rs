use poker_hands::cards::Card;
use poker_hands::hands::{card_counts, determine_high_hand, highest_card_in_dominant_group, Hand};
use poker_hands::suites::Suite;
use poker_hands::values::Value;

#[test]
fn test_card_counts() {
    let cards = [
        Card::new(Suite::Clubs, Value::Three),
        Card::new(Suite::Diamonds, Value::Three),
        Card::new(Suite::Clubs, Value::Two),
        Card::new(Suite::Clubs, Value::Three),
        Card::new(Suite::Clubs, Value::Two),
        Card::new(Suite::Clubs, Value::Ace),
    ];

    let counts = card_counts(&cards);

    assert_eq!(3, counts.count(Value::Three));
    assert_eq!(2, counts.count(Value::Two));
    assert_eq!(1, counts.count(Value::Ace));
}

#[test]
fn test_high_card() {
    let cards = [
        Card::new(Suite::Clubs, Value::Ace),
        Card::new(Suite::Clubs, Value::Two),
        Card::new(Suite::Clubs, Value::Three),
        Card::new(Suite::Clubs, Value::Four),
        Card::new(Suite::Diamonds, Value::Six),
    ];

    assert_eq!(Hand::HighCard, determine_high_hand(&cards));
}

#[test]
fn test_pair() {
    let cards = [
        Card::new(Suite::Clubs, Value::Ace),
        Card::new(Suite::Clubs, Value::Ace),
        Card::new(Suite::Clubs, Value::Three),
        Card::new(Suite::Clubs, Value::Four),
        Card::new(Suite::Clubs, Value::Five),
    ];

    assert_eq!(Hand::OnePair, determine_high_hand(&cards));
}

#[test]
fn test_two_pair() {
    let cards = [
        Card::new(Suite::Clubs, Value::Ace),
        Card::new(Suite::Diamonds, Value::Ace),
        Card::new(Suite::Clubs, Value::Three),
        Card::new(Suite::Clubs, Value::Three),
        Card::new(Suite::Clubs, Value::Five),
    ];

    assert_eq!(Hand::TwoPair, determine_high_hand(&cards));
}

#[test]
fn test_three_of_a_kind() {
    let cards = [
        Card::new(Suite::Clubs, Value::Ace),
        Card::new(Suite::Diamonds, Value::Ace),
        Card::new(Suite::Hearts, Value::Ace),
        Card::new(Suite::Clubs, Value::Four),
        Card::new(Suite::Clubs, Value::Five),
    ];

    assert_eq!(Hand::ThreeOfAKind, determine_high_hand(&cards));
}

#[test]
fn test_four_of_a_kind() {
    let cards = [
        Card::new(Suite::Clubs, Value::Ace),
        Card::new(Suite::Diamonds, Value::Ace),
        Card::new(Suite::Hearts, Value::Ace),
        Card::new(Suite::Spades, Value::Ace),
        Card::new(Suite::Clubs, Value::Five),
    ];

    assert_eq!(Hand::FourOfAKind, determine_high_hand(&cards));
}

#[test]
fn test_five_of_a_kind() {
    let cards = [
        Card::new(Suite::Clubs, Value::Ace),
        Card::new(Suite::Diamonds, Value::Ace),
        Card::new(Suite::Hearts, Value::Ace),
        Card::new(Suite::Spades, Value::Ace),
        Card::new(Suite::Clubs, Value::Ace), // No wildcards implemented yet
    ];

    assert_eq!(Hand::FiveOfAKind, determine_high_hand(&cards));
}

#[test]
fn test_straight_ace_low() {
    let cards = [
        Card::new(Suite::Clubs, Value::Two),
        Card::new(Suite::Clubs, Value::Ace),
        Card::new(Suite::Clubs, Value::Three),
        Card::new(Suite::Clubs, Value::Five),
        Card::new(Suite::Clubs, Value::Four),
    ];

    assert_eq!(Hand::Straight, determine_high_hand(&cards));
}

#[test]
fn test_straight_ace_high() {
    let cards = [
        Card::new(Suite::Clubs, Value::King),
        Card::new(Suite::Clubs, Value::Ace),
        Card::new(Suite::Clubs, Value::Queen),
        Card::new(Suite::Clubs, Value::Ten),
        Card::new(Suite::Clubs, Value::Jack),
    ];

    assert_eq!(Hand::Straight, determine_high_hand(&cards));
}

#[test]
fn test_straight() {
    let cards = [
        Card::new(Suite::Clubs, Value::Two),
        Card::new(Suite::Clubs, Value::Six),
        Card::new(Suite::Clubs, Value::Three),
        Card::new(Suite::Clubs, Value::Five),
        Card::new(Suite::Clubs, Value::Four),
    ];

    assert_eq!(Hand::Straight, determine_high_hand(&cards));
}

#[test]
fn near_straight_with_gap_is_high_card() {
    let cards = [
        Card::new(Suite::Clubs, Value::Two),
        Card::new(Suite::Clubs, Value::Three),
        Card::new(Suite::Clubs, Value::Four),
        Card::new(Suite::Clubs, Value::Five),
        Card::new(Suite::Clubs, Value::Seven),
    ];

    assert_eq!(Hand::HighCard, determine_high_hand(&cards));
}

#[test]
fn highest_card_of_dominant_group() {
    let cards = [
        Card::new(Suite::Clubs, Value::Three),
        Card::new(Suite::Diamonds, Value::Three),
        Card::new(Suite::Clubs, Value::Two),
        Card::new(Suite::Hearts, Value::Three),
        Card::new(Suite::Clubs, Value::Two),
        Card::new(Suite::Clubs, Value::Ace),
    ];

    let best = highest_card_in_dominant_group(&cards);
    assert!(cards.contains(&best));
    assert_eq!(Card::new(Suite::Clubs, Value::Three), best);
}

#[test]
fn highest_card_breaks_count_ties_by_rank() {
    let cards = [
        Card::new(Suite::Clubs, Value::Two),
        Card::new(Suite::Diamonds, Value::Ace),
        Card::new(Suite::Clubs, Value::King),
    ];

    let best = highest_card_in_dominant_group(&cards);
    assert_eq!(Card::new(Suite::Diamonds, Value::Ace), best);
}

#[test]
fn highest_card_prefers_first_of_equal_cards() {
    let cards = [
        Card::new(Suite::Hearts, Value::Two),
        Card::new(Suite::Spades, Value::Two),
        Card::new(Suite::Clubs, Value::Ace),
    ];

    let best = highest_card_in_dominant_group(&cards);
    assert_eq!(Card::new(Suite::Hearts, Value::Two), best);
}

#[test]
fn hand_categories_are_ordered() {
    assert!(Hand::HighCard < Hand::OnePair);
    assert!(Hand::OnePair < Hand::TwoPair);
    assert!(Hand::TwoPair < Hand::ThreeOfAKind);
    assert!(Hand::ThreeOfAKind < Hand::Straight);
    assert!(Hand::Straight < Hand::Flush);
    assert!(Hand::Flush < Hand::FullHouse);
    assert!(Hand::FullHouse < Hand::FourOfAKind);
    assert!(Hand::FourOfAKind < Hand::StraightFlush);
    assert!(Hand::StraightFlush < Hand::FiveOfAKind);
}

#[test]
fn card_counts_of_empty_input_are_zero() {
    let cards: [Card; 0] = [];
    let counts = card_counts(&cards);
    assert_eq!(0, counts.count(Value::Two));
    assert_eq!(0, counts.count(Value::Ace));
}
