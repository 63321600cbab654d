use poker_hands::cards::{collect_cards, from_ten_string, from_two_char_card, Card};
use poker_hands::suites::Suite;
use poker_hands::values::Value;

#[test]
fn collect_ten_string() {
    let ten_of_hearts = Card { suite: Suite::Hearts, value: Value::Ten };
    assert_eq!(ten_of_hearts, from_ten_string("10H").unwrap());
    assert_eq!(ten_of_hearts, from_ten_string("H10").unwrap());
}

#[test]
fn collect_two_card_string() {
    let ace_of_spades = Card { suite: Suite::Spades, value: Value::Ace };

    assert_eq!(ace_of_spades, from_two_char_card("AS").unwrap());
    assert_eq!(ace_of_spades, from_two_char_card("aS").unwrap());
    assert_eq!(ace_of_spades, from_two_char_card("as").unwrap());
    assert_eq!(ace_of_spades, from_two_char_card("SA").unwrap());
    assert_eq!(ace_of_spades, from_two_char_card("Sa").unwrap());
    assert_eq!(ace_of_spades, from_two_char_card("sa").unwrap());
}

#[test]
fn collect_card() {
    let test = "AC";
    let cards = collect_cards(test);
    assert_eq!(1, cards.len());
}

#[test]
fn test_collect_cards() {
    let test = "AC;2D 3H,*$5X1S+4S";
    let cards = collect_cards(test);
    assert_eq!(4, cards.len());
}

#[test]
fn collect_cards_exact_cards() {
    let cards = collect_cards("AC;2D 3H,*$5X1S+4S");
    assert_eq!(
        vec![
            Card::new(Suite::Clubs, Value::Ace),
            Card::new(Suite::Diamonds, Value::Two),
            Card::new(Suite::Hearts, Value::Three),
            Card::new(Suite::Spades, Value::Four),
        ],
        cards
    );
}

#[test]
fn collect_cards_empty_and_noise() {
    assert_eq!(0, collect_cards("").len());
    assert_eq!(0, collect_cards(",;  *$+").len());
    assert_eq!(0, collect_cards("XX YY 123").len());
}

#[test]
fn collect_cards_keeps_duplicates() {
    let cards = collect_cards("AS AS");
    assert_eq!(2, cards.len());
    assert_eq!(cards[0], cards[1]);
    assert_eq!(Card::new(Suite::Spades, Value::Ace), cards[0]);
}

#[test]
fn three_char_form_is_ten_only() {
    assert_eq!(None, from_ten_string("2XH"));
    assert_eq!(None, from_ten_string("JJH"));
    assert_eq!(0, collect_cards("JJH").len());
}

#[test]
fn two_char_form_needs_rank_and_suit() {
    assert_eq!(None, from_two_char_card("23"));
    assert_eq!(None, from_two_char_card("CD"));
    assert_eq!(None, from_two_char_card("AA"));
    assert_eq!(None, from_two_char_card("A"));
    assert_eq!(None, from_two_char_card("10H"));
}

#[test]
fn round_trip_all_cards() {
    let suites = [
        (Suite::Clubs, 'C'),
        (Suite::Diamonds, 'D'),
        (Suite::Hearts, 'H'),
        (Suite::Spades, 'S'),
    ];
    let values = [
        (Value::Two, "2"),
        (Value::Three, "3"),
        (Value::Four, "4"),
        (Value::Five, "5"),
        (Value::Six, "6"),
        (Value::Seven, "7"),
        (Value::Eight, "8"),
        (Value::Nine, "9"),
        (Value::Ten, "10"),
        (Value::Jack, "J"),
        (Value::Queen, "Q"),
        (Value::King, "K"),
        (Value::Ace, "A"),
    ];
    for (suite, suite_ch) in suites {
        for (value, value_str) in values {
            let mut token = String::from(value_str);
            token.push(suite_ch);
            let cards = collect_cards(&token);
            assert_eq!(1, cards.len());
            assert_eq!(Card::new(suite, value), cards[0]);
        }
    }
}

#[test]
fn card_ordering_by_value_only() {
    let two_of_clubs = Card::new(Suite::Clubs, Value::Two);
    let two_of_spades = Card::new(Suite::Spades, Value::Two);
    let three_of_hearts = Card::new(Suite::Hearts, Value::Three);
    assert!(two_of_clubs < three_of_hearts);
    assert!(three_of_hearts > two_of_spades);
    assert_eq!(
        Some(std::cmp::Ordering::Equal),
        two_of_clubs.partial_cmp(&two_of_spades)
    );
    assert!(two_of_clubs != two_of_spades);
}
