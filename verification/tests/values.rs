use poker_hands::values::Value;

#[test]
fn test_chars() {
    let tests = vec![
        ('2', Value::Two),
        ('3', Value::Three),
        ('4', Value::Four),
        ('5', Value::Five),
        ('6', Value::Six),
        ('7', Value::Seven),
        ('8', Value::Eight),
        ('9', Value::Nine),
        // ('10', Value::Ten) has no single-character form
        ('J', Value::Jack),
        ('Q', Value::Queen),
        ('K', Value::King),
        ('A', Value::Ace),
    ];

    for (ch, expectation) in tests {
        let value = Value::from_char(ch);
        assert_eq!(expectation, value.unwrap());
    }
}

#[test]
fn test_invalid() {
    assert_eq!(Value::from_char('B'), None);
}

#[test]
fn test_strings() {
    let tests = vec![
        ("2", Value::Two),
        ("3", Value::Three),
        ("4", Value::Four),
        ("5", Value::Five),
        ("6", Value::Six),
        ("7", Value::Seven),
        ("8", Value::Eight),
        ("9", Value::Nine),
        ("10", Value::Ten),
        ("J", Value::Jack),
        ("Q", Value::Queen),
        ("K", Value::King),
        ("A", Value::Ace),
        ("200", Value::Two),
    ];

    for (test, expectation) in tests {
        let value = Value::from_string(test);
        let result = match value {
            Some(x) => x,
            None => panic!("Unable to convert {} to {:?}", test, expectation),
        };
        assert_eq!(expectation, result);
    }
}

#[test]
fn lower_case_rank_letters_parse() {
    assert_eq!(Value::Jack, Value::from_char('j').unwrap());
    assert_eq!(Value::Queen, Value::from_char('q').unwrap());
    assert_eq!(Value::King, Value::from_char('k').unwrap());
    assert_eq!(Value::Ace, Value::from_char('a').unwrap());
}

#[test]
fn from_string_rejects_empty_and_unknown() {
    assert_eq!(None, Value::from_string(""));
    assert_eq!(None, Value::from_string("100"));
    assert_eq!(None, Value::from_string("B"));
}
