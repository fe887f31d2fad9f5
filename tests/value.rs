use sudoku::{NumberError, Value, ValueError};

#[test]
fn lenient_integer_conversion() {
    assert_eq!(Value::from_usize(0), Value::Empty);
    assert_eq!(Value::from_usize(1), Value::One);
    assert_eq!(Value::from_usize(9), Value::Nine);
    assert_eq!(Value::from_usize(10), Value::Empty);
    assert_eq!(Value::from_usize(usize::MAX), Value::Empty);
}

#[test]
fn integer_codes() {
    assert_eq!(Value::Empty.to_usize(), 0);
    assert_eq!(Value::Five.to_usize(), 5);
    assert_eq!(Value::Nine.to_usize(), 9);
    for n in 0..10usize {
        assert_eq!(Value::from_usize(n).to_usize(), n);
    }
}

#[test]
fn display_characters() {
    assert_eq!(Value::Empty.to_char(), ' ');
    assert_eq!(Value::Three.to_char(), '3');
    assert_eq!(Value::Nine.to_char(), '9');
}

#[test]
fn is_empty_only_for_empty() {
    assert!(Value::Empty.is_empty());
    assert!(!Value::One.is_empty());
    assert_eq!(Value::default(), Value::Empty);
}

#[test]
fn strict_parse_accepts_codes() {
    assert_eq!(Value::parse("0"), Ok(Value::Empty));
    assert_eq!(Value::parse("7"), Ok(Value::Seven));
    assert_eq!(Value::parse("+4"), Ok(Value::Four));
    assert_eq!(Value::parse("007"), Ok(Value::Seven));
}

#[test]
fn strict_parse_rejects_large_values() {
    let e = Value::parse("10").unwrap_err();
    assert_eq!(e, ValueError::TooLarge(10));
    assert_eq!(e.message(), "value too large: 10");
    assert_eq!(Value::parse("12345").unwrap_err().message(), "value too large: 12345");
}

#[test]
fn strict_parse_rejects_non_numbers() {
    let e = Value::parse("x").unwrap_err();
    assert_eq!(e, ValueError::Number(NumberError::InvalidDigit));
    assert_eq!(e.message(), "x".parse::<usize>().unwrap_err().to_string());
    let e = Value::parse("").unwrap_err();
    assert_eq!(e, ValueError::Number(NumberError::Empty));
    assert_eq!(e.message(), "".parse::<usize>().unwrap_err().to_string());
    assert_eq!(Value::parse("-1"), Err(ValueError::Number(NumberError::InvalidDigit)));
    assert_eq!(Value::parse("+"), Err(ValueError::Number(NumberError::InvalidDigit)));
    assert_eq!(Value::parse("1 "), Err(ValueError::Number(NumberError::InvalidDigit)));
}

#[test]
fn strict_parse_rejects_overflow() {
    let text = "99999999999999999999999999";
    let e = Value::parse(text).unwrap_err();
    assert_eq!(e, ValueError::Number(NumberError::Overflow));
    assert_eq!(e.message(), text.parse::<usize>().unwrap_err().to_string());
}

#[test]
fn std_conversions_match_the_methods() {
    assert_eq!(Value::from(6usize), Value::Six);
    assert_eq!(Value::from(42usize), Value::Empty);
    assert_eq!(usize::from(&Value::Eight), 8);
    assert_eq!(usize::from(&Value::Empty), 0);
    assert_eq!(char::from(&Value::Two), '2');
    assert_eq!(char::from(&Value::Empty), ' ');
}
