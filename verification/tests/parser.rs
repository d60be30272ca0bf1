use rax_nmea::filters::{ascii_letters, ascii_letters_digits, digits, CharSetFilter};
use rax_nmea::str_parser::{ByteCount, StrFlowRule};

#[test]
fn test_digits_contains() {
    for c in '0'..='9' {
        assert!(digits().contains(c), "DIGITS should contain '{}'", c);
    }
    assert!(!digits().contains('a'));
    assert!(!digits().contains(' '));
}

#[test]
fn test_ascii_letters_contains() {
    for c in 'A'..='Z' {
        assert!(ascii_letters().contains(c), "ASCII_LETTERS should contain '{}'", c);
    }
    for c in 'a'..='z' {
        assert!(ascii_letters().contains(c), "ASCII_LETTERS should contain '{}'", c);
    }
    assert!(!ascii_letters().contains('0'));
    assert!(!ascii_letters().contains(' '));
}

#[test]
fn test_ascii_letters_digits_contains() {
    for c in 'A'..='Z' {
        assert!(ascii_letters_digits().contains(c));
    }
    for c in 'a'..='z' {
        assert!(ascii_letters_digits().contains(c));
    }
    for c in '0'..='9' {
        assert!(ascii_letters_digits().contains(c));
    }
    assert!(!ascii_letters_digits().contains(' '));
    assert!(!ascii_letters_digits().contains('-'));
}

#[test]
fn test_from_str_digits() {
    let digits: CharSetFilter<10> = "0123456789".parse().unwrap();
    for c in '0'..='9' {
        assert!(digits.contains(c));
    }
}

#[test]
fn test_from_str_too_short() {
    let result: Result<CharSetFilter<10>, _> = "01234567".parse();
    assert!(result.is_err());
}

#[test]
fn test_from_str_too_long() {
    let result: Result<CharSetFilter<10>, _> = "01234567890".parse();
    assert!(result.is_err());
}

#[test]
fn test_count_exact_length() {
    let rule = ByteCount(4);
    let input = "test";
    let result = rule.apply(input);
    assert_eq!(result, (Some("test"), ""));
}

#[test]
fn test_count_less_than_length() {
    let rule = ByteCount(2);
    let input = "hello";
    let result = rule.apply(input);
    assert_eq!(result, (Some("he"), "llo"));
}

#[test]
fn test_count_more_than_length() {
    let rule = ByteCount(10);
    let input = "short";
    let result = rule.apply(input);
    assert_eq!(result, (None, "short"));
}

#[test]
fn test_count_zero() {
    let rule = ByteCount(0);
    let input = "abc";
    let result = rule.apply(input);
    assert_eq!(result, (Some(""), "abc"));
}

#[test]
fn test_count_empty_input() {
    let rule = ByteCount(0);
    let input = "";
    let result = rule.apply(input);
    assert_eq!(result, (Some(""), ""));
}

#[test]
fn test_count_non_ascii() {
    let rule = ByteCount(2);
    let input = "你好世界";
    // Two bytes end inside the first character, which is three bytes long.
    let result = rule.apply(input);
    assert_eq!(result, (None, "你好世界"));
}
