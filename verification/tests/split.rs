use rust_chibicc::split_digit;

#[test]
fn digits_in_front_are_split_off() {
    assert_eq!(split_digit("123abc"), ("123", "abc"));
    assert_eq!(split_digit("5+20-4"), ("5", "+20-4"));
    assert_eq!(split_digit("42 17"), ("42", " 17"));
}

#[test]
fn all_or_nothing() {
    assert_eq!(split_digit("2024"), ("2024", ""));
    assert_eq!(split_digit("abc"), ("", "abc"));
    assert_eq!(split_digit(" 1"), ("", " 1"));
    assert_eq!(split_digit(""), ("", ""));
}

#[test]
fn numeric_characters_beyond_ascii_count() {
    assert_eq!(split_digit("\u{663}\u{664}x"), ("\u{663}\u{664}", "x"));
    assert_eq!(split_digit("1\u{bd}\u{e9}2"), ("1\u{bd}", "\u{e9}2"));
    assert_eq!(split_digit("\u{e9}1"), ("", "\u{e9}1"));
}

#[test]
fn the_two_parts_make_up_the_text() {
    for text in ["", "7", "x", "12ab34", "\u{2167}\u{3000}9"] {
        let (digits, rest) = split_digit(text);
        assert_eq!(format!("{}{}", digits, rest), text);
        assert!(digits.chars().all(|c| c.is_numeric()));
        assert!(rest.chars().next().map_or(true, |c| !c.is_numeric()));
    }
}
