use rust_chibicc::lexer::{digit_of, is_whitespace, LexError, Lexer, Token};

fn lexer_over(text: &str) -> Lexer {
    Lexer::new(text.chars().collect())
}

fn all_tokens(text: &str) -> (Vec<Token>, Option<LexError>) {
    let mut lexer = lexer_over(text);
    let mut tokens = vec![];
    loop {
        match lexer.token() {
            Ok(Some(token)) => tokens.push(token),
            Ok(None) => return (tokens, None),
            Err(e) => return (tokens, Some(e)),
        }
    }
}

#[test]
fn test_lexer() {
    let mut lexer = Lexer::new("1 + 2".chars().collect());
    assert_eq!(lexer.token(), Ok(Some(Token::Number(1_u64))));
    assert_eq!(lexer.token(), Ok(Some(Token::Plus)));
    assert_eq!(lexer.token(), Ok(Some(Token::Number(2_u64))));
    assert_eq!(lexer.token(), Ok(None));
}

#[test]
fn every_symbol_is_one_token() {
    let (tokens, failure) = all_tokens("+-*/()");
    assert_eq!(
        tokens,
        vec![
            Token::Plus,
            Token::Minus,
            Token::Times,
            Token::Divides,
            Token::LParen,
            Token::RParen
        ]
    );
    assert_eq!(failure, None);
}

#[test]
fn digits_make_a_single_number() {
    assert_eq!(all_tokens("123"), (vec![Token::Number(123)], None));
    assert_eq!(all_tokens("   4711"), (vec![Token::Number(4711)], None));
    assert_eq!(all_tokens("4711 \t\n"), (vec![Token::Number(4711)], None));
    assert_eq!(all_tokens(" \u{a0}\u{3000} 90 \r\n"), (vec![Token::Number(90)], None));
    assert_eq!(all_tokens("0"), (vec![Token::Number(0)], None));
}

#[test]
fn leading_zeros_do_not_count() {
    assert_eq!(all_tokens("007"), (vec![Token::Number(7)], None));
    assert_eq!(
        all_tokens("0000000000000000000000000000000000000001"),
        (vec![Token::Number(1)], None)
    );
}

#[test]
fn numbers_are_split_by_whitespace_only() {
    assert_eq!(all_tokens("12 34"), (vec![Token::Number(12), Token::Number(34)], None));
    assert_eq!(
        all_tokens("12+34"),
        (vec![Token::Number(12), Token::Plus, Token::Number(34)], None)
    );
}

#[test]
fn largest_number_is_read() {
    assert_eq!(all_tokens("18446744073709551615"), (vec![Token::Number(u64::MAX)], None));
}

#[test]
fn number_above_the_largest_is_an_error() {
    assert_eq!(
        all_tokens("18446744073709551616"),
        (vec![], Some(LexError::NumberTooLarge { position: 0 }))
    );
    assert_eq!(
        all_tokens("1 + 99999999999999999999 + 2"),
        (vec![Token::Number(1), Token::Plus], Some(LexError::NumberTooLarge { position: 4 }))
    );
    assert_eq!(
        all_tokens("184467440737095516150"),
        (vec![], Some(LexError::NumberTooLarge { position: 0 }))
    );
}

#[test]
fn unsupported_character_is_an_error_with_its_offset() {
    assert_eq!(
        all_tokens("1 & 2"),
        (vec![Token::Number(1)], Some(LexError::UnexpectedChar { ch: '&', position: 2 }))
    );
    assert_eq!(all_tokens("x"), (vec![], Some(LexError::UnexpectedChar { ch: 'x', position: 0 })));
    assert_eq!(
        all_tokens("1.5"),
        (vec![Token::Number(1)], Some(LexError::UnexpectedChar { ch: '.', position: 1 }))
    );
    assert_eq!(
        all_tokens("  \u{e9}"),
        (vec![], Some(LexError::UnexpectedChar { ch: '\u{e9}', position: 2 }))
    );
}

#[test]
fn an_error_is_reported_again_on_every_call() {
    let mut lexer = lexer_over("7 ?");
    assert_eq!(lexer.token(), Ok(Some(Token::Number(7))));
    let error = Err(LexError::UnexpectedChar { ch: '?', position: 2 });
    assert_eq!(lexer.token(), error);
    assert_eq!(lexer.token(), error);
    assert_eq!(lexer.position(), 2);

    let mut lexer = lexer_over(" 99999999999999999999");
    let error = Err(LexError::NumberTooLarge { position: 1 });
    assert_eq!(lexer.token(), error);
    assert_eq!(lexer.token(), error);
    assert_eq!(lexer.position(), 1);
}

#[test]
fn the_end_is_reported_again_on_every_call() {
    let mut lexer = lexer_over("5  ");
    assert_eq!(lexer.token(), Ok(Some(Token::Number(5))));
    assert_eq!(lexer.position(), 1);
    assert_eq!(lexer.token(), Ok(None));
    assert_eq!(lexer.position(), 3);
    assert_eq!(lexer.token(), Ok(None));
    assert_eq!(lexer.position(), 3);
}

#[test]
fn empty_and_blank_texts_have_no_token() {
    assert_eq!(all_tokens(""), (vec![], None));
    assert_eq!(all_tokens(" \t "), (vec![], None));
}

#[test]
fn a_fresh_lexer_starts_again() {
    let text = "(12 + 3) * 4";
    assert_eq!(all_tokens(text), all_tokens(text));
    assert_eq!(lexer_over(text).position(), 0);
}

#[test]
fn cursor_steps() {
    let mut lexer = lexer_over("ab");
    assert_eq!(lexer.curr(), Some(&'a'));
    assert_eq!(lexer.peek(), Some(&'b'));
    lexer.next();
    assert_eq!(lexer.position(), 1);
    assert_eq!(lexer.curr(), Some(&'b'));
    assert_eq!(lexer.peek(), None);
    lexer.next();
    assert_eq!(lexer.position(), 2);
    assert_eq!(lexer.curr(), None);
    assert_eq!(lexer.peek(), None);
    lexer.next();
    assert_eq!(lexer.position(), 2);
}

#[test]
fn number_characters_are_the_ten_digits() {
    for c in '0'..='9' {
        assert!(Lexer::is_number(&c));
    }
    for c in ['.', '/', ':', 'a', ' ', '\u{663}', '\u{ff11}'] {
        assert!(!Lexer::is_number(&c));
    }
}

#[test]
fn digit_values() {
    assert_eq!(digit_of('0'), 0);
    assert_eq!(digit_of('5'), 5);
    assert_eq!(digit_of('9'), 9);
}

#[test]
fn whitespace_is_what_the_standard_library_calls_whitespace() {
    for code in 0..=0x10ffff_u32 {
        if let Some(c) = char::from_u32(code) {
            assert_eq!(is_whitespace(c), c.is_whitespace(), "U+{:04X}", code);
        }
    }
}
