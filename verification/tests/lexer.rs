use libsyc::lexer::{is_word, keyword_at, lex, scan_run, scan_string, ByteClass, Lexeme};
use libsyc::number::parse_i32;
use libsyc::parser::Token;
use libsyc::text::{bytes_eq, slice_between, str_eq};

fn tokens(source: &str) -> Vec<(Token, usize, usize)> {
    let bytes = source.as_bytes();
    let mut out = Vec::new();
    let mut pos = 0;
    while let Some(Lexeme { token, start, end }) = lex(bytes, pos) {
        out.push((token, start, end));
        pos = end;
    }
    out
}

fn kinds(source: &str) -> Vec<Token> {
    tokens(source).into_iter().map(|t| t.0).collect()
}

#[test]
fn lexes_a_state_definition() {
    assert_eq!(
        tokens("terminating state main() { print(\"hi\"); terminate; }"),
        vec![
            (Token::Terminating, 0, 11),
            (Token::State, 12, 17),
            (Token::Identifier, 18, 22),
            (Token::LParen, 22, 23),
            (Token::RParen, 23, 24),
            (Token::LCurly, 25, 26),
            (Token::Identifier, 27, 32),
            (Token::LParen, 32, 33),
            (Token::StringLiteral, 33, 37),
            (Token::RParen, 37, 38),
            (Token::SemiColon, 38, 39),
            (Token::Terminate, 40, 49),
            (Token::SemiColon, 49, 50),
            (Token::RCurly, 51, 52),
        ]
    );
}

#[test]
fn lexes_every_keyword() {
    assert_eq!(
        kinds("and or equals goto terminate unreachable if else terminating state"),
        vec![
            Token::And,
            Token::Or,
            Token::Equals,
            Token::GoTo,
            Token::Terminate,
            Token::Unreachable,
            Token::If,
            Token::Else,
            Token::Terminating,
            Token::State,
        ]
    );
}

#[test]
fn a_longer_word_is_an_identifier() {
    assert_eq!(
        kinds("states terminated iff state-x $a -b And"),
        vec![Token::Identifier; 7]
    );
}

#[test]
fn lexes_assignment_without_blanks() {
    assert_eq!(
        tokens("x<-5;"),
        vec![
            (Token::Identifier, 0, 1),
            (Token::Assign, 1, 3),
            (Token::Number, 3, 4),
            (Token::SemiColon, 4, 5),
        ]
    );
}

#[test]
fn a_minus_starts_an_identifier() {
    assert_eq!(tokens("-5"), vec![(Token::Identifier, 0, 2)]);
    assert_eq!(tokens("x-5"), vec![(Token::Identifier, 0, 3)]);
}

#[test]
fn digits_then_letters_are_two_tokens() {
    assert_eq!(
        tokens("12ab"),
        vec![(Token::Number, 0, 2), (Token::Identifier, 2, 4)]
    );
}

#[test]
fn whitespace_is_skipped() {
    assert_eq!(tokens(" \t\n\x0c"), vec![]);
    assert_eq!(tokens("\n ; \t"), vec![(Token::SemiColon, 2, 3)]);
    assert_eq!(lex(b"", 0), None);
}

#[test]
fn carriage_return_is_an_error_token() {
    assert_eq!(
        tokens("a\r\nb"),
        vec![
            (Token::Identifier, 0, 1),
            (Token::Error, 1, 2),
            (Token::Identifier, 3, 4),
        ]
    );
}

#[test]
fn string_literals_with_escapes() {
    assert_eq!(
        tokens(r#""a\"b\n\t\u" x"#),
        vec![(Token::StringLiteral, 0, 12), (Token::Identifier, 13, 14)]
    );
    assert_eq!(tokens(r#""""#), vec![(Token::StringLiteral, 0, 2)]);
}

#[test]
fn a_bad_escape_makes_the_quote_an_error() {
    assert_eq!(
        tokens(r#""a\x""#),
        vec![
            (Token::Error, 0, 1),
            (Token::Identifier, 1, 2),
            (Token::Error, 2, 3),
            (Token::Identifier, 3, 4),
            (Token::Error, 4, 5),
        ]
    );
}

#[test]
fn an_open_string_is_an_error_and_lexing_goes_on() {
    assert_eq!(
        tokens("\"abc"),
        vec![(Token::Error, 0, 1), (Token::Identifier, 1, 4)]
    );
}

#[test]
fn a_character_of_several_bytes_is_one_error_token() {
    // 'é' takes two bytes, '€' three.
    assert_eq!(
        tokens("é€;"),
        vec![
            (Token::Error, 0, 2),
            (Token::Error, 2, 5),
            (Token::SemiColon, 5, 6),
        ]
    );
}

#[test]
fn a_string_literal_may_hold_any_character() {
    assert_eq!(tokens("\"é€\""), vec![(Token::StringLiteral, 0, 7)]);
}

#[test]
fn a_lone_angle_is_an_error() {
    assert_eq!(
        tokens("< -"),
        vec![(Token::Error, 0, 1), (Token::Identifier, 2, 3)]
    );
}

#[test]
fn scan_run_stops_at_the_first_other_byte() {
    assert_eq!(scan_run(b"123abc", 0, ByteClass::Digit), 3);
    assert_eq!(scan_run(b"123abc", 3, ByteClass::Digit), 3);
    assert_eq!(scan_run(b"123abc", 1, ByteClass::IdentChar), 6);
    assert_eq!(scan_run(b"  x", 0, ByteClass::Space), 2);
    assert_eq!(scan_run("é".as_bytes(), 1, ByteClass::Continuation), 2);
    assert_eq!(scan_run(b"abc", 3, ByteClass::IdentChar), 3);
}

#[test]
fn byte_classes() {
    assert!(ByteClass::Space.has(b' '));
    assert!(!ByteClass::Space.has(b'\r'));
    assert!(ByteClass::Digit.has(b'0') && ByteClass::Digit.has(b'9'));
    assert!(!ByteClass::Digit.has(b'a'));
    assert!(ByteClass::IdentChar.has(b'$') && ByteClass::IdentChar.has(b'-'));
    assert!(ByteClass::IdentChar.has(b'Z') && ByteClass::IdentChar.has(b'7'));
    assert!(!ByteClass::IdentChar.has(b'_'));
    assert!(ByteClass::Continuation.has(0x80) && ByteClass::Continuation.has(0xbf));
    assert!(!ByteClass::Continuation.has(0xc0) && !ByteClass::Continuation.has(0x7f));
}

#[test]
fn scan_string_finds_the_closing_quote() {
    assert_eq!(scan_string(br#"ab" c"#, 0), Some(3));
    assert_eq!(scan_string(br#"a\"b""#, 0), Some(5));
    assert_eq!(scan_string(br#"ab"#, 0), None);
    assert_eq!(scan_string(br#"a\"#, 0), None);
    assert_eq!(scan_string(br#"a\q""#, 0), None);
}

#[test]
fn words_and_keywords() {
    assert!(is_word(b"a print b", 2, 7, "print"));
    assert!(!is_word(b"a print b", 2, 6, "print"));
    assert!(!is_word(b"a prinx b", 2, 7, "print"));
    assert_eq!(keyword_at(b"state", 0, 5), Some(Token::State));
    assert_eq!(keyword_at(b"state", 0, 4), None);
    assert_eq!(keyword_at(b"xgotox", 1, 5), Some(Token::GoTo));
    assert_eq!(keyword_at(b"main", 0, 4), None);
}

#[test]
fn reserved_words() {
    for token in [
        Token::And,
        Token::Or,
        Token::Equals,
        Token::GoTo,
        Token::Unreachable,
        Token::If,
        Token::Else,
    ] {
        assert!(token.reserved());
    }
    for token in [
        Token::Terminate,
        Token::Terminating,
        Token::State,
        Token::Identifier,
        Token::Error,
        Token::Assign,
    ] {
        assert!(!token.reserved());
    }
}

#[test]
fn numbers_are_read_with_their_sign() {
    assert_eq!(parse_i32(b"0", 0, 1), Some(0));
    assert_eq!(parse_i32(b"007", 0, 3), Some(7));
    assert_eq!(parse_i32(b"x 42;", 2, 4), Some(42));
    assert_eq!(parse_i32(b"-5", 0, 2), Some(-5));
    assert_eq!(parse_i32(b"+5", 0, 2), Some(5));
    assert_eq!(parse_i32(b"2147483647", 0, 10), Some(i32::MAX));
    assert_eq!(parse_i32(b"-2147483648", 0, 11), Some(i32::MIN));
}

#[test]
fn what_is_no_number_is_rejected() {
    assert_eq!(parse_i32(b"", 0, 0), None);
    assert_eq!(parse_i32(b"-", 0, 1), None);
    assert_eq!(parse_i32(b"+", 0, 1), None);
    assert_eq!(parse_i32(b"12a", 0, 3), None);
    assert_eq!(parse_i32(b"--1", 0, 3), None);
    assert_eq!(parse_i32(b"2147483648", 0, 10), None);
    assert_eq!(parse_i32(b"-2147483649", 0, 11), None);
    assert_eq!(parse_i32(b"99999999999999999999999", 0, 23), None);
}

#[test]
fn text_is_compared_by_its_characters() {
    assert!(str_eq("main", "main"));
    assert!(!str_eq("main", "mai"));
    assert!(!str_eq("main", "maim"));
    assert!(str_eq("", ""));
    assert!(bytes_eq(b"ab", b"ab"));
    assert!(!bytes_eq(b"ab", b"ac"));
    assert!(!bytes_eq(b"ab", b"abc"));
}

#[test]
fn slices_lie_between_character_boundaries() {
    assert_eq!(slice_between("a\"é€\"b", 2, 7), "é€");
    assert_eq!(slice_between("abc", 0, 3), "abc");
    assert_eq!(slice_between("abc", 1, 1), "");
}
