use libsyc::error::ParseError;
use libsyc::lexer::Lexeme;
use libsyc::parser::{SycParser, Token};
use libsyc::types::{Ident, Statement, StrLit, SycValue, Type};
use libsyc::wasi::Wasi;

fn parse(source: &str) -> Result<Vec<Statement>, ParseError> {
    SycParser::new(source).parse()
}

fn body(source: &str) -> Vec<Statement> {
    let mut states = parse(source).unwrap();
    assert_eq!(states.len(), 1);
    match states.remove(0) {
        Statement::StateDefn { statements, .. } => statements,
        other => panic!("not a state: {:?}", other),
    }
}

#[test]
fn parses_the_entry_state() {
    let states = parse("terminating state main() { print(\"hi\"); terminate; }").unwrap();
    assert_eq!(states.len(), 1);
    match &states[0] {
        Statement::StateDefn {
            terminating,
            name,
            input,
            statements,
        } => {
            assert!(*terminating);
            assert_eq!(name.as_str(), "main");
            assert!(input.is_empty());
            assert_eq!(statements.len(), 2);
            match &statements[0] {
                Statement::Wasi(Wasi::Print(literal)) => assert_eq!(literal.as_str(), "hi"),
                other => panic!("not a print: {:?}", other),
            }
            assert!(matches!(statements[1], Statement::Terminate));
        }
        other => panic!("not a state: {:?}", other),
    }
}

#[test]
fn parses_states_in_the_order_of_the_text() {
    let states =
        parse("state helper() { println(\"x\"); } terminating state main() { helper(); terminate; }")
            .unwrap();
    assert_eq!(states.len(), 2);
    match &states[0] {
        Statement::StateDefn {
            terminating,
            name,
            statements,
            ..
        } => {
            assert!(!*terminating);
            assert_eq!(name.as_str(), "helper");
            assert_eq!(statements.len(), 1);
            match &statements[0] {
                Statement::Wasi(Wasi::Println(literal)) => assert_eq!(literal.as_str(), "x"),
                other => panic!("not a println: {:?}", other),
            }
        }
        other => panic!("not a state: {:?}", other),
    }
    match &states[1] {
        Statement::StateDefn {
            terminating,
            name,
            statements,
            ..
        } => {
            assert!(*terminating);
            assert_eq!(name.as_str(), "main");
            match &statements[0] {
                Statement::FnCall { name, input } => {
                    assert_eq!(name.as_str(), "helper");
                    assert!(input.is_empty());
                }
                other => panic!("not a call: {:?}", other),
            }
        }
        other => panic!("not a state: {:?}", other),
    }
}

#[test]
fn an_empty_text_is_an_empty_program() {
    assert!(parse("").unwrap().is_empty());
    assert!(parse(" \n\t ").unwrap().is_empty());
}

#[test]
fn parses_assignments() {
    let statements = body("state s() { x <- 5; y<-007; x <- -12; }");
    assert_eq!(statements.len(), 3);
    match &statements[0] {
        Statement::Assignment { name, value } => {
            assert_eq!(name.as_str(), "x");
            assert_eq!(*value, SycValue::I32(5));
        }
        other => panic!("not an assignment: {:?}", other),
    }
    match &statements[1] {
        Statement::Assignment { name, value } => {
            assert_eq!(name.as_str(), "y");
            assert_eq!(*value, SycValue::I32(7));
        }
        other => panic!("not an assignment: {:?}", other),
    }
    match &statements[2] {
        Statement::Assignment { name, value } => {
            assert_eq!(name.as_str(), "x");
            assert_eq!(*value, SycValue::I32(-12));
        }
        other => panic!("not an assignment: {:?}", other),
    }
}

#[test]
fn a_literal_is_kept_as_it_is_written() {
    let statements = body(r#"state s() { print("a\n\"é€"); }"#);
    match &statements[0] {
        Statement::Wasi(Wasi::Print(literal)) => {
            assert_eq!(literal.as_str(), r#"a\n\"é€"#);
            assert_eq!(literal.len(), 10);
        }
        other => panic!("not a print: {:?}", other),
    }
}

#[test]
fn tokens_between_states_are_passed_over() {
    let states = parse("; 12 foo state a() {} ) \"s\" terminate state b() {} }").unwrap();
    assert_eq!(states.len(), 2);
}

#[test]
fn a_reserved_word_between_states_is_not_supported() {
    assert_eq!(
        parse("state a() {} goto").err(),
        Some(ParseError::Unsupported { at: 13 })
    );
    assert_eq!(parse("if").err(), Some(ParseError::Unsupported { at: 0 }));
}

#[test]
fn a_reserved_word_in_a_block_is_not_supported() {
    for word in ["and", "or", "equals", "goto", "unreachable", "if", "else"] {
        let source = format!("state a() {{ {} }}", word);
        assert_eq!(
            parse(&source).err(),
            Some(ParseError::Unsupported { at: 12 })
        );
    }
}

#[test]
fn arguments_are_not_supported() {
    assert_eq!(
        parse("state a(x) {}").err(),
        Some(ParseError::Unsupported { at: 8 })
    );
    assert_eq!(
        parse("state a() { b(1); }").err(),
        Some(ParseError::Unsupported { at: 14 })
    );
}

#[test]
fn the_end_of_the_text_inside_a_construct() {
    assert_eq!(parse("state").err(), Some(ParseError::UnexpectedEof));
    assert_eq!(parse("state a").err(), Some(ParseError::UnexpectedEof));
    assert_eq!(parse("state a(").err(), Some(ParseError::UnexpectedEof));
    assert_eq!(parse("state a()").err(), Some(ParseError::UnexpectedEof));
    assert_eq!(parse("state a() {").err(), Some(ParseError::UnexpectedEof));
    assert_eq!(
        parse("state a() { print(\"x\");").err(),
        Some(ParseError::UnexpectedEof)
    );
    assert_eq!(parse("state a() { x <-").err(), Some(ParseError::UnexpectedEof));
    assert_eq!(parse("terminating").err(), Some(ParseError::UnexpectedEof));
}

#[test]
fn a_required_token_is_missing() {
    assert_eq!(
        parse("terminating main() {}").err(),
        Some(ParseError::Expected {
            token: Token::State,
            at: 12
        })
    );
    assert_eq!(
        parse("state 5() {}").err(),
        Some(ParseError::Expected {
            token: Token::Identifier,
            at: 6
        })
    );
    assert_eq!(
        parse("state a {}").err(),
        Some(ParseError::Expected {
            token: Token::LParen,
            at: 8
        })
    );
    assert_eq!(
        parse("state a() ;").err(),
        Some(ParseError::Expected {
            token: Token::LCurly,
            at: 10
        })
    );
    assert_eq!(
        parse("state a() { print(x); }").err(),
        Some(ParseError::Expected {
            token: Token::StringLiteral,
            at: 18
        })
    );
    assert_eq!(
        parse("state a() { print(\"x\" }").err(),
        Some(ParseError::Expected {
            token: Token::RParen,
            at: 22
        })
    );
    assert_eq!(
        parse("state a() { terminate }").err(),
        Some(ParseError::Expected {
            token: Token::SemiColon,
            at: 22
        })
    );
    assert_eq!(
        parse("state a() { b() }").err(),
        Some(ParseError::Expected {
            token: Token::SemiColon,
            at: 16
        })
    );
}

#[test]
fn a_token_that_starts_no_statement() {
    assert_eq!(
        parse("state a() { ; }").err(),
        Some(ParseError::UnexpectedToken { at: 12 })
    );
    assert_eq!(
        parse("state a() { state b() {} }").err(),
        Some(ParseError::UnexpectedToken { at: 12 })
    );
    assert_eq!(
        parse("state a() { 5 }").err(),
        Some(ParseError::UnexpectedToken { at: 12 })
    );
    assert_eq!(
        parse("state a() { % }").err(),
        Some(ParseError::UnexpectedToken { at: 12 })
    );
}

#[test]
fn a_value_that_is_no_number() {
    assert_eq!(
        parse("state a() { x <- y; }").err(),
        Some(ParseError::InvalidNumber { at: 17 })
    );
    assert_eq!(
        parse("state a() { x <- 2147483648; }").err(),
        Some(ParseError::InvalidNumber { at: 17 })
    );
    assert_eq!(
        parse("state a() { x <- \"5\"; }").err(),
        Some(ParseError::InvalidNumber { at: 17 })
    );
}

#[test]
fn the_word_print_is_never_a_name() {
    assert_eq!(
        parse("state a() { print <- 5; }").err(),
        Some(ParseError::Expected {
            token: Token::LParen,
            at: 18
        })
    );
}

#[test]
fn the_parser_steps_through_tokens() {
    let mut parser = SycParser::new("state main ( \"lit\" 42");
    assert!(parser.peek(Token::State));
    assert!(!parser.peek(Token::Identifier));
    assert_eq!(parser.next_opt(), Some(Token::State));
    assert_eq!(parser.slice(), "state");
    assert_eq!(parser.ident().unwrap(), Ident::new("main"));
    assert_eq!(parser.mk_ident(), Ident::new("main"));
    assert_eq!(parser.expect(Token::LParen), Ok(()));
    assert_eq!(parser.string_literal().unwrap(), StrLit::new("lit"));
    assert_eq!(parser.mk_str_lit(), StrLit::new("lit"));
    assert_eq!(parser.slice(), "\"lit\"");
    assert_eq!(parser.next(), Ok(Token::Number));
    assert_eq!(parser.mk_number(), Ok(SycValue::I32(42)));
    assert_eq!(parser.next_opt(), None);
    assert_eq!(parser.next(), Err(ParseError::UnexpectedEof));
    assert!(!parser.peek(Token::State));
}

#[test]
fn expect_reports_the_token_it_wanted() {
    let mut parser = SycParser::new("  }");
    assert_eq!(
        parser.expect(Token::LCurly),
        Err(ParseError::Expected {
            token: Token::LCurly,
            at: 2
        })
    );
    let mut parser = SycParser::new("");
    assert_eq!(parser.expect(Token::LCurly), Err(ParseError::UnexpectedEof));
}

#[test]
fn parse_args_takes_an_empty_list() {
    let mut parser = SycParser::new("( ) x");
    assert_eq!(parser.parse_args(), Ok(Vec::<Type>::new()));
    assert_eq!(parser.next_opt(), Some(Token::Identifier));
}

#[test]
fn parse_block_takes_the_statements_up_to_the_brace() {
    let mut parser = SycParser::new("{ a(); terminate; } state");
    let block = parser.parse_block().unwrap();
    assert_eq!(block.len(), 2);
    assert_eq!(parser.next_opt(), Some(Token::State));
    let mut parser = SycParser::new("{ }");
    assert!(parser.parse_block().unwrap().is_empty());
}

#[test]
fn a_lexeme_holds_its_bounds() {
    let lexeme = Lexeme {
        token: Token::State,
        start: 1,
        end: 6,
    };
    assert_eq!(libsyc::lexer::lex(b" state", 0), Some(lexeme));
}
