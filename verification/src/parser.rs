//! The parser: from source text to the program model.

use crate::error::ParseError;
use crate::lexer::{
    is_word, lemma_lexeme_boundaries, lemma_next_lexeme, lex, next_lexeme, Lexeme,
};
use crate::number::{parse_i32, parse_i32_spec};
use crate::text::{lemma_boundary_after_ascii, lemma_boundary_before, slice_between};
use crate::types::{
    lemma_state_body_view, statement_views, Ident, Statement, StatementView, StrLit, SycValue,
    Type,
};
use crate::wasi::{Wasi, WasiView};
use vstd::prelude::*;
use vstd::string::*;
use vstd::utf8::{decode_utf8, is_char_boundary};

verus! {

/// All the valid tokens in a sycamore program
#[derive(Debug, PartialEq, Eq, Clone, Copy, Structural)]
pub enum Token {
    /// `<-`
    Assign,
    /// `and`, reserved
    And,
    /// `or`, reserved
    Or,
    /// `equals`, reserved
    Equals,
    /// `goto`, reserved
    GoTo,
    /// `terminate`
    Terminate,
    /// `unreachable`, reserved
    Unreachable,
    /// `if`, reserved
    If,
    /// `else`, reserved
    Else,
    /// `terminating`, the marker of a terminal state
    Terminating,
    /// `state`
    State,
    /// `(`
    LParen,
    /// `)`
    RParen,
    /// `{`
    LCurly,
    /// `}`
    RCurly,
    /// `;`
    SemiColon,
    /// A double quote, then characters other than a double quote and a
    /// backslash or one of the escapes `\t`, `\u`, `\n` and `\"`, then a
    /// double quote
    StringLiteral,
    /// One or more decimal digits
    Number,
    /// A letter, `$` or `-`, then letters, digits, `$` and `-`
    Identifier,
    /// Blanks, tabs, line feeds and form feeds. The lexer skips them and
    /// never hands this token out.
    Whitespace,
    /// A character that starts no token
    Error,
}

impl Token {
    /// Whether the token is a word kept for a later version of the
    /// language: it is recognised and not supported.
    pub open spec fn is_reserved(self) -> bool {
        self == Token::And || self == Token::Or || self == Token::Equals || self == Token::GoTo
            || self == Token::Unreachable || self == Token::If || self == Token::Else
    }

    /// Whether the token is a reserved word.
    pub fn reserved(&self) -> (r: bool)
        ensures
            r == self.is_reserved(),
    {
        match self {
            Token::And | Token::Or | Token::Equals | Token::GoTo | Token::Unreachable
            | Token::If | Token::Else => true,
            _ => false,
        }
    }
}

/// The characters that the bytes from `start` up to `end` encode.
pub open spec fn text(s: Seq<u8>, start: int, end: int) -> Seq<char> {
    decode_utf8(s.subrange(start, end))
}

/// The next token, which must be `token`.
pub open spec fn expect_spec(s: Seq<u8>, pos: int, token: Token) -> Result<Lexeme, ParseError> {
    match next_lexeme(s, pos) {
        None => Err(ParseError::UnexpectedEof),
        Some(found) => if found.token == token {
            Ok(found)
        } else {
            Err(ParseError::Expected { token, at: found.start })
        },
    }
}

/// An empty list of arguments, `(` and `)`: where it ends. Anything but the
/// closing parenthesis after the opening one is an argument, which the
/// language does not support.
pub open spec fn args_spec(s: Seq<u8>, pos: int) -> Result<int, ParseError> {
    match expect_spec(s, pos, Token::LParen) {
        Err(e) => Err(e),
        Ok(open) => match next_lexeme(s, open.end as int) {
            None => Err(ParseError::UnexpectedEof),
            Some(found) => if found.token == Token::RParen {
                Ok(found.end as int)
            } else {
                Err(ParseError::Unsupported { at: found.start })
            },
        },
    }
}

/// What follows the word of a print statement: `(`, a string literal, `)`
/// and `;`. The literal is the text between its quotes, as it is written.
pub open spec fn print_spec(s: Seq<u8>, pos: int) -> Result<(Seq<char>, int), ParseError> {
    match expect_spec(s, pos, Token::LParen) {
        Err(e) => Err(e),
        Ok(open) => match expect_spec(s, open.end as int, Token::StringLiteral) {
            Err(e) => Err(e),
            Ok(literal) => match expect_spec(s, literal.end as int, Token::RParen) {
                Err(e) => Err(e),
                Ok(close) => match expect_spec(s, close.end as int, Token::SemiColon) {
                    Err(e) => Err(e),
                    Ok(semi) => Ok(
                        (text(s, literal.start + 1, literal.end - 1), semi.end as int),
                    ),
                },
            },
        },
    }
}

/// What follows the name of an assignment: `<-`, a token whose text is a
/// number, and `;`.
pub open spec fn assignment_spec(s: Seq<u8>, pos: int) -> Result<(SycValue, int), ParseError> {
    match expect_spec(s, pos, Token::Assign) {
        Err(e) => Err(e),
        Ok(arrow) => match next_lexeme(s, arrow.end as int) {
            None => Err(ParseError::UnexpectedEof),
            Some(number) => match parse_i32_spec(
                s.subrange(number.start as int, number.end as int),
            ) {
                None => Err(ParseError::InvalidNumber { at: number.start }),
                Some(value) => match expect_spec(s, number.end as int, Token::SemiColon) {
                    Err(e) => Err(e),
                    Ok(semi) => Ok((SycValue::I32(value), semi.end as int)),
                },
            },
        },
    }
}

/// What follows the name of a call: an empty list of arguments and `;`.
pub open spec fn call_spec(s: Seq<u8>, pos: int) -> Result<int, ParseError> {
    match args_spec(s, pos) {
        Err(e) => Err(e),
        Ok(end) => match expect_spec(s, end, Token::SemiColon) {
            Err(e) => Err(e),
            Ok(semi) => Ok(semi.end as int),
        },
    }
}

/// The statement that starts with the identifier `word`: a print statement
/// if the word is `println` or `print`, an assignment if `<-` follows, and a
/// call otherwise.
#[verifier::opaque]
pub open spec fn word_statement(s: Seq<u8>, word: Lexeme) -> Result<
    (StatementView, int),
    ParseError,
> {
    let name = s.subrange(word.start as int, word.end as int);
    if name == "println".spec_bytes() {
        match print_spec(s, word.end as int) {
            Err(e) => Err(e),
            Ok((literal, end)) => Ok((StatementView::Wasi(WasiView::Println(literal)), end)),
        }
    } else if name == "print".spec_bytes() {
        match print_spec(s, word.end as int) {
            Err(e) => Err(e),
            Ok((literal, end)) => Ok((StatementView::Wasi(WasiView::Print(literal)), end)),
        }
    } else if next_lexeme(s, word.end as int) matches Some(found) && found.token
        == Token::Assign {
        match assignment_spec(s, word.end as int) {
            Err(e) => Err(e),
            Ok((value, end)) => Ok(
                (
                    StatementView::Assignment {
                        name: text(s, word.start as int, word.end as int),
                        value,
                    },
                    end,
                ),
            ),
        }
    } else {
        match call_spec(s, word.end as int) {
            Err(e) => Err(e),
            Ok(end) => Ok(
                (
                    StatementView::FnCall {
                        name: text(s, word.start as int, word.end as int),
                        input: seq![],
                    },
                    end,
                ),
            ),
        }
    }
}

/// One step inside a block: its end, or one more statement.
pub enum BlockStep {
    End { end: int },
    Item { statement: StatementView, end: int },
}

/// The step that the text takes at `pos` inside a block: `}` ends the
/// block; an identifier starts a statement; `terminate` and `;` are a
/// statement. A reserved word is not supported, and any other token cannot
/// start a statement.
#[verifier::opaque]
pub open spec fn block_step(s: Seq<u8>, pos: int) -> Result<BlockStep, ParseError> {
    match next_lexeme(s, pos) {
        None => Err(ParseError::UnexpectedEof),
        Some(found) => if found.token == Token::RCurly {
            Ok(BlockStep::End { end: found.end as int })
        } else if found.token == Token::Identifier {
            match word_statement(s, found) {
                Err(e) => Err(e),
                Ok((statement, end)) => Ok(BlockStep::Item { statement, end }),
            }
        } else if found.token == Token::Terminate {
            match expect_spec(s, found.end as int, Token::SemiColon) {
                Err(e) => Err(e),
                Ok(semi) => Ok(
                    BlockStep::Item { statement: StatementView::Terminate, end: semi.end as int },
                ),
            }
        } else if found.token.is_reserved() {
            Err(ParseError::Unsupported { at: found.start })
        } else {
            Err(ParseError::UnexpectedToken { at: found.start })
        },
    }
}

/// The statements of a block from `pos` on, up to its closing brace, and
/// where the block ends. (Each statement moves the position on; the test
/// for that only serves to make the definition well founded.)
pub open spec fn block_items(s: Seq<u8>, pos: int) -> Result<
    (Seq<StatementView>, int),
    ParseError,
>
    decreases s.len() - pos,
{
    match block_step(s, pos) {
        Err(e) => Err(e),
        Ok(BlockStep::End { end }) => Ok((seq![], end)),
        Ok(BlockStep::Item { statement, end }) => if pos < end <= s.len() {
            match block_items(s, end) {
                Err(e) => Err(e),
                Ok((rest, end)) => Ok((seq![statement] + rest, end)),
            }
        } else {
            Err(ParseError::UnexpectedEof)
        },
    }
}

/// The statements found so far put in front of what the rest of a block
/// gives.
pub open spec fn with_front(
    front: Seq<StatementView>,
    rest: Result<(Seq<StatementView>, int), ParseError>,
) -> Result<(Seq<StatementView>, int), ParseError> {
    match rest {
        Err(e) => Err(e),
        Ok((rest, end)) => Ok((front + rest, end)),
    }
}

/// The states found so far put in front of what the rest of a program
/// gives.
pub open spec fn with_states(
    front: Seq<StatementView>,
    rest: Result<Seq<StatementView>, ParseError>,
) -> Result<Seq<StatementView>, ParseError> {
    match rest {
        Err(e) => Err(e),
        Ok(rest) => Ok(front + rest),
    }
}

/// A block: `{`, statements, `}`.
pub open spec fn block_spec(s: Seq<u8>, pos: int) -> Result<
    (Seq<StatementView>, int),
    ParseError,
> {
    match expect_spec(s, pos, Token::LCurly) {
        Err(e) => Err(e),
        Ok(open) => block_items(s, open.end as int),
    }
}

/// What follows the word `state`: the state's name, an empty list of
/// arguments and its block.
#[verifier::opaque]
pub open spec fn state_spec(s: Seq<u8>, pos: int, terminating: bool) -> Result<
    (StatementView, int),
    ParseError,
> {
    match expect_spec(s, pos, Token::Identifier) {
        Err(e) => Err(e),
        Ok(name) => match args_spec(s, name.end as int) {
            Err(e) => Err(e),
            Ok(end) => match block_spec(s, end) {
                Err(e) => Err(e),
                Ok((statements, end)) => Ok(
                    (
                        StatementView::StateDefn {
                            terminating,
                            name: text(s, name.start as int, name.end as int),
                            input: seq![],
                            statements,
                        },
                        end,
                    ),
                ),
            },
        },
    }
}

/// One step at the top of a program: its end, a state, or a token that is
/// passed over.
pub enum ProgramStep {
    End,
    State { state: StatementView, end: int },
    Skip { end: int },
}

/// The step that the text takes at `pos` at the top of a program: `state`,
/// or `terminating` and `state`, start a state definition; a reserved word
/// is not supported; any other token is passed over.
#[verifier::opaque]
pub open spec fn program_step(s: Seq<u8>, pos: int) -> Result<ProgramStep, ParseError> {
    match next_lexeme(s, pos) {
        None => Ok(ProgramStep::End),
        Some(found) => if found.token == Token::Terminating {
            match expect_spec(s, found.end as int, Token::State) {
                Err(e) => Err(e),
                Ok(word) => match state_spec(s, word.end as int, true) {
                    Err(e) => Err(e),
                    Ok((state, end)) => Ok(ProgramStep::State { state, end }),
                },
            }
        } else if found.token == Token::State {
            match state_spec(s, found.end as int, false) {
                Err(e) => Err(e),
                Ok((state, end)) => Ok(ProgramStep::State { state, end }),
            }
        } else if found.token.is_reserved() {
            Err(ParseError::Unsupported { at: found.start })
        } else {
            Ok(ProgramStep::Skip { end: found.end as int })
        },
    }
}

/// The states of a program from `pos` on, in the order of the text. (Each
/// step moves the position on; the test for that only serves to make the
/// definition well founded.)
pub open spec fn program_spec(s: Seq<u8>, pos: int) -> Result<Seq<StatementView>, ParseError>
    decreases s.len() - pos,
{
    match program_step(s, pos) {
        Err(e) => Err(e),
        Ok(ProgramStep::End) => Ok(seq![]),
        Ok(ProgramStep::State { state, end }) => if pos < end <= s.len() {
            match program_spec(s, end) {
                Err(e) => Err(e),
                Ok(rest) => Ok(seq![state] + rest),
            }
        } else {
            Err(ParseError::UnexpectedEof)
        },
        Ok(ProgramStep::Skip { end }) => if pos < end <= s.len() {
            program_spec(s, end)
        } else {
            Err(ParseError::UnexpectedEof)
        },
    }
}

/// A token that is found where one is required ends after the position and
/// within the text.
pub proof fn lemma_expect_advances(s: Seq<u8>, pos: int, token: Token)
    requires
        0 <= pos <= s.len() <= usize::MAX,
        expect_spec(s, pos, token) is Ok,
    ensures
        pos < expect_spec(s, pos, token)->Ok_0.end <= s.len(),
{
    lemma_next_lexeme(s, pos);
}

/// An empty list of arguments ends after the position and within the text.
pub proof fn lemma_args_advance(s: Seq<u8>, pos: int)
    requires
        0 <= pos <= s.len() <= usize::MAX,
        args_spec(s, pos) is Ok,
    ensures
        pos < args_spec(s, pos)->Ok_0 <= s.len(),
{
    lemma_expect_advances(s, pos, Token::LParen);
    let open = expect_spec(s, pos, Token::LParen)->Ok_0;
    lemma_next_lexeme(s, open.end as int);
}

/// A statement that starts with an identifier ends after the identifier and
/// within the text.
pub proof fn lemma_word_advances(s: Seq<u8>, word: Lexeme)
    requires
        0 <= word.end <= s.len() <= usize::MAX,
        word_statement(s, word) is Ok,
    ensures
        word.end < word_statement(s, word)->Ok_0.1 <= s.len(),
{
    reveal(word_statement);
    let pos = word.end as int;
    let name = s.subrange(word.start as int, word.end as int);
    if name == "println".spec_bytes() || name == "print".spec_bytes() {
        lemma_expect_advances(s, pos, Token::LParen);
        let open = expect_spec(s, pos, Token::LParen)->Ok_0;
        lemma_expect_advances(s, open.end as int, Token::StringLiteral);
        let literal = expect_spec(s, open.end as int, Token::StringLiteral)->Ok_0;
        lemma_expect_advances(s, literal.end as int, Token::RParen);
        let close = expect_spec(s, literal.end as int, Token::RParen)->Ok_0;
        lemma_expect_advances(s, close.end as int, Token::SemiColon);
    } else if next_lexeme(s, pos) matches Some(found) && found.token == Token::Assign {
        lemma_expect_advances(s, pos, Token::Assign);
        let arrow = expect_spec(s, pos, Token::Assign)->Ok_0;
        lemma_next_lexeme(s, arrow.end as int);
        let number = next_lexeme(s, arrow.end as int)->0;
        lemma_expect_advances(s, number.end as int, Token::SemiColon);
    } else {
        lemma_args_advance(s, pos);
        lemma_expect_advances(s, args_spec(s, pos)->Ok_0, Token::SemiColon);
    }
}

/// A step inside a block ends after the position and within the text.
pub proof fn lemma_block_step_advances(s: Seq<u8>, pos: int)
    requires
        0 <= pos <= s.len() <= usize::MAX,
        block_step(s, pos) is Ok,
    ensures
        match block_step(s, pos)->Ok_0 {
            BlockStep::End { end } => pos < end <= s.len(),
            BlockStep::Item { end, .. } => pos < end <= s.len(),
        },
{
    reveal(block_step);
    lemma_next_lexeme(s, pos);
    let found = next_lexeme(s, pos)->0;
    if found.token == Token::Identifier {
        lemma_word_advances(s, found);
    } else if found.token == Token::Terminate {
        lemma_expect_advances(s, found.end as int, Token::SemiColon);
    }
}

/// The statements of a block end after the position and within the text:
/// the test that makes the definition well founded never fails.
pub proof fn lemma_block_items_advance(s: Seq<u8>, pos: int)
    requires
        0 <= pos <= s.len() <= usize::MAX,
        block_items(s, pos) is Ok,
    ensures
        pos < block_items(s, pos)->Ok_0.1 <= s.len(),
    decreases s.len() - pos,
{
    lemma_block_step_advances(s, pos);
    match block_step(s, pos)->Ok_0 {
        BlockStep::End { end } => {},
        BlockStep::Item { statement, end } => {
            lemma_block_items_advance(s, end);
        },
    }
}

/// A state definition ends after the position and within the text.
pub proof fn lemma_state_advances(s: Seq<u8>, pos: int, terminating: bool)
    requires
        0 <= pos <= s.len() <= usize::MAX,
        state_spec(s, pos, terminating) is Ok,
    ensures
        pos < state_spec(s, pos, terminating)->Ok_0.1 <= s.len(),
{
    reveal(state_spec);
    lemma_expect_advances(s, pos, Token::Identifier);
    let name = expect_spec(s, pos, Token::Identifier)->Ok_0;
    lemma_args_advance(s, name.end as int);
    let end = args_spec(s, name.end as int)->Ok_0;
    lemma_expect_advances(s, end, Token::LCurly);
    lemma_block_items_advance(s, expect_spec(s, end, Token::LCurly)->Ok_0.end as int);
}

/// A step at the top of a program ends after the position and within the
/// text: in `program_spec`, too, the test that makes the definition well
/// founded never fails.
pub proof fn law_program_steps_advance(s: Seq<u8>, pos: int)
    requires
        0 <= pos <= s.len() <= usize::MAX,
        program_step(s, pos) is Ok,
    ensures
        match program_step(s, pos)->Ok_0 {
            ProgramStep::End => true,
            ProgramStep::State { end, .. } => pos < end <= s.len(),
            ProgramStep::Skip { end } => pos < end <= s.len(),
        },
{
    reveal(program_step);
    if next_lexeme(s, pos) is Some {
        lemma_next_lexeme(s, pos);
        let found = next_lexeme(s, pos)->0;
        if found.token == Token::Terminating {
            lemma_expect_advances(s, found.end as int, Token::State);
            let word = expect_spec(s, found.end as int, Token::State)->Ok_0;
            lemma_state_advances(s, word.end as int, true);
        } else if found.token == Token::State {
            lemma_state_advances(s, found.end as int, false);
        }
    }
}

/// A parser for a sycamore program. Given an input it will generate a
/// `Vec<Statement>` for use in a `Codegen` to create the output of the program
pub struct SycParser<'lex> {
    input: &'lex str,
    /// Where the next token is looked for.
    pos: usize,
    /// The token taken last.
    current: Option<Lexeme>,
}

impl<'lex> SycParser<'lex> {
    /// The bytes of the text.
    pub closed spec fn source(&self) -> Seq<u8> {
        self.input.spec_bytes()
    }

    /// Where the next token is looked for.
    pub closed spec fn position(&self) -> int {
        self.pos as int
    }

    /// The token taken last, if one was taken.
    pub closed spec fn current(&self) -> Option<Lexeme> {
        self.current
    }

    /// The parser's invariant: the position and the bounds of the current
    /// token lie within the text, at character boundaries.
    pub closed spec fn wf(&self) -> bool {
        let s = self.input.spec_bytes();
        &&& self.pos <= s.len()
        &&& is_char_boundary(s, self.pos as int)
        &&& match self.current {
            None => true,
            Some(found) => {
                &&& found.start < found.end <= self.pos
                &&& is_char_boundary(s, found.start as int)
                &&& is_char_boundary(s, found.end as int)
                &&& found.token == Token::StringLiteral ==> found.end - found.start >= 2
                    && s[found.start as int] == 0x22 && s[found.end - 1] == 0x22
            },
        }
    }

    /// Create a new `SycParser`
    pub fn new(input: &'lex str) -> (r: Self)
        ensures
            r.wf(),
            r.source() == input.spec_bytes(),
            r.position() == 0,
            r.current() is None,
    {
        proof {
            vstd::utf8::encode_utf8_valid_utf8(input@);
            vstd::utf8::is_char_boundary_start_end_of_seq(input.spec_bytes());
        }
        Self { input, pos: 0, current: None }
    }

    /// Get the slice of the `&str` for the current token
    pub fn slice(&self) -> (r: &'lex str)
        requires
            self.wf(),
            self.current() is Some,
        ensures
            r.spec_bytes() == self.source().subrange(
                self.current()->0.start as int,
                self.current()->0.end as int,
            ),
            r@ == text(
                self.source(),
                self.current()->0.start as int,
                self.current()->0.end as int,
            ),
    {
        match self.current {
            Some(found) => slice_between(self.input, found.start, found.end),
            None => self.input,
        }
    }

    /// Get the next token if it exists
    pub fn next_opt(&mut self) -> (r: Option<Token>)
        requires
            old(self).wf(),
        ensures
            final(self).wf(),
            final(self).source() == old(self).source(),
            final(self).current() == next_lexeme(old(self).source(), old(self).position()),
            match next_lexeme(old(self).source(), old(self).position()) {
                None => r is None && final(self).position() == old(self).position(),
                Some(found) => r == Some(found.token) && final(self).position() == found.end
                    && old(self).position() < found.end <= old(self).source().len(),
            },
    {
        let bytes = self.input.as_bytes();
        let length = bytes.len();
        proof {
            vstd::utf8::encode_utf8_valid_utf8(self.input@);
            if next_lexeme(self.input.spec_bytes(), self.pos as int) is Some {
                lemma_lexeme_boundaries(self.input.spec_bytes(), self.pos as int);
                lemma_next_lexeme(self.input.spec_bytes(), self.pos as int);
            }
        }
        self.current = lex(bytes, self.pos);
        match self.current {
            Some(found) => {
                self.pos = found.end;
                Some(found.token)
            },
            None => None,
        }
    }

    /// Get the next `Token` to operate on. The text must not have ended.
    pub fn next(&mut self) -> (r: Result<Token, ParseError>)
        requires
            old(self).wf(),
        ensures
            final(self).wf(),
            final(self).source() == old(self).source(),
            match next_lexeme(old(self).source(), old(self).position()) {
                None => r == Err::<Token, ParseError>(ParseError::UnexpectedEof),
                Some(found) => r == Ok::<Token, ParseError>(found.token) && final(self).current()
                    == Some(found)
                        && final(self).position() == found.end
                        && old(self).position() < found.end <= old(self).source().len(),
            },
    {
        match self.next_opt() {
            Some(token) => Ok(token),
            None => Err(ParseError::UnexpectedEof),
        }
    }

    /// Assume we get the next token and consume it. It is an error if this
    /// is not the case.
    pub fn expect(&mut self, t: Token) -> (r: Result<(), ParseError>)
        requires
            old(self).wf(),
        ensures
            final(self).wf(),
            final(self).source() == old(self).source(),
            match expect_spec(old(self).source(), old(self).position(), t) {
                Err(e) => r == Err::<(), ParseError>(e),
                Ok(found) => r is Ok
                    && final(self).current() == Some(found) && final(self).position() == found.end
                    && old(self).position() < found.end <= old(self).source().len(),
            },
    {
        match self.next() {
            Err(e) => Err(e),
            Ok(token) => {
                if token != t {
                    let at = match self.current {
                        Some(found) => found.start,
                        None => 0,
                    };
                    Err(ParseError::Expected { token: t, at })
                } else {
                    Ok(())
                }
            },
        }
    }

    /// Check if the next `Token` is equal to the given `Token`
    pub fn peek(&self, tok: Token) -> (r: bool)
        requires
            self.wf(),
        ensures
            r == (next_lexeme(self.source(), self.position()) matches Some(found) && found.token
                == tok),
    {
        match lex(self.input.as_bytes(), self.pos) {
            Some(found) => found.token == tok,
            None => false,
        }
    }

    /// Make an `Ident` from the given slice
    pub fn mk_ident(&self) -> (r: Ident)
        requires
            self.wf(),
            self.current() is Some,
        ensures
            r@ == text(
                self.source(),
                self.current()->0.start as int,
                self.current()->0.end as int,
            ),
    {
        Ident::new(self.slice())
    }

    /// Create an `Ident`
    pub fn ident(&mut self) -> (r: Result<Ident, ParseError>)
        requires
            old(self).wf(),
        ensures
            final(self).wf(),
            final(self).source() == old(self).source(),
            match expect_spec(old(self).source(), old(self).position(), Token::Identifier) {
                Err(e) => r == Err::<Ident, ParseError>(e),
                Ok(found) => r is Ok && r->Ok_0@ == text(
                    old(self).source(),
                    found.start as int,
                    found.end as int,
                ) && final(self).current() == Some(found) && final(self).position() == found.end
                    && old(self).position() < found.end <= old(self).source().len(),
            },
    {
        match self.expect(Token::Identifier) {
            Err(e) => Err(e),
            Ok(()) => Ok(self.mk_ident()),
        }
    }

    /// Make a number from the given token
    pub fn mk_number(&self) -> (r: Result<SycValue, ParseError>)
        requires
            self.wf(),
            self.current() is Some,
        ensures
            match parse_i32_spec(
                self.source().subrange(
                    self.current()->0.start as int,
                    self.current()->0.end as int,
                ),
            ) {
                Some(value) => r == Ok::<SycValue, ParseError>(SycValue::I32(value)),
                None => r == Err::<SycValue, ParseError>(
                    ParseError::InvalidNumber { at: self.current()->0.start },
                ),
            },
    {
        match self.current {
            Some(found) => match parse_i32(self.input.as_bytes(), found.start, found.end) {
                Some(value) => Ok(SycValue::I32(value)),
                None => Err(ParseError::InvalidNumber { at: found.start }),
            },
            None => Err(ParseError::UnexpectedEof),
        }
    }

    /// Make a `StrLit` from the given slice, which must be a string
    /// literal: the text between its quotes.
    pub fn mk_str_lit(&self) -> (r: StrLit)
        requires
            self.wf(),
            self.current() is Some,
            self.current()->0.token == Token::StringLiteral,
        ensures
            r@ == text(self.source(), self.current()->0.start + 1, self.current()->0.end - 1),
    {
        proof {
            vstd::utf8::encode_utf8_valid_utf8(self.input@);
        }
        match self.current {
            Some(found) => {
                proof {
                    lemma_boundary_after_ascii(self.input.spec_bytes(), found.start as int);
                    lemma_boundary_before(self.input.spec_bytes(), found.end - 1);
                }
                // Get rid of the quotes here
                StrLit::new(slice_between(self.input, found.start + 1, found.end - 1))
            },
            None => StrLit::new(self.input),
        }
    }

    /// Create a `StrLit`
    pub fn string_literal(&mut self) -> (r: Result<StrLit, ParseError>)
        requires
            old(self).wf(),
        ensures
            final(self).wf(),
            final(self).source() == old(self).source(),
            match expect_spec(old(self).source(), old(self).position(), Token::StringLiteral) {
                Err(e) => r == Err::<StrLit, ParseError>(e),
                Ok(found) => r is Ok && r->Ok_0@ == text(
                    old(self).source(),
                    found.start + 1,
                    found.end - 1,
                ) && final(self).current() == Some(found) && final(self).position() == found.end
                    && old(self).position() < found.end <= old(self).source().len(),
            },
    {
        match self.expect(Token::StringLiteral) {
            Err(e) => Err(e),
            Ok(()) => Ok(self.mk_str_lit()),
        }
    }

    /// Parse args for a function call
    pub fn parse_args(&mut self) -> (r: Result<Vec<Type>, ParseError>)
        requires
            old(self).wf(),
        ensures
            final(self).wf(),
            final(self).source() == old(self).source(),
            match args_spec(old(self).source(), old(self).position()) {
                Err(e) => r == Err::<Vec<Type>, ParseError>(e),
                Ok(end) => r is Ok && r->Ok_0@ == Seq::<Type>::empty() && final(self).position()
                    == end && old(self).position() < end <= old(self).source().len(),
            },
    {
        match self.expect(Token::LParen) {
            Err(e) => {
                return Err(e);
            },
            Ok(()) => {},
        }
        let args: Vec<Type> = Vec::new();
        match self.next() {
            Err(e) => Err(e),
            Ok(Token::RParen) => Ok(args),
            Ok(_) => {
                let at = match self.current {
                    Some(found) => found.start,
                    None => 0,
                };
                Err(ParseError::Unsupported { at })
            },
        }
    }

    /// Parses what follows the word of a print statement.
    fn parse_print(&mut self) -> (r: Result<StrLit, ParseError>)
        requires
            old(self).wf(),
        ensures
            final(self).wf(),
            final(self).source() == old(self).source(),
            match print_spec(old(self).source(), old(self).position()) {
                Err(e) => r == Err::<StrLit, ParseError>(e),
                Ok((literal, end)) => r is Ok && r->Ok_0@ == literal && final(self).position()
                    == end && old(self).position() < end <= old(self).source().len(),
            },
    {
        match self.expect(Token::LParen) {
            Err(e) => {
                return Err(e);
            },
            Ok(()) => {},
        }
        let str_lit = match self.string_literal() {
            Err(e) => {
                return Err(e);
            },
            Ok(str_lit) => str_lit,
        };
        match self.expect(Token::RParen) {
            Err(e) => {
                return Err(e);
            },
            Ok(()) => {},
        }
        match self.expect(Token::SemiColon) {
            Err(e) => Err(e),
            Ok(()) => Ok(str_lit),
        }
    }

    /// Parses what follows the name of an assignment.
    fn parse_assignment(&mut self) -> (r: Result<SycValue, ParseError>)
        requires
            old(self).wf(),
        ensures
            final(self).wf(),
            final(self).source() == old(self).source(),
            match assignment_spec(old(self).source(), old(self).position()) {
                Err(e) => r == Err::<SycValue, ParseError>(e),
                Ok((value, end)) => r == Ok::<SycValue, ParseError>(value)
                    && final(self).position() == end
                    && old(self).position() < end <= old(self).source().len(),
            },
    {
        match self.expect(Token::Assign) {
            Err(e) => {
                return Err(e);
            },
            Ok(()) => {},
        }
        match self.next() {
            Err(e) => {
                return Err(e);
            },
            Ok(_) => {},
        }
        let value = match self.mk_number() {
            Err(e) => {
                return Err(e);
            },
            Ok(value) => value,
        };
        match self.expect(Token::SemiColon) {
            Err(e) => Err(e),
            Ok(()) => Ok(value),
        }
    }

    /// Parses what follows the name of a call.
    fn parse_call(&mut self) -> (r: Result<Vec<Type>, ParseError>)
        requires
            old(self).wf(),
        ensures
            final(self).wf(),
            final(self).source() == old(self).source(),
            match call_spec(old(self).source(), old(self).position()) {
                Err(e) => r == Err::<Vec<Type>, ParseError>(e),
                Ok(end) => r is Ok && r->Ok_0@ == Seq::<Type>::empty() && final(self).position()
                    == end && old(self).position() < end <= old(self).source().len(),
            },
    {
        let input = match self.parse_args() {
            Err(e) => {
                return Err(e);
            },
            Ok(input) => input,
        };
        match self.expect(Token::SemiColon) {
            Err(e) => Err(e),
            Ok(()) => Ok(input),
        }
    }

    /// Parses the statement that starts with the identifier taken last.
    fn parse_word(&mut self) -> (r: Result<Statement, ParseError>)
        requires
            old(self).wf(),
            old(self).current() is Some,
            old(self).position() == old(self).current()->0.end,
        ensures
            final(self).wf(),
            final(self).source() == old(self).source(),
            match word_statement(old(self).source(), old(self).current()->0) {
                Err(e) => r == Err::<Statement, ParseError>(e),
                Ok((statement, end)) => r is Ok
                    && r->Ok_0@ == statement && final(self).position() == end
                    && old(self).position() < end <= old(self).source().len(),
            },
    {
        reveal(word_statement);
        let ident = self.mk_ident();
        let word = match self.current {
            Some(found) => found,
            None => Lexeme { token: Token::Identifier, start: 0, end: 0 },
        };
        let bytes = self.input.as_bytes();
        if is_word(bytes, word.start, word.end, "println") {
            match self.parse_print() {
                Err(e) => Err(e),
                Ok(str_lit) => Ok(Statement::Wasi(Wasi::Println(str_lit))),
            }
        } else if is_word(bytes, word.start, word.end, "print") {
            match self.parse_print() {
                Err(e) => Err(e),
                Ok(str_lit) => Ok(Statement::Wasi(Wasi::Print(str_lit))),
            }
        } else if self.peek(Token::Assign) {
            match self.parse_assignment() {
                Err(e) => Err(e),
                Ok(value) => Ok(Statement::Assignment { name: ident, value }),
            }
        } else {
            match self.parse_call() {
                Err(e) => Err(e),
                Ok(input) => Ok(Statement::FnCall { name: ident, input }),
            }
        }
    }

    /// Parses one step inside a block: `None` at its closing brace, one
    /// more statement otherwise.
    fn parse_step(&mut self) -> (r: Result<Option<Statement>, ParseError>)
        requires
            old(self).wf(),
        ensures
            final(self).wf(),
            final(self).source() == old(self).source(),
            match block_step(old(self).source(), old(self).position()) {
                Err(e) => r == Err::<Option<Statement>, ParseError>(e),
                Ok(BlockStep::End { end }) => r is Ok
                    && r->Ok_0 is None && final(self).position() == end
                    && old(self).position() < end <= old(self).source().len(),
                Ok(BlockStep::Item { statement, end }) => r is Ok && r->Ok_0 is Some
                    && r->Ok_0->0@ == statement
                        && final(self).position() == end
                        && old(self).position() < end <= old(self).source().len(),
            },
    {
        reveal(block_step);
        match self.next_opt() {
            None => Err(ParseError::UnexpectedEof),
            Some(Token::Identifier) => match self.parse_word() {
                Err(e) => Err(e),
                Ok(statement) => Ok(Some(statement)),
            },
            Some(Token::Terminate) => match self.expect(Token::SemiColon) {
                Err(e) => Err(e),
                Ok(()) => Ok(Some(Statement::Terminate)),
            },
            Some(Token::RCurly) => Ok(None),
            Some(token) => {
                let at = match self.current {
                    Some(found) => found.start,
                    None => 0,
                };
                if token.reserved() {
                    Err(ParseError::Unsupported { at })
                } else {
                    Err(ParseError::UnexpectedToken { at })
                }
            },
        }
    }

    /// Parse a block of statements
    pub fn parse_block(&mut self) -> (r: Result<Vec<Statement>, ParseError>)
        requires
            old(self).wf(),
        ensures
            final(self).wf(),
            final(self).source() == old(self).source(),
            match block_spec(old(self).source(), old(self).position()) {
                Err(e) => r == Err::<Vec<Statement>, ParseError>(e),
                Ok((statements, end)) => r is Ok && statement_views(r->Ok_0@) == statements
                    && final(self).position() == end
                        && old(self).position() < end <= old(self).source().len(),
            },
    {
        let mut block: Vec<Statement> = Vec::new();
        match self.expect(Token::LCurly) {
            Err(e) => {
                return Err(e);
            },
            Ok(()) => {},
        }
        let ghost s = self.source();
        let ghost first = self.position();
        assert(statement_views(block@) =~= Seq::<StatementView>::empty());
        loop
            invariant
                self.wf(),
                self.source() == s,
                s == old(self).source(),
                old(self).position() < first <= self.position() <= s.len(),
                block_spec(s, old(self).position()) == block_items(s, first),
                block_items(s, first) == with_front(
                    statement_views(block@),
                    block_items(s, self.position()),
                ),
            decreases s.len() - self.position(),
        {
            let ghost before = statement_views(block@);
            match self.parse_step() {
                Err(e) => {
                    return Err(e);
                },
                Ok(None) => {
                    assert(before + Seq::<StatementView>::empty() =~= before);
                    return Ok(block);
                },
                Ok(Some(statement)) => {
                    let ghost view = statement@;
                    block.push(statement);
                    proof {
                        assert(statement_views(block@) =~= before.push(view));
                        match block_items(s, self.position()) {
                            Ok((rest, end)) => {
                                assert(before + (seq![view] + rest) =~= before.push(view) + rest);
                            },
                            Err(e) => {},
                        }
                    }
                },
            }
        }
    }

    /// Parses what follows the word `state`.
    fn parse_state(&mut self, terminating: bool) -> (r: Result<Statement, ParseError>)
        requires
            old(self).wf(),
        ensures
            final(self).wf(),
            final(self).source() == old(self).source(),
            match state_spec(old(self).source(), old(self).position(), terminating) {
                Err(e) => r == Err::<Statement, ParseError>(e),
                Ok((state, end)) => r is Ok && r->Ok_0@ == state && final(self).position() == end
                    && old(self).position() < end <= old(self).source().len(),
            },
    {
        reveal(state_spec);
        let name = match self.ident() {
            Err(e) => {
                return Err(e);
            },
            Ok(name) => name,
        };
        let input = match self.parse_args() {
            Err(e) => {
                return Err(e);
            },
            Ok(input) => input,
        };
        let statements = match self.parse_block() {
            Err(e) => {
                return Err(e);
            },
            Ok(statements) => statements,
        };
        let state = Statement::StateDefn { terminating, name, input, statements };
        proof {
            lemma_state_body_view(state);
        }
        Ok(state)
    }

    /// Parses one step at the top of a program: `None` at the end of the
    /// text, a state, or nothing where a token was passed over.
    fn parse_top(&mut self) -> (r: Result<Option<Option<Statement>>, ParseError>)
        requires
            old(self).wf(),
        ensures
            final(self).wf(),
            final(self).source() == old(self).source(),
            match program_step(old(self).source(), old(self).position()) {
                Err(e) => r == Err::<Option<Option<Statement>>, ParseError>(e),
                Ok(ProgramStep::End) => r is Ok && r->Ok_0 is None,
                Ok(ProgramStep::State { state, end }) => r is Ok && r->Ok_0 is Some
                    && r->Ok_0->0 is Some && r->Ok_0->0->0@ == state && final(self).position()
                    == end && old(self).position() < end <= old(self).source().len(),
                Ok(ProgramStep::Skip { end }) => r is Ok && r->Ok_0 is Some && r->Ok_0->0 is None
                    && final(self).position() == end
                        && old(self).position() < end <= old(self).source().len(),
            },
    {
        reveal(program_step);
        match self.next_opt() {
            Some(Token::Terminating) => {
                match self.expect(Token::State) {
                    Err(e) => {
                        return Err(e);
                    },
                    Ok(()) => {},
                }
                match self.parse_state(true) {
                    Err(e) => Err(e),
                    Ok(state) => Ok(Some(Some(state))),
                }
            },
            Some(Token::State) => match self.parse_state(false) {
                Err(e) => Err(e),
                Ok(state) => Ok(Some(Some(state))),
            },
            None => Ok(None),
            Some(token) => {
                if token.reserved() {
                    let at = match self.current {
                        Some(found) => found.start,
                        None => 0,
                    };
                    Err(ParseError::Unsupported { at })
                } else {
                    Ok(Some(None))
                }
            },
        }
    }

    /// Parse the input into the final output
    pub fn parse(self) -> (r: Result<Vec<Statement>, ParseError>)
        requires
            self.wf(),
        ensures
            match program_spec(self.source(), self.position()) {
                Err(e) => r == Err::<Vec<Statement>, ParseError>(e),
                Ok(states) => r is Ok && statement_views(r->Ok_0@) == states,
            },
    {
        let mut parser = self;
        let mut statements: Vec<Statement> = Vec::new();
        let ghost s = self.source();
        let ghost first = self.position();
        assert(statement_views(statements@) =~= Seq::<StatementView>::empty());
        loop
            invariant
                parser.wf(),
                parser.source() == s,
                s == self.source(),
                first == self.position(),
                first <= parser.position() <= s.len(),
                program_spec(s, first) == with_states(
                    statement_views(statements@),
                    program_spec(s, parser.position()),
                ),
            decreases s.len() - parser.position(),
        {
            let ghost before = statement_views(statements@);
            match parser.parse_top() {
                Err(e) => {
                    return Err(e);
                },
                Ok(None) => {
                    assert(before + Seq::<StatementView>::empty() =~= before);
                    return Ok(statements);
                },
                Ok(Some(None)) => {},
                Ok(Some(Some(state))) => {
                    let ghost view = state@;
                    statements.push(state);
                    proof {
                        assert(statement_views(statements@) =~= before.push(view));
                        match program_spec(s, parser.position()) {
                            Ok(rest) => {
                                assert(before + (seq![view] + rest) =~= before.push(view) + rest);
                            },
                            Err(e) => {},
                        }
                    }
                },
            }
        }
    }
}

} // verus!
