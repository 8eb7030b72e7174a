//! The lexer: from the bytes of the source text to tokens.
//!
//! At each position the lexer skips whitespace and takes the longest token
//! that starts there. A word that is a keyword is that keyword, and an
//! identifier otherwise. A character that starts no token is an error token
//! of its own, and lexing goes on after it.

use crate::parser::Token;
use crate::text::{lemma_boundary_after_ascii, lemma_boundary_after_run, lemma_boundary_before};
use vstd::prelude::*;
use vstd::string::*;
use vstd::utf8::{is_char_boundary, is_continuation_byte, valid_utf8};

verus! {

/// Whether a byte is a blank, a tab, a line feed or a form feed.
pub open spec fn is_space(b: u8) -> bool {
    b == 0x20 || b == 0x09 || b == 0x0a || b == 0x0c
}

/// Whether a byte is a decimal digit.
pub open spec fn is_digit(b: u8) -> bool {
    0x30 <= b <= 0x39
}

/// Whether a byte can start an identifier: a letter, `$` or `-`.
pub open spec fn is_ident_start(b: u8) -> bool {
    (0x61 <= b <= 0x7a) || (0x41 <= b <= 0x5a) || b == 0x24 || b == 0x2d
}

/// Whether a byte can go on an identifier: a letter, a digit, `$` or `-`.
pub open spec fn is_ident_char(b: u8) -> bool {
    is_ident_start(b) || is_digit(b)
}

/// Whether a byte can follow a backslash in a string literal: one of `t`,
/// `u`, `n` and `"`.
pub open spec fn is_escape(b: u8) -> bool {
    b == 0x74 || b == 0x75 || b == 0x6e || b == 0x22
}

/// The classes of bytes that runs are made of.
#[derive(Debug, Clone, Copy, PartialEq, Eq, Structural)]
pub enum ByteClass {
    Space,
    Digit,
    IdentChar,
    Continuation,
}

impl ByteClass {
    /// Whether a byte belongs to the class.
    pub open spec fn holds(self, b: u8) -> bool {
        match self {
            ByteClass::Space => is_space(b),
            ByteClass::Digit => is_digit(b),
            ByteClass::IdentChar => is_ident_char(b),
            ByteClass::Continuation => is_continuation_byte(b),
        }
    }

    /// Whether a byte belongs to the class.
    pub fn has(&self, b: u8) -> (r: bool)
        ensures
            r == self.holds(b),
    {
        match self {
            ByteClass::Space => b == 0x20 || b == 0x09 || b == 0x0a || b == 0x0c,
            ByteClass::Digit => 0x30 <= b && b <= 0x39,
            ByteClass::IdentChar => (0x61 <= b && b <= 0x7a) || (0x41 <= b && b <= 0x5a) || b
                == 0x24 || b == 0x2d || (0x30 <= b && b <= 0x39),
            ByteClass::Continuation => 0x80 <= b && b <= 0xbf,
        }
    }
}

/// Where the longest run of bytes of one class that starts at `from` ends.
pub open spec fn run_end(s: Seq<u8>, from: int, class: ByteClass) -> int
    decreases s.len() - from,
{
    if 0 <= from < s.len() && class.holds(s[from]) {
        run_end(s, from + 1, class)
    } else {
        from
    }
}

/// Where the string literal ends whose opening quote lies before `from`:
/// after the first double quote that no backslash escapes. There is no end
/// if the text ends first, or if a backslash is followed by anything but an
/// escape character.
pub open spec fn string_end(s: Seq<u8>, from: int) -> Option<int>
    decreases s.len() - from,
{
    if from < 0 || from >= s.len() {
        None
    } else if s[from] == 0x22 {
        Some(from + 1)
    } else if s[from] == 0x5c {
        if from + 1 < s.len() && is_escape(s[from + 1]) {
            string_end(s, from + 2)
        } else {
            None
        }
    } else {
        string_end(s, from + 1)
    }
}

/// The keyword that a word is, if it is one.
pub open spec fn keyword(word: Seq<u8>) -> Option<Token> {
    if word == "and".spec_bytes() {
        Some(Token::And)
    } else if word == "or".spec_bytes() {
        Some(Token::Or)
    } else if word == "equals".spec_bytes() {
        Some(Token::Equals)
    } else if word == "goto".spec_bytes() {
        Some(Token::GoTo)
    } else if word == "terminate".spec_bytes() {
        Some(Token::Terminate)
    } else if word == "unreachable".spec_bytes() {
        Some(Token::Unreachable)
    } else if word == "if".spec_bytes() {
        Some(Token::If)
    } else if word == "else".spec_bytes() {
        Some(Token::Else)
    } else if word == "terminating".spec_bytes() {
        Some(Token::Terminating)
    } else if word == "state".spec_bytes() {
        Some(Token::State)
    } else {
        None
    }
}

/// Where the character ends that starts at `at`: after its first byte and
/// the continuation bytes that follow.
pub open spec fn char_end(s: Seq<u8>, at: int) -> int {
    run_end(s, at + 1, ByteClass::Continuation)
}

/// The token that starts at `at`, and where it ends.
pub open spec fn token_at(s: Seq<u8>, at: int) -> (Token, int)
    recommends
        0 <= at < s.len(),
{
    let b = s[at];
    if b == 0x28 {
        (Token::LParen, at + 1)
    } else if b == 0x29 {
        (Token::RParen, at + 1)
    } else if b == 0x7b {
        (Token::LCurly, at + 1)
    } else if b == 0x7d {
        (Token::RCurly, at + 1)
    } else if b == 0x3b {
        (Token::SemiColon, at + 1)
    } else if b == 0x3c && at + 1 < s.len() && s[at + 1] == 0x2d {
        (Token::Assign, at + 2)
    } else if b == 0x22 {
        match string_end(s, at + 1) {
            Some(end) => (Token::StringLiteral, end),
            None => (Token::Error, char_end(s, at)),
        }
    } else if is_digit(b) {
        (Token::Number, run_end(s, at, ByteClass::Digit))
    } else if is_ident_start(b) {
        let end = run_end(s, at, ByteClass::IdentChar);
        match keyword(s.subrange(at, end)) {
            Some(token) => (token, end),
            None => (Token::Identifier, end),
        }
    } else {
        (Token::Error, char_end(s, at))
    }
}

/// A token with the bytes it spans: from `start` up to `end`.
#[derive(Debug, Clone, Copy, PartialEq, Eq, Structural)]
pub struct Lexeme {
    pub token: Token,
    pub start: usize,
    pub end: usize,
}

/// The next token at or after `pos`, with the bytes it spans; none if only
/// whitespace is left.
pub open spec fn next_lexeme(s: Seq<u8>, pos: int) -> Option<Lexeme> {
    let at = run_end(s, pos, ByteClass::Space);
    if 0 <= at < s.len() {
        Some(Lexeme { token: token_at(s, at).0, start: at as usize, end: token_at(s, at).1 as usize })
    } else {
        None
    }
}

/// A run ends at or after its start and within the text, the bytes of the
/// run belong to the class, and the byte after it, if there is one, does
/// not.
pub proof fn lemma_run_end(s: Seq<u8>, from: int, class: ByteClass)
    requires
        0 <= from <= s.len(),
    ensures
        from <= run_end(s, from, class) <= s.len(),
        forall|k: int| from <= k < run_end(s, from, class) ==> class.holds(#[trigger] s[k]),
        run_end(s, from, class) < s.len() ==> !class.holds(s[run_end(s, from, class)]),
    decreases s.len() - from,
{
    if from < s.len() && class.holds(s[from]) {
        lemma_run_end(s, from + 1, class);
    }
}

/// A string literal ends after its start and within the text, and its last
/// byte is a double quote.
pub proof fn lemma_string_end(s: Seq<u8>, from: int)
    requires
        0 <= from,
        string_end(s, from) is Some,
    ensures
        from < string_end(s, from)->0 <= s.len(),
        s[string_end(s, from)->0 - 1] == 0x22,
    decreases s.len() - from,
{
    if s[from] == 0x22 {
    } else if s[from] == 0x5c {
        lemma_string_end(s, from + 2);
    } else {
        lemma_string_end(s, from + 1);
    }
}

/// A token is not empty and ends within the text.
pub proof fn lemma_token_at(s: Seq<u8>, at: int)
    requires
        0 <= at < s.len(),
    ensures
        at < token_at(s, at).1 <= s.len(),
{
    lemma_run_end(s, at, ByteClass::Digit);
    lemma_run_end(s, at, ByteClass::IdentChar);
    lemma_run_end(s, at + 1, ByteClass::Continuation);
    if s[at] == 0x22 && string_end(s, at + 1) is Some {
        lemma_string_end(s, at + 1);
    }
}

/// The next token starts at or after the position, is not empty and ends
/// within the text; between the position and its start lies whitespace
/// only, and it is never the whitespace token.
pub proof fn lemma_next_lexeme(s: Seq<u8>, pos: int)
    requires
        0 <= pos <= s.len() <= usize::MAX,
        next_lexeme(s, pos) is Some,
    ensures
        pos <= next_lexeme(s, pos)->0.start < next_lexeme(s, pos)->0.end <= s.len(),
        next_lexeme(s, pos)->0.start == run_end(s, pos, ByteClass::Space),
        next_lexeme(s, pos)->0.end == token_at(s, run_end(s, pos, ByteClass::Space)).1,
        next_lexeme(s, pos)->0.token == token_at(s, run_end(s, pos, ByteClass::Space)).0,
        next_lexeme(s, pos)->0.token != Token::Whitespace,
{
    lemma_run_end(s, pos, ByteClass::Space);
    lemma_token_at(s, run_end(s, pos, ByteClass::Space));
}

/// The lexer takes the longest word: a number is made of digits and is
/// followed by none; an identifier or a keyword starts like an identifier,
/// is made of the characters of identifiers and is followed by none; and it
/// is a keyword exactly when its bytes spell one.
pub proof fn law_longest_word(s: Seq<u8>, pos: int)
    requires
        0 <= pos <= s.len() <= usize::MAX,
        next_lexeme(s, pos) is Some,
    ensures
        ({
            let found = next_lexeme(s, pos)->0;
            let word = s.subrange(found.start as int, found.end as int);
            &&& found.token == Token::Number ==> {
                &&& forall|k: int| found.start <= k < found.end ==> is_digit(#[trigger] s[k])
                &&& found.end < s.len() ==> !is_digit(s[found.end as int])
            }
            &&& is_ident_start(s[found.start as int]) ==> {
                &&& forall|k: int| found.start <= k < found.end ==> is_ident_char(#[trigger] s[k])
                &&& found.end < s.len() ==> !is_ident_char(s[found.end as int])
                &&& match keyword(word) {
                    Some(token) => found.token == token,
                    None => found.token == Token::Identifier,
                }
            }
            &&& found.token == Token::Identifier ==> is_ident_start(s[found.start as int])
        }),
{
    let at = run_end(s, pos, ByteClass::Space);
    lemma_next_lexeme(s, pos);
    lemma_run_end(s, pos, ByteClass::Space);
    lemma_run_end(s, at, ByteClass::Digit);
    lemma_run_end(s, at, ByteClass::IdentChar);
}

/// In well-formed text a token that follows a character boundary starts
/// and ends at character boundaries. A string literal starts and ends with
/// a double quote and these are two bytes.
pub proof fn lemma_lexeme_boundaries(s: Seq<u8>, pos: int)
    requires
        valid_utf8(s),
        0 <= pos <= s.len() <= usize::MAX,
        is_char_boundary(s, pos),
        next_lexeme(s, pos) is Some,
    ensures
        is_char_boundary(s, next_lexeme(s, pos)->0.start as int),
        is_char_boundary(s, next_lexeme(s, pos)->0.end as int),
        next_lexeme(s, pos)->0.token == Token::StringLiteral ==> {
            &&& next_lexeme(s, pos)->0.end - next_lexeme(s, pos)->0.start >= 2
            &&& s[next_lexeme(s, pos)->0.start as int] == 0x22
            &&& s[next_lexeme(s, pos)->0.end - 1] == 0x22
        },
{
    let at = run_end(s, pos, ByteClass::Space);
    let end = token_at(s, at).1;
    lemma_next_lexeme(s, pos);
    lemma_run_end(s, pos, ByteClass::Space);
    lemma_boundary_after_run(s, pos, at);
    let b = s[at];
    if b == 0x28 || b == 0x29 || b == 0x7b || b == 0x7d || b == 0x3b {
        lemma_boundary_after_ascii(s, at);
    } else if b == 0x3c && at + 1 < s.len() && s[at + 1] == 0x2d {
        lemma_boundary_after_ascii(s, at + 1);
    } else if b == 0x22 && string_end(s, at + 1) is Some {
        lemma_string_end(s, at + 1);
        lemma_boundary_after_ascii(s, end - 1);
    } else if b != 0x22 && is_digit(b) {
        lemma_run_end(s, at, ByteClass::Digit);
        lemma_boundary_after_run(s, at, end);
    } else if b != 0x22 && is_ident_start(b) {
        lemma_run_end(s, at, ByteClass::IdentChar);
        lemma_boundary_after_run(s, at, end);
    } else {
        lemma_run_end(s, at + 1, ByteClass::Continuation);
        lemma_boundary_before(s, end);
    }
}

/// Finds where the run of bytes of one class that starts at `from` ends.
pub fn scan_run(input: &[u8], from: usize, class: ByteClass) -> (end: usize)
    requires
        from <= input@.len(),
    ensures
        end == run_end(input@, from as int, class),
        from <= end <= input@.len(),
{
    let mut k: usize = from;
    while k < input.len() && class.has(input[k])
        invariant
            from <= k <= input@.len(),
            run_end(input@, from as int, class) == run_end(input@, k as int, class),
        decreases input@.len() - k,
    {
        k += 1;
    }
    k
}

/// Finds where the string literal ends whose opening quote lies before
/// `from`.
pub fn scan_string(input: &[u8], from: usize) -> (end: Option<usize>)
    requires
        from <= input@.len(),
    ensures
        match end {
            Some(end) => string_end(input@, from as int) == Some(end as int) && from < end
                <= input@.len(),
            None => string_end(input@, from as int) is None,
        },
{
    let mut k: usize = from;
    while k < input.len()
        invariant
            from <= k <= input@.len(),
            string_end(input@, from as int) == string_end(input@, k as int),
        decreases input@.len() - k,
    {
        let b = input[k];
        if b == 0x22 {
            return Some(k + 1);
        } else if b == 0x5c {
            if k + 1 < input.len() && (input[k + 1] == 0x74 || input[k + 1] == 0x75 || input[k
                + 1] == 0x6e || input[k + 1] == 0x22) {
                k += 2;
            } else {
                return None;
            }
        } else {
            k += 1;
        }
    }
    None
}

/// Whether the bytes from `start` up to `end` are the bytes of `word`.
pub fn is_word(input: &[u8], start: usize, end: usize, word: &str) -> (r: bool)
    requires
        start <= end <= input@.len(),
    ensures
        r == (input@.subrange(start as int, end as int) == word.spec_bytes()),
{
    let bytes = word.as_bytes();
    if bytes.len() != end - start {
        return false;
    }
    let mut k: usize = 0;
    while k < bytes.len()
        invariant
            start <= end <= input@.len(),
            bytes@ == word.spec_bytes(),
            bytes@.len() == end - start,
            0 <= k <= bytes@.len(),
            forall|i: int| 0 <= i < k ==> input@[start + i] == bytes@[i],
        decreases bytes@.len() - k,
    {
        if input[start + k] != bytes[k] {
            assert(input@.subrange(start as int, end as int)[k as int] != bytes@[k as int]);
            return false;
        }
        k += 1;
    }
    assert(input@.subrange(start as int, end as int) =~= bytes@);
    true
}

/// Finds the keyword that the bytes from `start` up to `end` spell, if
/// they spell one.
pub fn keyword_at(input: &[u8], start: usize, end: usize) -> (r: Option<Token>)
    requires
        start <= end <= input@.len(),
    ensures
        r == keyword(input@.subrange(start as int, end as int)),
{
    if is_word(input, start, end, "and") {
        Some(Token::And)
    } else if is_word(input, start, end, "or") {
        Some(Token::Or)
    } else if is_word(input, start, end, "equals") {
        Some(Token::Equals)
    } else if is_word(input, start, end, "goto") {
        Some(Token::GoTo)
    } else if is_word(input, start, end, "terminate") {
        Some(Token::Terminate)
    } else if is_word(input, start, end, "unreachable") {
        Some(Token::Unreachable)
    } else if is_word(input, start, end, "if") {
        Some(Token::If)
    } else if is_word(input, start, end, "else") {
        Some(Token::Else)
    } else if is_word(input, start, end, "terminating") {
        Some(Token::Terminating)
    } else if is_word(input, start, end, "state") {
        Some(Token::State)
    } else {
        None
    }
}

/// Finds the next token at or after `pos`.
pub fn lex(input: &[u8], pos: usize) -> (r: Option<Lexeme>)
    requires
        pos <= input@.len(),
    ensures
        r == next_lexeme(input@, pos as int),
        r is Some ==> pos <= r->0.start < r->0.end <= input@.len(),
{
    let at = scan_run(input, pos, ByteClass::Space);
    if at >= input.len() {
        return None;
    }
    proof {
        lemma_token_at(input@, at as int);
    }
    let b = input[at];
    let (token, end) = if b == 0x28 {
        (Token::LParen, at + 1)
    } else if b == 0x29 {
        (Token::RParen, at + 1)
    } else if b == 0x7b {
        (Token::LCurly, at + 1)
    } else if b == 0x7d {
        (Token::RCurly, at + 1)
    } else if b == 0x3b {
        (Token::SemiColon, at + 1)
    } else if b == 0x3c && at + 1 < input.len() && input[at + 1] == 0x2d {
        (Token::Assign, at + 2)
    } else if b == 0x22 {
        match scan_string(input, at + 1) {
            Some(end) => (Token::StringLiteral, end),
            None => (Token::Error, scan_run(input, at + 1, ByteClass::Continuation)),
        }
    } else if 0x30 <= b && b <= 0x39 {
        (Token::Number, scan_run(input, at, ByteClass::Digit))
    } else if (0x61 <= b && b <= 0x7a) || (0x41 <= b && b <= 0x5a) || b == 0x24 || b == 0x2d {
        let end = scan_run(input, at, ByteClass::IdentChar);
        match keyword_at(input, at, end) {
            Some(token) => (token, end),
            None => (Token::Identifier, end),
        }
    } else {
        (Token::Error, scan_run(input, at + 1, ByteClass::Continuation))
    };
    Some(Lexeme { token, start: at, end })
}

} // verus!
