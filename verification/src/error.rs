//! Why a compilation stops.

use crate::parser::Token;
use vstd::prelude::*;

verus! {

/// Why the parser rejects a text. Parsing stops at the first of these.
/// Positions are byte offsets into the text.
#[derive(Debug, Clone, Copy, PartialEq, Eq, Structural)]
pub enum ParseError {
    /// The text ends where a token was required.
    UnexpectedEof,
    /// The token at `at` is not `token`, which was required there.
    Expected { token: Token, at: usize },
    /// The token at `at` cannot start a statement.
    UnexpectedToken { at: usize },
    /// The token at `at` belongs to what the language recognises and does
    /// not support: it is a reserved word, or it stands where an argument
    /// would.
    Unsupported { at: usize },
    /// The token at `at` is not a number that fits in 32 bits.
    InvalidNumber { at: usize },
}

/// Why the code generator rejects a program. Compilation stops at the first
/// of these it meets and produces no module.
#[derive(Debug, Clone, Copy, PartialEq, Eq, Structural)]
pub enum CompileError {
    /// The statement at `index` of the program is not a state definition.
    NotAState { index: usize },
    /// The state at `index` of the program carries the name of a state
    /// declared before it.
    DuplicateState { index: usize },
    /// The state at `index` has no position in the function index space:
    /// its name was not declared before it was emitted.
    UndeclaredState { index: usize },
    /// The entry state is not marked as terminating.
    EntryNotTerminal,
    /// The entry state declares parameters.
    EntryHasParameters,
    /// Statement `statement` of the state at `state` defines a state inside
    /// a state.
    NestedState { state: usize, statement: usize },
    /// Statement `statement` of the state at `state` calls a state that the
    /// program does not declare.
    UnresolvedSymbol { state: usize, statement: usize },
    /// No state carries the entry name.
    MissingEntry,
    /// The string literals do not fit below the scratch region of the
    /// memory.
    LiteralOverflow,
    /// A count or a section outgrows what the binary format can express.
    ModuleTooLarge,
    /// A function body holds an instruction that the binary format cannot
    /// express: a store with an alignment of 64 or more.
    InvalidInstruction,
}

} // verus!
