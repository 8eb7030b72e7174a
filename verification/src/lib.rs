//! A compiler for sycamore, a small language of states, to WebAssembly.
//!
//! A text is parsed into states, the states are lowered into the sections of
//! a module, and the sections are encoded into the module's bytes. What each
//! step gives is stated over a mathematical model of it, and proved.

pub mod assemble;
pub mod codegen;
pub mod context;
pub mod emit;
pub mod encoder;
pub mod error;
pub mod laws;
pub mod lexer;
pub mod lower;
pub mod number;
pub mod parser;
pub mod text;
pub mod types;
pub mod wasi;
pub mod wasm;

use crate::assemble::generate_spec;
use crate::codegen::Codegen;
use crate::context::{validate, wasm_valid};
use crate::error::{CompileError, ParseError};
use crate::parser::{program_spec, SycParser};
use vstd::prelude::*;
use vstd::string::*;

verus! {

/// Why a text does not compile.
#[derive(Debug, Clone, Copy, PartialEq, Eq, Structural)]
pub enum BuildError {
    /// The text is not a program.
    Parse(ParseError),
    /// The program breaks a rule of the language, or is too large.
    Compile(CompileError),
    /// The validator rejects the module that was generated: the program
    /// goes beyond what a module can hold, or the generator has a defect.
    Invalid,
}

/// What compiling a text gives: the bytes of a valid module, or the first
/// error. It depends on nothing but the text.
pub open spec fn build_spec(source: Seq<u8>) -> Result<Seq<u8>, BuildError> {
    match program_spec(source, 0) {
        Err(e) => Err(BuildError::Parse(e)),
        Ok(program) => match generate_spec(program) {
            Err(e) => Err(BuildError::Compile(e)),
            Ok(wasm) => if wasm_valid(wasm) {
                Ok(wasm)
            } else {
                Err(BuildError::Invalid)
            },
        },
    }
}

/// Hands a generated module on if the validator accepted it.
pub fn accept(wasm: Vec<u8>, valid: bool) -> (r: Result<Vec<u8>, BuildError>)
    ensures
        r == if valid {
            Ok::<Vec<u8>, BuildError>(wasm)
        } else {
            Err::<Vec<u8>, BuildError>(BuildError::Invalid)
        },
{
    if valid {
        Ok(wasm)
    } else {
        Err(BuildError::Invalid)
    }
}

/// Compiles a text to the bytes of a module: parses it, generates the
/// module and has it validated. `debug` is handed on to the generator and
/// changes nothing in the result.
pub fn build(input: &str, debug: bool) -> (r: Result<Vec<u8>, BuildError>)
    ensures
        match r {
            Ok(wasm) => build_spec(input.spec_bytes()) == Ok::<Seq<u8>, BuildError>(wasm@),
            Err(e) => build_spec(input.spec_bytes()) == Err::<Seq<u8>, BuildError>(e),
        },
{
    let parsed = match SycParser::new(input).parse() {
        Err(e) => {
            return Err(BuildError::Parse(e));
        },
        Ok(parsed) => parsed,
    };
    let wasm = match Codegen::new(parsed, debug).generate() {
        Err(e) => {
            return Err(BuildError::Compile(e));
        },
        Ok(wasm) => wasm,
    };
    let valid = validate(wasm.as_slice());
    accept(wasm, valid)
}

/// Compiling one text twice gives the same bytes, or the same error.
pub proof fn law_build_repeats(
    source: Seq<u8>,
    first: Result<Seq<u8>, BuildError>,
    second: Result<Seq<u8>, BuildError>,
)
    requires
        first == build_spec(source),
        second == build_spec(source),
    ensures
        first == second,
{
}

} // verus!
