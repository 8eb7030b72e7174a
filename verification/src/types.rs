//! The program model: what the parser builds and the code generator reads.

use crate::wasi::{Wasi, WasiView};
use crate::wasm::ValType;
use vstd::prelude::*;
use vstd::utf8::encode_utf8;

verus! {

/// An identifier for a state, a variable or a call target. Two identifiers
/// are the same when their text is.
#[derive(Debug, Clone)]
pub struct Ident(String);

impl View for Ident {
    type V = Seq<char>;

    closed spec fn view(&self) -> Seq<char> {
        self.0@
    }
}

impl Ident {
    /// Create a new `Ident`
    pub fn new(input: &str) -> (r: Self)
        ensures
            r@ == input@,
    {
        Ident(input.to_owned())
    }

    /// Get an `&str` of the `Ident`
    pub fn as_str(&self) -> (r: &str)
        ensures
            r@ == self@,
    {
        self.0.as_str()
    }
}

impl PartialEq for Ident {
    fn eq(&self, other: &Self) -> (r: bool) {
        self.0 == other.0
    }
}

impl Eq for Ident {

}

impl vstd::std_specs::cmp::PartialEqSpecImpl for Ident {
    open spec fn obeys_eq_spec() -> bool {
        true
    }

    open spec fn eq_spec(&self, other: &Self) -> bool {
        self@ == other@
    }
}

/// A string literal of the source, kept as it was written between the quotes.
#[derive(Debug, Clone)]
pub struct StrLit(String);

impl View for StrLit {
    type V = Seq<char>;

    closed spec fn view(&self) -> Seq<char> {
        self.0@
    }
}

impl StrLit {
    /// Create a new `StrLit`
    pub fn new(input: &str) -> (r: Self)
        ensures
            r@ == input@,
    {
        StrLit(input.to_owned())
    }

    /// Get an `&str` of the `StrLit`
    pub fn as_str(&self) -> (r: &str)
        ensures
            r@ == self@,
    {
        self.0.as_str()
    }

    /// The bytes the literal occupies in the data section: its UTF-8 encoding.
    pub open spec fn bytes(&self) -> Seq<u8> {
        encode_utf8(self@)
    }

    /// Get the length of the `StrLit`, in bytes
    pub fn len(&self) -> (r: usize)
        ensures
            r == self.bytes().len(),
    {
        self.0.as_str().as_bytes().len()
    }
}

impl PartialEq for StrLit {
    fn eq(&self, other: &Self) -> (r: bool) {
        self.0 == other.0
    }
}

impl Eq for StrLit {

}

impl vstd::std_specs::cmp::PartialEqSpecImpl for StrLit {
    open spec fn obeys_eq_spec() -> bool {
        true
    }

    open spec fn eq_spec(&self, other: &Self) -> bool {
        self@ == other@
    }
}

/// The type of a state parameter.
#[derive(Debug, Clone, Copy, PartialEq, Eq, Structural)]
pub enum Type {
    I32,
}

/// A sycamore program type and the value of said type
#[derive(Debug, Clone, Copy, PartialEq, Eq, Structural)]
pub enum SycValue {
    I32(i32),
}

impl SycValue {
    pub fn from_i32(input: i32) -> (r: Self)
        ensures
            r == SycValue::I32(input),
    {
        Self::I32(input)
    }

    /// The WebAssembly type that holds such a value.
    pub open spec fn val_type(self) -> ValType {
        match self {
            SycValue::I32(_) => ValType::I32,
        }
    }

    pub fn as_val_type(&self) -> (r: ValType)
        ensures
            r == self.val_type(),
    {
        match self {
            Self::I32(_) => ValType::I32,
        }
    }
}

/// A `Statement` is the top level item in a sycamore program. It can define
/// items like states or do things inside of them such as `Assignment` or
/// `FnCall`s. A program is a `Vec<Statement>` that gets passed to a `Codegen`
/// in order for code to be generated for it
#[derive(Debug)]
pub enum Statement {
    /// Assigns a value to an `Ident`
    Assignment { name: Ident, value: SycValue },
    /// Defines a state for the program
    StateDefn { terminating: bool, name: Ident, input: Vec<Type>, statements: Vec<Statement> },
    /// Makes a function call for a program
    FnCall { name: Ident, input: Vec<Type> },
    /// Makes a WASI function call
    Wasi(Wasi),
    /// Terminates the program
    Terminate,
}

/// A statement as a mathematical value.
pub enum StatementView {
    Assignment { name: Seq<char>, value: SycValue },
    StateDefn {
        terminating: bool,
        name: Seq<char>,
        input: Seq<Type>,
        statements: Seq<StatementView>,
    },
    FnCall { name: Seq<char>, input: Seq<Type> },
    Wasi(WasiView),
    Terminate,
}

impl Statement {
    /// The statement as a mathematical value.
    pub open spec fn model(&self) -> StatementView
        decreases self,
    {
        match self {
            Statement::Assignment { name, value } => StatementView::Assignment {
                name: name@,
                value: *value,
            },
            Statement::StateDefn { terminating, name, input, statements } => {
                StatementView::StateDefn {
                    terminating: *terminating,
                    name: name@,
                    input: input@,
                    statements: Seq::new(
                        statements@.len(),
                        |i: int|
                            if 0 <= i < statements@.len() {
                                statements@[i].model()
                            } else {
                                StatementView::Terminate
                            },
                    ),
                }
            },
            Statement::FnCall { name, input } => StatementView::FnCall {
                name: name@,
                input: input@,
            },
            Statement::Wasi(wasi) => StatementView::Wasi(wasi@),
            Statement::Terminate => StatementView::Terminate,
        }
    }
}

impl View for Statement {
    type V = StatementView;

    open spec fn view(&self) -> StatementView {
        self.model()
    }
}

impl Clone for Statement {
    /// A copy of the statement, with copies of the statements in it.
    fn clone(&self) -> (r: Self)
        ensures
            r@ == self@,
        decreases self,
    {
        match self {
            Statement::Assignment { name, value } => Statement::Assignment {
                name: Ident::new(name.as_str()),
                value: *value,
            },
            Statement::StateDefn { terminating, name, input, statements } => {
                let mut body: Vec<Statement> = Vec::new();
                let mut k: usize = 0;
                while k < statements.len()
                    invariant
                        0 <= k <= statements.len(),
                        body@.len() == k,
                        forall|i: int| 0 <= i < k ==> body@[i]@ == statements@[i]@,
                        *self is StateDefn,
                        self->StateDefn_statements == statements,
                    decreases statements.len() - k,
                {
                    assert(decreases_to!(self => statements@[k as int]));
                    body.push(statements[k].clone());
                    k += 1;
                }
                let mut types: Vec<Type> = Vec::new();
                let mut k: usize = 0;
                while k < input.len()
                    invariant
                        0 <= k <= input.len(),
                        types@ == input@.take(k as int),
                    decreases input.len() - k,
                {
                    types.push(input[k]);
                    assert(input@.take(k + 1) =~= input@.take(k as int).push(input@[k as int]));
                    k += 1;
                }
                assert(input@.take(input.len() as int) =~= input@);
                let r = Statement::StateDefn {
                    terminating: *terminating,
                    name: Ident::new(name.as_str()),
                    input: types,
                    statements: body,
                };
                proof {
                    lemma_state_body_view(r);
                    lemma_state_body_view(*self);
                    assert(statement_views(body@) =~= statement_views(statements@));
                }
                r
            },
            Statement::FnCall { name, input } => {
                let mut types: Vec<Type> = Vec::new();
                let mut k: usize = 0;
                while k < input.len()
                    invariant
                        0 <= k <= input.len(),
                        types@ == input@.take(k as int),
                    decreases input.len() - k,
                {
                    types.push(input[k]);
                    assert(input@.take(k + 1) =~= input@.take(k as int).push(input@[k as int]));
                    k += 1;
                }
                assert(input@.take(input.len() as int) =~= input@);
                Statement::FnCall { name: Ident::new(name.as_str()), input: types }
            },
            Statement::Wasi(wasi) => Statement::Wasi(
                match wasi {
                    Wasi::Print(literal) => Wasi::Print(StrLit::new(literal.as_str())),
                    Wasi::Println(literal) => Wasi::Println(StrLit::new(literal.as_str())),
                },
            ),
            Statement::Terminate => Statement::Terminate,
        }
    }
}

/// The statements of a sequence as mathematical values, in order.
pub open spec fn statement_views(s: Seq<Statement>) -> Seq<StatementView> {
    Seq::new(s.len(), |i: int| s[i]@)
}

/// The body of a state definition, seen as a view, is the views of its
/// statements.
pub proof fn lemma_state_body_view(s: Statement)
    requires
        s is StateDefn,
    ensures
        s@ is StateDefn,
        s@->StateDefn_statements == statement_views(s->StateDefn_statements@),
{
    assert(s@->StateDefn_statements =~= statement_views(s->StateDefn_statements@));
}

} // verus!
