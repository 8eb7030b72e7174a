//! The code generator: from a program to the sections of a module, and from
//! the sections to the module's bytes.

use crate::context::SycContext;
use crate::types::{Statement, StrLit};
use crate::wasm::{
    views, DataSegment, DataSegmentView, ExportEntry, ExportEntryView, FuncType, FuncTypeView,
    FunctionBody, FunctionBodyView, Import, ImportView, Instruction, LocalNames, LocalNamesView,
    MemoryType,
};
use vstd::prelude::*;

verus! {

/// The size of the linear memory in bytes: one page.
pub const MAX_MEM: i32 = 65536;

/// Where the host stores the number of bytes it wrote: the last four bytes of
/// the memory.
pub const RESULT_IDX: i32 = 65532;

/// How many descriptors the scratch region has room for.
pub const SCRATCH_ITEMS: usize = 2;

/// The first byte of the scratch region. The region holds `SCRATCH_ITEMS`
/// descriptors of eight bytes and the result slot, and ends where the memory
/// ends. String literals are laid out below it.
pub const SCRATCH_START: u32 = 65516;

/// A string literal with the offset of its first byte in the data section.
#[derive(Debug)]
pub struct LiteralEntry {
    pub literal: StrLit,
    pub offset: u32,
}

impl View for LiteralEntry {
    type V = (Seq<char>, u32);

    open spec fn view(&self) -> (Seq<char>, u32) {
        (self.literal@, self.offset)
    }
}

/// The state of a compilation: the program, the sections built so far, and
/// the tables that assign indices and offsets.
#[derive(Debug)]
pub struct Codegen {
    /// Whether the caller wants diagnostic output. Carried, never read here.
    pub debug: bool,
    /// The program to compile.
    pub stmt: Vec<Statement>,
    pub imports: Vec<Import>,
    pub data: Vec<DataSegment>,
    pub memory: Vec<MemoryType>,
    pub types: Vec<FuncType>,
    pub functions: Vec<u32>,
    pub exports: Vec<ExportEntry>,
    pub codes: Vec<FunctionBody>,
    /// The debug names of each emitted function's locals.
    pub local_names: Vec<LocalNames>,
    /// The literals laid out so far, in the order they were met.
    pub literal_table: Vec<LiteralEntry>,
    /// The first free byte of the data section: the next literal starts here.
    pub data_end: u32,
    /// The function index space: the name at position `k` belongs to
    /// function `k`. Imports come first, then the states.
    pub fn_map: Vec<String>,
    /// The function being emitted, if any.
    pub current_func: Option<FunctionBody>,
    pub ctx: SycContext,
}

/// What a `Codegen` has built, as a mathematical value. The program itself
/// and the wish for diagnostic output are not part of it.
pub struct CodegenView {
    pub imports: Seq<ImportView>,
    pub data: Seq<DataSegmentView>,
    pub memory: Seq<MemoryType>,
    pub types: Seq<FuncTypeView>,
    pub functions: Seq<u32>,
    pub exports: Seq<ExportEntryView>,
    pub codes: Seq<FunctionBodyView>,
    pub local_names: Seq<LocalNamesView>,
    pub literal_table: Seq<(Seq<char>, u32)>,
    pub data_end: u32,
    pub fn_map: Seq<Seq<char>>,
    pub current_func: Option<FunctionBodyView>,
    pub literal_offsets: Seq<(u32, u32)>,
}

impl View for Codegen {
    type V = CodegenView;

    open spec fn view(&self) -> CodegenView {
        CodegenView {
            imports: views(self.imports@),
            data: views(self.data@),
            memory: self.memory@,
            types: views(self.types@),
            functions: self.functions@,
            exports: views(self.exports@),
            codes: views(self.codes@),
            local_names: views(self.local_names@),
            literal_table: views(self.literal_table@),
            data_end: self.data_end,
            fn_map: views(self.fn_map@),
            current_func: match self.current_func {
                Some(f) => Some(f@),
                None => None,
            },
            literal_offsets: self.ctx@,
        }
    }
}

impl CodegenView {
    /// A compilation that has built nothing yet.
    pub open spec fn empty() -> CodegenView {
        CodegenView {
            imports: seq![],
            data: seq![],
            memory: seq![],
            types: seq![],
            functions: seq![],
            exports: seq![],
            codes: seq![],
            local_names: seq![],
            literal_table: seq![],
            data_end: 0,
            fn_map: seq![],
            current_func: None,
            literal_offsets: seq![],
        }
    }

    /// The same compilation with `instructions` appended to the function
    /// being emitted.
    pub open spec fn emit(self, instructions: Seq<Instruction>) -> CodegenView
        recommends
            self.current_func is Some,
    {
        CodegenView {
            current_func: Some(
                FunctionBodyView {
                    locals: self.current_func->0.locals,
                    instructions: self.current_func->0.instructions + instructions,
                },
            ),
            ..self
        }
    }
}

/// Two compilations are the same when each part of one holds what the same
/// part of the other holds.
pub proof fn lemma_same_parts(a: CodegenView, b: CodegenView)
    requires
        a.imports =~= b.imports,
        a.data =~= b.data,
        a.memory =~= b.memory,
        a.types =~= b.types,
        a.functions =~= b.functions,
        a.exports =~= b.exports,
        a.codes =~= b.codes,
        a.local_names =~= b.local_names,
        a.literal_table =~= b.literal_table,
        a.data_end == b.data_end,
        a.fn_map =~= b.fn_map,
        a.literal_offsets =~= b.literal_offsets,
        a.current_func is Some <==> b.current_func is Some,
        a.current_func is Some ==> a.current_func->0.locals =~= b.current_func->0.locals,
        a.current_func is Some ==> a.current_func->0.instructions
            =~= b.current_func->0.instructions,
    ensures
        a == b,
{
}

/// Appending instructions in two steps appends them all.
pub proof fn lemma_emit_emit(cg: CodegenView, a: Seq<Instruction>, b: Seq<Instruction>)
    requires
        cg.current_func is Some,
    ensures
        cg.emit(a).emit(b) == cg.emit(a + b),
{
    lemma_same_parts(cg.emit(a).emit(b), cg.emit(a + b));
}

/// Appending no instruction changes nothing.
pub proof fn lemma_emit_nothing(cg: CodegenView)
    requires
        cg.current_func is Some,
    ensures
        cg.emit(seq![]) == cg,
{
    lemma_same_parts(cg.emit(seq![]), cg);
}

impl Codegen {
    pub fn new(stmt: Vec<Statement>, debug: bool) -> (r: Self)
        ensures
            r@ == CodegenView::empty(),
            r.stmt == stmt,
            r.debug == debug,
    {
        let r = Self {
            debug,
            stmt,
            imports: Vec::new(),
            data: Vec::new(),
            memory: Vec::new(),
            types: Vec::new(),
            functions: Vec::new(),
            exports: Vec::new(),
            codes: Vec::new(),
            local_names: Vec::new(),
            literal_table: Vec::new(),
            data_end: 0,
            fn_map: Vec::new(),
            current_func: None,
            ctx: SycContext::new(),
        };
        proof {
            lemma_same_parts(r@, CodegenView::empty());
        }
        r
    }

    /// Appends one instruction to the function being emitted.
    pub fn instruction(&mut self, instruction: Instruction)
        requires
            old(self).current_func is Some,
        ensures
            final(self)@ == old(self)@.emit(seq![instruction]),
            final(self).stmt == old(self).stmt,
            final(self).debug == old(self).debug,
    {
        match &mut self.current_func {
            Some(f) => {
                f.instructions.push(instruction);
            },
            None => {},
        }
        proof {
            lemma_same_parts(self@, old(self)@.emit(seq![instruction]));
        }
    }
}

} // verus!
