//! Plain-value descriptions of the parts of a WebAssembly module.
//!
//! The code generator fills these in; the encoder turns them into bytes. Each
//! type that owns heap data has a view made of `Seq`s, so that contracts can
//! state what a section holds.

use vstd::prelude::*;

verus! {

/// The type of a WebAssembly value. Only 32-bit integers occur so far.
#[derive(Debug, Clone, Copy, PartialEq, Eq, Structural)]
pub enum ValType {
    I32,
}

/// The immediate of a memory instruction.
#[derive(Debug, Clone, Copy, PartialEq, Eq, Structural)]
pub struct MemArg {
    pub offset: u64,
    pub align: u32,
    pub memory_index: u32,
}

/// The instructions the code generator emits.
#[derive(Debug, Clone, Copy, PartialEq, Eq, Structural)]
pub enum Instruction {
    I32Const(i32),
    LocalSet(u32),
    Call(u32),
    I32Store(MemArg),
    Drop,
    End,
}

impl Instruction {
    /// Whether the binary format can hold the instruction. In a store, bit
    /// 6 of the alignment says that a memory index follows, so the
    /// alignment itself must stay below 64.
    pub open spec fn is_encodable(self) -> bool {
        match self {
            Instruction::I32Store(arg) => arg.align < 64,
            _ => true,
        }
    }

    /// Whether the binary format can hold the instruction.
    pub fn encodable(&self) -> (r: bool)
        ensures
            r == self.is_encodable(),
    {
        match self {
            Instruction::I32Store(arg) => arg.align < 64,
            _ => true,
        }
    }
}

/// The limits of a linear memory, in pages.
#[derive(Debug, Clone, Copy, PartialEq, Eq, Structural)]
pub struct MemoryType {
    pub minimum: u64,
    pub maximum: Option<u64>,
    pub memory64: bool,
}

/// What an export refers to, with its index.
#[derive(Debug, Clone, Copy, PartialEq, Eq, Structural)]
pub enum Export {
    Function(u32),
    Memory(u32),
}

/// A function signature.
#[derive(Debug)]
pub struct FuncType {
    pub params: Vec<ValType>,
    pub results: Vec<ValType>,
}

pub struct FuncTypeView {
    pub params: Seq<ValType>,
    pub results: Seq<ValType>,
}

impl View for FuncType {
    type V = FuncTypeView;

    open spec fn view(&self) -> FuncTypeView {
        FuncTypeView { params: self.params@, results: self.results@ }
    }
}

/// An imported function: where it comes from and the index of its signature.
#[derive(Debug)]
pub struct Import {
    pub module: String,
    pub field: String,
    pub type_index: u32,
}

pub struct ImportView {
    pub module: Seq<char>,
    pub field: Seq<char>,
    pub type_index: u32,
}

impl View for Import {
    type V = ImportView;

    open spec fn view(&self) -> ImportView {
        ImportView { module: self.module@, field: self.field@, type_index: self.type_index }
    }
}

/// One entry of the export section.
#[derive(Debug)]
pub struct ExportEntry {
    pub name: String,
    pub export: Export,
}

pub struct ExportEntryView {
    pub name: Seq<char>,
    pub export: Export,
}

impl View for ExportEntry {
    type V = ExportEntryView;

    open spec fn view(&self) -> ExportEntryView {
        ExportEntryView { name: self.name@, export: self.export }
    }
}

/// A function body: the types of its locals, one per slot, and its
/// instructions.
#[derive(Debug)]
pub struct FunctionBody {
    pub locals: Vec<ValType>,
    pub instructions: Vec<Instruction>,
}

pub struct FunctionBodyView {
    pub locals: Seq<ValType>,
    pub instructions: Seq<Instruction>,
}

impl View for FunctionBody {
    type V = FunctionBodyView;

    open spec fn view(&self) -> FunctionBodyView {
        FunctionBodyView { locals: self.locals@, instructions: self.instructions@ }
    }
}

/// An active data segment: bytes copied to `offset` of a memory when the
/// module is instantiated.
#[derive(Debug)]
pub struct DataSegment {
    pub memory_index: u32,
    pub offset: i32,
    pub data: Vec<u8>,
}

pub struct DataSegmentView {
    pub memory_index: u32,
    pub offset: i32,
    pub data: Seq<u8>,
}

impl View for DataSegment {
    type V = DataSegmentView;

    open spec fn view(&self) -> DataSegmentView {
        DataSegmentView { memory_index: self.memory_index, offset: self.offset, data: self.data@ }
    }
}

/// The debug names of one function's locals; the name at position `k` belongs
/// to local slot `k`.
#[derive(Debug)]
pub struct LocalNames {
    pub function: u32,
    pub names: Vec<String>,
}

pub struct LocalNamesView {
    pub function: u32,
    pub names: Seq<Seq<char>>,
}

impl View for LocalNames {
    type V = LocalNamesView;

    open spec fn view(&self) -> LocalNamesView {
        LocalNamesView { function: self.function, names: views(self.names@) }
    }
}

/// The views of the items of a sequence, in order.
pub open spec fn views<T: View>(s: Seq<T>) -> Seq<T::V> {
    s.map_values(|t: T| t@)
}

} // verus!
