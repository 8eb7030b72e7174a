//! Host I/O: the statements that print, and the calling convention of the
//! host's write entry point.

use crate::codegen::{
    lemma_emit_emit, lemma_emit_nothing, lemma_same_parts, Codegen, CodegenView, LiteralEntry,
    MAX_MEM, RESULT_IDX, SCRATCH_ITEMS, SCRATCH_START,
};
use crate::error::CompileError;
use crate::laws::{law_literal_placed, offset_is_sum};
use crate::types::StrLit;
use crate::wasm::{
    views, DataSegment, DataSegmentView, FuncType, FuncTypeView, Import, ImportView, Instruction,
    MemArg, ValType,
};
use vstd::prelude::*;
use vstd::string::*;
use vstd::utf8::encode_utf8;

verus! {

/// Enum of types of Input and Output that `sycamore` can do
#[derive(Debug, Clone)]
pub enum Wasi {
    /// Print a given string literal
    Print(StrLit),
    /// Print a given string literal with a newline
    Println(StrLit),
}

/// A host I/O request as a mathematical value.
pub enum WasiView {
    Print(Seq<char>),
    Println(Seq<char>),
}

impl View for Wasi {
    type V = WasiView;

    open spec fn view(&self) -> WasiView {
        match self {
            Wasi::Print(literal) => WasiView::Print(literal@),
            Wasi::Println(literal) => WasiView::Println(literal@),
        }
    }
}

impl WasiView {
    /// The text to be written, without the newline a `Println` adds.
    pub open spec fn literal(self) -> Seq<char> {
        match self {
            WasiView::Print(literal) => literal,
            WasiView::Println(literal) => literal,
        }
    }
}

impl Wasi {
    pub fn is_println(&self) -> (r: bool)
        ensures
            r == (self@ is Println),
    {
        match self {
            Wasi::Println(_) => true,
            _ => false,
        }
    }

    /// The literal to be written.
    pub fn literal(&self) -> (r: &StrLit)
        ensures
            r@ == self@.literal(),
    {
        match self {
            Wasi::Print(literal) => literal,
            Wasi::Println(literal) => literal,
        }
    }
}

/// File Descriptor for the location of standard out
pub const STDOUT: i32 = 1;

/// The function index of the host's write entry point.
pub const FD_WRITE: u32 = 0;

/// Where the newline byte lies in the data section.
pub const NEWLINE_OFFSET: i32 = 0;

/// The length of the newline byte.
pub const NEWLINE_LEN: i32 = 1;

/// Struct for an entry in an `iov` in WASI. It contains an offset to an item
/// and the length of said item, usually used for printing strings.
#[derive(Debug, Clone, Copy)]
pub struct IoVecItem {
    offset: i32,
    len: i32,
}

impl View for IoVecItem {
    type V = (i32, i32);

    closed spec fn view(&self) -> (i32, i32) {
        (self.offset, self.len)
    }
}

impl IoVecItem {
    /// Create a new `IoVecItem`
    pub fn new(offset: i32, len: i32) -> (r: Self)
        ensures
            r@ == (offset, len),
    {
        Self { offset, len }
    }
}

/// The immediate of every store the generator emits: memory 0, no alignment
/// hint, no offset.
pub open spec fn store_arg() -> MemArg {
    MemArg { offset: 0, align: 0, memory_index: 0 }
}

/// The address of a descriptor array of `n` items: the array and the result
/// slot of four bytes end where the memory ends.
pub open spec fn io_vec_ptr(n: nat) -> int {
    MAX_MEM - (8 * n + 4)
}

/// The instructions that store one descriptor, an (offset, length) pair, at
/// address `at`.
pub open spec fn item_instrs(item: (i32, i32), at: int) -> Seq<Instruction> {
    seq![
        Instruction::I32Const(at as i32),
        Instruction::I32Const(item.0),
        Instruction::I32Store(store_arg()),
        Instruction::I32Const((at + 4) as i32),
        Instruction::I32Const(item.1),
        Instruction::I32Store(store_arg()),
    ]
}

/// The instructions that store a descriptor array at `ptr`, item `k` at
/// `ptr + 8 * k`.
pub open spec fn io_vec_instrs(items: Seq<(i32, i32)>, ptr: int) -> Seq<Instruction>
    decreases items.len(),
{
    if items.len() == 0 {
        seq![]
    } else {
        io_vec_instrs(items.drop_last(), ptr) + item_instrs(
            items.last(),
            ptr + 8 * (items.len() - 1),
        )
    }
}

/// The instructions that ask the host to write the items of a descriptor
/// array to `fd`: store the array, push the four arguments, call, and drop
/// the status the call returns.
pub open spec fn fd_write_instrs(fd: i32, items: Seq<(i32, i32)>) -> Seq<Instruction> {
    io_vec_instrs(items, io_vec_ptr(items.len())) + seq![
        Instruction::I32Const(fd),
        Instruction::I32Const(io_vec_ptr(items.len()) as i32),
        Instruction::I32Const(items.len() as i32),
        Instruction::I32Const(RESULT_IDX),
        Instruction::Call(FD_WRITE),
        Instruction::Drop,
    ]
}

/// The descriptors of a host I/O request whose literal lies at `offset`: the
/// literal, and for a `Println` the newline byte after it.
pub open spec fn wasi_io_vec(wasi: WasiView, offset: u32) -> Seq<(i32, i32)> {
    let literal = (offset as i32, encode_utf8(wasi.literal()).len() as i32);
    if wasi is Println {
        seq![literal, (NEWLINE_OFFSET, NEWLINE_LEN)]
    } else {
        seq![literal]
    }
}

/// A descriptor array of no more items than the scratch region has room for
/// lies in the scratch region: it starts at or after the region's first
/// byte, and it ends where the result slot starts, four bytes before the
/// end of the memory.
pub proof fn law_scratch_layout(n: nat)
    requires
        n <= SCRATCH_ITEMS,
    ensures
        SCRATCH_START <= io_vec_ptr(n),
        io_vec_ptr(n) + 8 * n == RESULT_IDX,
        RESULT_IDX + 4 == MAX_MEM,
        SCRATCH_START == io_vec_ptr(SCRATCH_ITEMS as nat),
{
}

impl CodegenView {
    /// The compilation after the host's write entry point was imported: its
    /// signature, its name in the function index space, and the import.
    pub open spec fn import_wasi(self) -> CodegenView {
        CodegenView {
            types: self.types.push(
                FuncTypeView {
                    params: seq![ValType::I32, ValType::I32, ValType::I32, ValType::I32],
                    results: seq![ValType::I32],
                },
            ),
            fn_map: self.fn_map.push("fd_write"@),
            imports: self.imports.push(
                ImportView {
                    module: "wasi_unstable"@,
                    field: "fd_write"@,
                    type_index: self.types.len() as u32,
                },
            ),
            ..self
        }
    }

    /// Whether there is room for `wasi`'s literal below the scratch region.
    pub open spec fn literal_fits(self, wasi: WasiView) -> bool {
        self.data_end + encode_utf8(wasi.literal()).len() <= SCRATCH_START
    }

    /// The compilation after a host I/O request was emitted: the literal
    /// placed at the first free byte of the data section and recorded in the
    /// tables, and the call sequence appended to the current function.
    pub open spec fn write_literal(self, wasi: WasiView) -> CodegenView {
        let bytes = encode_utf8(wasi.literal());
        CodegenView {
            data: self.data.push(
                DataSegmentView { memory_index: 0, offset: self.data_end as i32, data: bytes },
            ),
            literal_table: self.literal_table.push((wasi.literal(), self.data_end)),
            literal_offsets: self.literal_offsets.push((self.data_end, bytes.len() as u32)),
            data_end: (self.data_end + bytes.len()) as u32,
            ..self
        }.emit(fd_write_instrs(STDOUT, wasi_io_vec(wasi, self.data_end)))
    }
}

impl Codegen {
    /// Create instructions to write an iov into memory when executing a
    /// program. Returns the address of the array.
    pub fn write_io_vec(&mut self, io_vec: Vec<IoVecItem>) -> (ptr: i32)
        requires
            old(self).current_func is Some,
            io_vec.len() <= SCRATCH_ITEMS,
        ensures
            ptr == io_vec_ptr(io_vec.len() as nat),
            final(self)@ == old(self)@.emit(io_vec_instrs(views(io_vec@), ptr as int)),
            final(self).stmt == old(self).stmt,
            final(self).debug == old(self).debug,
    {
        // Find the amount of bytes needed plus a little extra space for
        // the result
        let item_len_plus_result: i32 = ((io_vec.len() * 8) + 4) as i32;
        let ptr: i32 = MAX_MEM - item_len_plus_result;
        let mut current_idx: i32 = ptr;
        let ghost items = views(io_vec@);
        let store = MemArg { memory_index: 0, align: 0, offset: 0 };

        proof {
            lemma_emit_nothing(old(self)@);
        }
        // Write code to store each item from the vec
        let mut k: usize = 0;
        while k < io_vec.len()
            invariant
                0 <= k <= io_vec.len() <= SCRATCH_ITEMS,
                items == views(io_vec@),
                ptr == io_vec_ptr(io_vec.len() as nat),
                current_idx == ptr + 8 * k,
                store == store_arg(),
                old(self).current_func is Some,
                self.current_func is Some,
                self@ == old(self)@.emit(io_vec_instrs(items.take(k as int), ptr as int)),
                self.stmt == old(self).stmt,
                self.debug == old(self).debug,
            decreases io_vec.len() - k,
        {
            let ghost before = self@;
            let item = io_vec[k];
            self.instruction(Instruction::I32Const(current_idx));
            self.instruction(Instruction::I32Const(item.offset));
            self.instruction(Instruction::I32Store(store));
            current_idx += 4;
            self.instruction(Instruction::I32Const(current_idx));
            self.instruction(Instruction::I32Const(item.len));
            self.instruction(Instruction::I32Store(store));
            current_idx += 4;
            proof {
                let done = items.take(k as int);
                let next = items.take(k + 1);
                assert(next.drop_last() =~= done);
                assert(next.last() == io_vec@[k as int]@);
                lemma_same_parts(self@, before.emit(item_instrs(io_vec@[k as int]@, ptr + 8 * k)));
                lemma_emit_emit(
                    old(self)@,
                    io_vec_instrs(done, ptr as int),
                    item_instrs(io_vec@[k as int]@, ptr + 8 * k),
                );
            }
            k += 1;
        }
        assert(items.take(io_vec.len() as int) =~= items);

        // Return the location of the vec in memory
        ptr
    }

    /// Create instructions to write an `iov` to a given file descriptor
    pub fn fd_write(&mut self, fd: i32, io_vec: Vec<IoVecItem>)
        requires
            old(self).current_func is Some,
            io_vec.len() <= SCRATCH_ITEMS,
        ensures
            final(self)@ == old(self)@.emit(fd_write_instrs(fd, views(io_vec@))),
            final(self).stmt == old(self).stmt,
            final(self).debug == old(self).debug,
    {
        let num_strs: i32 = io_vec.len() as i32;
        let ghost items = views(io_vec@);
        let io_vec_ptr: i32 = self.write_io_vec(io_vec);

        // Set write to given fd
        self.instruction(Instruction::I32Const(fd));
        // Pointer to array of iov
        self.instruction(Instruction::I32Const(io_vec_ptr));
        // Number of strings written
        self.instruction(Instruction::I32Const(num_strs));
        // Where to store the number of bytes written
        self.instruction(Instruction::I32Const(RESULT_IDX));
        // Call `fd_write`
        self.instruction(Instruction::Call(FD_WRITE));
        // Drop number of bytes written
        self.instruction(Instruction::Drop);
        proof {
            let stored = old(self)@.emit(io_vec_instrs(items, io_vec_ptr as int));
            let call = seq![
                Instruction::I32Const(fd),
                Instruction::I32Const(io_vec_ptr),
                Instruction::I32Const(num_strs),
                Instruction::I32Const(RESULT_IDX),
                Instruction::Call(FD_WRITE),
                Instruction::Drop,
            ];
            lemma_same_parts(self@, stored.emit(call));
            lemma_emit_emit(old(self)@, io_vec_instrs(items, io_vec_ptr as int), call);
        }
    }

    /// Import all of the WASI functions for a `sycamore` program
    pub fn wasi_imports(&mut self)
        requires
            old(self).types.len() <= u32::MAX,
        ensures
            final(self)@ == old(self)@.import_wasi(),
            final(self).stmt == old(self).stmt,
            final(self).debug == old(self).debug,
    {
        let type_index: u32 = self.types.len() as u32;
        let signature = FuncType {
            params: vec![ValType::I32, ValType::I32, ValType::I32, ValType::I32],
            results: vec![ValType::I32],
        };
        assert(signature@.params =~= seq![ValType::I32, ValType::I32, ValType::I32, ValType::I32]);
        assert(signature@.results =~= seq![ValType::I32]);
        self.types.push(signature);
        self.fn_map.push("fd_write".to_owned());
        self.imports.push(
            Import {
                module: "wasi_unstable".to_owned(),
                field: "fd_write".to_owned(),
                type_index,
            },
        );
        proof {
            lemma_same_parts(self@, old(self)@.import_wasi());
        }
    }
}

impl Wasi {
    /// Emits the request into the current function of `codegen`: lays the
    /// literal out in the data section and appends the call sequence. Fails,
    /// and changes nothing, when the literal does not fit below the scratch
    /// region.
    pub fn generate(&self, codegen: &mut Codegen) -> (r: Result<(), CompileError>)
        requires
            old(codegen).current_func is Some,
        ensures
            match r {
                Ok(()) => old(codegen)@.literal_fits(self@)
                    && final(codegen)@ == old(codegen)@.write_literal(self@)
                    && (offset_is_sum(old(codegen)@) ==> offset_is_sum(final(codegen)@)),
                Err(e) => !old(codegen)@.literal_fits(self@) && e == CompileError::LiteralOverflow
                    && *final(codegen) == *old(codegen),
            },
            final(codegen).stmt == old(codegen).stmt,
            final(codegen).debug == old(codegen).debug,
    {
        let literal = self.literal();
        // Find where the string should be written into in memory
        let offset: u32 = codegen.data_end;
        let len: usize = literal.len();
        if offset > SCRATCH_START || len > (SCRATCH_START - offset) as usize {
            return Err(CompileError::LiteralOverflow);
        }
        // Write the data into memory
        codegen.data.push(
            DataSegment { memory_index: 0, offset: offset as i32, data: literal.as_str().as_bytes_vec() },
        );

        // Setup pointers to the data to be printed out
        let mut io_vec: Vec<IoVecItem> = Vec::new();
        io_vec.push(IoVecItem::new(offset as i32, len as i32));

        // If we are calling println point to the newline character in the
        // binary
        if self.is_println() {
            io_vec.push(IoVecItem::new(NEWLINE_OFFSET, NEWLINE_LEN));
        }
        assert(views(io_vec@) =~= wasi_io_vec(self@, offset));

        // Create the assmbly for the write to stdout
        codegen.fd_write(STDOUT, io_vec);

        // Push the literal into the codegen table so we can keep track of
        // things
        codegen.literal_table.push(LiteralEntry { literal: StrLit::new(literal.as_str()), offset });
        codegen.ctx.literal_offsets.push((offset, len as u32));
        codegen.data_end = offset + len as u32;
        proof {
            lemma_same_parts(codegen@, old(codegen)@.write_literal(self@));
            if offset_is_sum(old(codegen)@) {
                law_literal_placed(old(codegen)@, self@);
            }
        }
        Ok(())
    }
}

} // verus!
