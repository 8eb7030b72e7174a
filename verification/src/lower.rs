//! Lowering a whole program: the two passes of the code generator.

use crate::codegen::{lemma_same_parts, Codegen, CodegenView, SCRATCH_START};
use crate::emit::{
    emit_body, emit_state, lemma_body_error_same, lemma_emit_body_keeps, local_names, open_state,
    resolve, state_error, state_index, ENTRY_EXPORT, ENTRY_NAME,
};
use crate::error::CompileError;
use crate::laws::law_function_indices;
use crate::text::str_eq;
use crate::types::{lemma_state_body_view, statement_views, Statement, StatementView};
use crate::wasm::{
    DataSegment, DataSegmentView, Export, ExportEntry, ExportEntryView, FuncType, FuncTypeView,
    LocalNamesView, MemoryType,
};
use vstd::prelude::*;
use vstd::string::*;

verus! {

/// The name under which the memory is exported.
pub const MEMORY_EXPORT: &'static str = "memory";

/// The module's one memory: a single page, free to grow.
pub open spec fn memory_type() -> MemoryType {
    MemoryType { minimum: 1, maximum: None, memory64: false }
}

/// The data segment that holds the newline byte. The byte lies at offset
/// 0 and takes no room among the literals: the first literal starts at
/// offset 0 as well.
pub open spec fn newline_segment() -> DataSegmentView {
    DataSegmentView { memory_index: 0, offset: 0, data: seq![10u8] }
}

/// Whether a statement prints a line.
pub open spec fn is_println(s: StatementView) -> bool {
    s matches StatementView::Wasi(wasi) && wasi is Println
}

/// Whether some state of the program prints a line, and so needs the newline
/// byte.
pub open spec fn uses_newline(program: Seq<StatementView>) -> bool {
    exists|i: int, j: int|
        0 <= i < program.len() && program[i] is StateDefn && 0 <= j
            < program[i]->StateDefn_statements.len() && is_println(
            #[trigger] program[i]->StateDefn_statements[j],
        )
}

/// Whether the program declares a state under the entry name.
pub open spec fn has_entry(program: Seq<StatementView>) -> bool {
    exists|i: int|
        0 <= i < program.len() && (#[trigger] program[i]) is StateDefn
            && program[i]->StateDefn_name == ENTRY_NAME@
}

/// The compilation after the prologue: the host's write entry point
/// imported, the memory declared and exported, and the newline byte placed
/// in the data section if the program prints a line anywhere.
pub open spec fn prologue(cg: CodegenView, program: Seq<StatementView>) -> CodegenView {
    let imported = cg.import_wasi();
    CodegenView {
        memory: imported.memory.push(memory_type()),
        exports: imported.exports.push(
            ExportEntryView { name: MEMORY_EXPORT@, export: Export::Memory(0) },
        ),
        data: if uses_newline(program) {
            imported.data.push(newline_segment())
        } else {
            imported.data
        },
        ..imported
    }
}

/// The compilation after the first pass: each state, in the order of its
/// declaration, has a signature without parameters and results, and its name
/// has the next position of the function index space.
pub open spec fn declare_states(cg: CodegenView, program: Seq<StatementView>) -> CodegenView
    decreases program.len(),
{
    if program.len() == 0 {
        cg
    } else {
        let declared = declare_states(cg, program.drop_last());
        match program.last() {
            StatementView::StateDefn { name, .. } => CodegenView {
                types: declared.types.push(FuncTypeView { params: seq![], results: seq![] }),
                fn_map: declared.fn_map.push(name),
                ..declared
            },
            _ => declared,
        }
    }
}

/// Whether the program declares a state of this name.
pub open spec fn declares(program: Seq<StatementView>, name: Seq<char>) -> bool {
    exists|j: int|
        0 <= j < program.len() && (#[trigger] program[j]) is StateDefn
            && program[j]->StateDefn_name == name
}

/// Whether the statement at `k` is a state that carries the name of a state
/// declared before it.
pub open spec fn repeats_name(program: Seq<StatementView>, k: int) -> bool {
    program[k] is StateDefn && declares(program.take(k), program[k]->StateDefn_name)
}

/// The position of the first state that carries the name of a state
/// declared before it, if there is one.
pub open spec fn first_duplicate(program: Seq<StatementView>) -> Option<int>
    decreases program.len(),
{
    if program.len() == 0 {
        None
    } else {
        match first_duplicate(program.drop_last()) {
            Some(k) => Some(k),
            None => if repeats_name(program, program.len() - 1) {
                Some(program.len() - 1)
            } else {
                None
            },
        }
    }
}

/// The second pass: the states emitted in the order of their declaration,
/// up to the first that has an error.
pub open spec fn emit_states(cg: CodegenView, program: Seq<StatementView>) -> Result<
    CodegenView,
    CompileError,
>
    decreases program.len(),
{
    if program.len() == 0 {
        Ok(cg)
    } else {
        match emit_states(cg, program.drop_last()) {
            Err(e) => Err(e),
            Ok(emitted) => match state_error(emitted, program.last()) {
                Some(e) => Err(e),
                None => Ok(emit_state(emitted, program.last())),
            },
        }
    }
}

/// What lowering a program gives: the sections and tables of its module, or
/// the first error. A program with so many statements that a function index
/// would not fit in 32 bits is too large; the first pass rejects a state
/// that carries the name of an earlier one; the second pass rejects the
/// first state that has an error; and a program without an entry state is
/// rejected after all its states were found to be in order.
pub open spec fn lower_spec(program: Seq<StatementView>) -> Result<
    CodegenView,
    CompileError,
> {
    if program.len() >= u32::MAX {
        Err(CompileError::ModuleTooLarge)
    } else {
        match first_duplicate(program) {
            Some(k) => Err(CompileError::DuplicateState { index: k as usize }),
            None => {
                let declared = declare_states(
                    prologue(CodegenView::empty(), program),
                    program,
                );
                match emit_states(declared, program) {
                    Err(e) => Err(e),
                    Ok(emitted) => if has_entry(program) {
                        Ok(emitted)
                    } else {
                        Err(CompileError::MissingEntry)
                    },
                }
            },
        }
    }
}

/// After the first pass a name resolves exactly if the program declares a
/// state of that name.
pub proof fn lemma_resolve_declared(
    cg: CodegenView,
    program: Seq<StatementView>,
    name: Seq<char>,
)
    ensures
        resolve(declare_states(cg, program).fn_map, cg.fn_map.len() as int, name) is Some
            <==> declares(program, name),
        declare_states(cg, program).fn_map.len() >= cg.fn_map.len(),
        declare_states(cg, program).imports == cg.imports,
    decreases program.len(),
{
    if program.len() > 0 {
        let front = program.drop_last();
        lemma_resolve_declared(cg, front, name);
        let declared = declare_states(cg, program);
        let before = declare_states(cg, front);
        if declares(front, name) {
            let j = choose|j: int|
                0 <= j < front.len() && (#[trigger] front[j]) is StateDefn
                    && front[j]->StateDefn_name == name;
            assert(program[j] == front[j]);
        }
        if declares(program, name) {
            let j = choose|j: int|
                0 <= j < program.len() && (#[trigger] program[j]) is StateDefn
                    && program[j]->StateDefn_name == name;
            if j < front.len() {
                assert(front[j] == program[j]);
            }
        }
        match program.last() {
            StatementView::StateDefn { name: declared_name, .. } => {
                assert(declared.fn_map.drop_last() =~= before.fn_map);
                assert(program[program.len() - 1] is StateDefn);
            },
            _ => {},
        }
    }
}

/// Where no state before `k` repeats a name and the state at `k` does, it
/// is the first that does.
pub proof fn lemma_first_duplicate(program: Seq<StatementView>, k: int)
    requires
        0 <= k < program.len(),
        first_duplicate(program.take(k)) is None,
        repeats_name(program, k),
    ensures
        first_duplicate(program) == Some(k),
    decreases program.len(),
{
    let front = program.drop_last();
    if k < program.len() - 1 {
        assert(front.take(k) =~= program.take(k));
        assert(front[k] == program[k]);
        lemma_first_duplicate(front, k);
    } else {
        assert(front =~= program.take(k));
    }
}

/// Emitting a state that has no error keeps the function index space, the
/// imports and the signatures, adds one function, and leaves the literals
/// below the scratch region.
pub proof fn lemma_emit_state_keeps(cg: CodegenView, s: StatementView)
    requires
        state_error(cg, s) is None,
        cg.data_end <= SCRATCH_START,
    ensures
        emit_state(cg, s).fn_map == cg.fn_map,
        emit_state(cg, s).imports == cg.imports,
        emit_state(cg, s).types == cg.types,
        emit_state(cg, s).memory == cg.memory,
        emit_state(cg, s).functions == cg.functions.push(state_index(cg, s)),
        emit_state(cg, s).data_end <= SCRATCH_START,
        emit_state(cg, s).current_func is None,
        emit_state(cg, s).codes.len() == cg.codes.len() + 1,
        emit_state(cg, s).local_names == cg.local_names.push(
            LocalNamesView {
                function: state_index(cg, s),
                names: local_names(s->StateDefn_statements),
            },
        ),
        emit_state(cg, s).exports == if s->StateDefn_name == ENTRY_NAME@ {
            cg.exports.push(
                ExportEntryView {
                    name: ENTRY_EXPORT@,
                    export: Export::Function(state_index(cg, s)),
                },
            )
        } else {
            cg.exports
        },
{
    let body = s->StateDefn_statements;
    let opened = open_state(cg, s);
    lemma_body_error_same(cg, opened, body, cg.functions.len() as int);
    lemma_emit_body_keeps(opened, body, local_names(body), cg.functions.len() as int);
    lemma_emit_body_keeps_sections(opened, body, local_names(body));
}

/// Emitting statements touches neither the signatures, the memory, the
/// declared functions nor the exports.
pub proof fn lemma_emit_body_keeps_sections(
    cg: CodegenView,
    body: Seq<StatementView>,
    names: Seq<Seq<char>>,
)
    ensures
        emit_body(cg, body, names).types == cg.types,
        emit_body(cg, body, names).memory == cg.memory,
        emit_body(cg, body, names).functions == cg.functions,
        emit_body(cg, body, names).exports == cg.exports,
        emit_body(cg, body, names).codes == cg.codes,
        emit_body(cg, body, names).local_names == cg.local_names,
    decreases body.len(),
{
    if body.len() > 0 {
        lemma_emit_body_keeps_sections(cg, body.drop_last(), names);
    }
}

/// Whether some state of the program prints a line.
pub fn prints_line(program: &Vec<Statement>) -> (r: bool)
    ensures
        r == uses_newline(statement_views(program@)),
{
    let ghost p = statement_views(program@);
    let mut i: usize = 0;
    while i < program.len()
        invariant
            0 <= i <= program.len(),
            p == statement_views(program@),
            forall|a: int, b: int|
                0 <= a < i && p[a] is StateDefn && 0 <= b < p[a]->StateDefn_statements.len()
                    ==> !is_println(#[trigger] p[a]->StateDefn_statements[b]),
        decreases program.len() - i,
    {
        if let Statement::StateDefn { statements, .. } = &program[i] {
            proof {
                lemma_state_body_view(program@[i as int]);
            }
            let ghost body = statement_views(statements@);
            let mut j: usize = 0;
            while j < statements.len()
                invariant
                    0 <= j <= statements.len(),
                    0 <= i < program.len(),
                    p == statement_views(program@),
                    p[i as int] is StateDefn,
                    body == statement_views(statements@),
                    body == p[i as int]->StateDefn_statements,
                    forall|b: int| 0 <= b < j ==> !is_println(#[trigger] body[b]),
                decreases statements.len() - j,
            {
                if let Statement::Wasi(wasi) = &statements[j] {
                    if wasi.is_println() {
                        assert(is_println(p[i as int]->StateDefn_statements[j as int]));
                        return true;
                    }
                }
                j += 1;
            }
        }
        i += 1;
    }
    false
}

/// Whether the program declares a state under the entry name.
pub fn declares_entry(program: &Vec<Statement>) -> (r: bool)
    ensures
        r == has_entry(statement_views(program@)),
{
    let ghost p = statement_views(program@);
    let mut i: usize = 0;
    while i < program.len()
        invariant
            0 <= i <= program.len(),
            p == statement_views(program@),
            forall|a: int|
                0 <= a < i ==> !((#[trigger] p[a]) is StateDefn && p[a]->StateDefn_name
                    == ENTRY_NAME@),
        decreases program.len() - i,
    {
        if let Statement::StateDefn { name, .. } = &program[i] {
            if str_eq(name.as_str(), ENTRY_NAME) {
                assert(p[i as int] is StateDefn && p[i as int]->StateDefn_name == ENTRY_NAME@);
                return true;
            }
        }
        i += 1;
    }
    false
}

impl Codegen {
    /// Lowers the program into sections and tables: the prologue, the pass
    /// that assigns each state its function index and rejects a name that
    /// is declared twice, and the pass that emits the states. The index
    /// that a state's name has in the function index space is the number of
    /// imports and of the states before it. On an error nothing stays
    /// built.
    pub fn lower(&mut self) -> (r: Result<(), CompileError>)
        requires
            old(self)@ == CodegenView::empty(),
        ensures
            final(self).stmt == old(self).stmt,
            final(self).debug == old(self).debug,
            match r {
                Ok(()) => lower_spec(statement_views(old(self).stmt@)) == Ok::<
                    CodegenView,
                    CompileError,
                >(final(self)@),
                Err(e) => lower_spec(statement_views(old(self).stmt@)) == Err::<
                    CodegenView,
                    CompileError,
                >(e) && final(self)@ == old(self)@,
            },
            r is Ok ==> final(self)@.functions.len() == old(self).stmt@.len() && forall|i: int|
                0 <= i < final(self)@.functions.len() ==> #[trigger] final(self)@.functions[i]
                    == final(self)@.imports.len() + i,
    {
        let ghost p = statement_views(self.stmt@);
        let debug = self.debug;
        if self.stmt.len() >= u32::MAX as usize {
            return Err(CompileError::ModuleTooLarge);
        }
        let mut program: Vec<Statement> = Vec::new();
        core::mem::swap(&mut program, &mut self.stmt);

        self.wasi_imports();
        self.memory.push(MemoryType { minimum: 1, maximum: None, memory64: false });
        self.exports.push(
            ExportEntry { name: MEMORY_EXPORT.to_owned(), export: Export::Memory(0) },
        );
        // Setup the new line for printing with a newline
        if prints_line(&program) {
            let mut newline: Vec<u8> = Vec::new();
            newline.push(10u8);
            self.data.push(DataSegment { memory_index: 0, offset: 0, data: newline });
        }
        let ghost start = prologue(CodegenView::empty(), p);
        proof {
            lemma_same_parts(self@, start);
            assert(p.take(0) =~= Seq::<StatementView>::empty());
        }

        // Setup the function map and types after our import so that we can
        // make calls to them properly everywhere.
        let mut k: usize = 0;
        while k < program.len()
            invariant
                0 <= k <= program.len() < u32::MAX,
                p == statement_views(program@),
                program == old(self).stmt,
                self@ == declare_states(start, p.take(k as int)),
                start.fn_map.len() == 1,
                first_duplicate(p.take(k as int)) is None,
                old(self)@ == CodegenView::empty(),
                debug == old(self).debug,
                self@.fn_map.len() <= 1 + k,
                self@.data_end == 0,
                self@.imports.len() == 1,
                self@.functions.len() == 0,
                self.debug == debug,
            decreases program.len() - k,
        {
            let ghost before = self@;
            assert(p.take(k + 1).drop_last() =~= p.take(k as int));
            assert(p.take(k + 1).last() == program@[k as int]@);
            assert(p.take(k + 1).take(k as int) =~= p.take(k as int));
            let mut repeated = false;
            if let Statement::StateDefn { name, .. } = &program[k] {
                proof {
                    lemma_resolve_declared(start, p.take(k as int), name@);
                }
                if self.resolve(name.as_str()).is_some() {
                    repeated = true;
                    assert(repeats_name(p, k as int));
                } else {
                    // All states are the void type for now until we deal
                    // with args
                    self.types.push(FuncType { params: Vec::new(), results: Vec::new() });
                    self.fn_map.push(name.as_str().to_owned());
                    proof {
                        lemma_same_parts(self@, declare_states(start, p.take(k + 1)));
                    }
                }
            }
            if repeated {
                proof {
                    lemma_first_duplicate(p, k as int);
                }
                *self = Codegen::new(program, debug);
                return Err(CompileError::DuplicateState { index: k });
            }
            k += 1;
        }
        assert(p.take(program.len() as int) =~= p);
        let ghost declared = declare_states(start, p);

        let mut k: usize = 0;
        let mut failed: Option<CompileError> = None;
        while k < program.len() && failed.is_none()
            invariant
                0 <= k <= program.len() < u32::MAX,
                p == statement_views(program@),
                declared.fn_map.len() <= 1 + program.len(),
                program == old(self).stmt,
                match failed {
                    None => emit_states(declared, p.take(k as int)) == Ok::<
                        CodegenView,
                        CompileError,
                    >(self@),
                    Some(e) => emit_states(declared, p) == Err::<CodegenView, CompileError>(e),
                },
                failed is None ==> self@.fn_map == declared.fn_map,
                failed is None ==> self@.functions.len() == k,
                failed is None ==> self@.data_end <= SCRATCH_START,
                self.debug == debug,
            decreases program.len() - k, if failed is None { 1int } else { 0int },
        {
            let ghost before = self@;
            assert(p.take(k + 1).drop_last() =~= p.take(k as int));
            assert(p.take(k + 1).last() == program@[k as int]@);
            match program[k].generate(self) {
                Ok(()) => {
                    proof {
                        lemma_emit_state_keeps(before, program@[k as int]@);
                    }
                    k += 1;
                },
                Err(e) => {
                    proof {
                        lemma_emit_states_fail(declared, p, k as int);
                    }
                    failed = Some(e);
                },
            }
        }
        assert(failed is None ==> p.take(program.len() as int) =~= p);
        if failed.is_none() && !declares_entry(&program) {
            failed = Some(CompileError::MissingEntry);
        }
        match failed {
            Some(e) => {
                *self = Codegen::new(program, debug);
                Err(e)
            },
            None => {
                proof {
                    law_function_indices(p);
                }
                core::mem::swap(&mut program, &mut self.stmt);
                Ok(())
            },
        }
    }
}

/// Where the second pass fails at a state, it fails for the whole program
/// with that state's error.
pub proof fn lemma_emit_states_fail(cg: CodegenView, program: Seq<StatementView>, k: int)
    requires
        0 <= k < program.len(),
        emit_states(cg, program.take(k)) is Ok,
        state_error(emit_states(cg, program.take(k))->Ok_0, program[k]) is Some,
    ensures
        emit_states(cg, program) == Err::<CodegenView, CompileError>(
            state_error(emit_states(cg, program.take(k))->Ok_0, program[k])->0,
        ),
    decreases program.len(),
{
    let front = program.drop_last();
    if k < program.len() - 1 {
        assert(front.take(k) =~= program.take(k));
        lemma_emit_states_fail(cg, front, k);
    } else {
        assert(front =~= program.take(k));
    }
}

} // verus!
