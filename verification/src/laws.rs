//! What holds of every program that is lowered.

use crate::assemble::{body_encodable, codes_encodable, generate_spec};
use crate::codegen::{CodegenView, SCRATCH_START};
use crate::emit::{
    body_error, emit_body, emit_state, emit_statement, lemma_body_error_same, lemma_body_ok,
    lemma_emit_body_keeps, local_names, open_state, resolve, state_error, state_index,
    ENTRY_EXPORT, ENTRY_NAME,
};
use crate::error::CompileError;
use crate::lower::{
    declare_states, declares, emit_states, first_duplicate, has_entry, lemma_emit_state_keeps,
    lemma_resolve_declared, lower_spec, newline_segment, prologue, repeats_name, uses_newline,
    MEMORY_EXPORT,
};
use crate::types::StatementView;
use crate::wasi::{fd_write_instrs, io_vec_instrs, io_vec_ptr, wasi_io_vec, WasiView, STDOUT};
use crate::wasm::{
    DataSegmentView, Export, ExportEntryView, FuncTypeView, Instruction, LocalNamesView,
};
use vstd::prelude::*;
use vstd::utf8::encode_utf8;

verus! {

/// Whether every statement of the program is a state definition.
pub open spec fn all_states(program: Seq<StatementView>) -> bool {
    forall|i: int| 0 <= i < program.len() ==> (#[trigger] program[i]) is StateDefn
}

/// The function index space after the first pass, for a program of `S`
/// states and the one import: position 0 carries the import's name and a
/// signature of its own; position `1 + i` carries the name of the state
/// declared at `i`, with the signature that takes and returns nothing.
pub proof fn law_index_space(program: Seq<StatementView>)
    requires
        all_states(program),
    ensures
        ({
            let cg = declare_states(prologue(CodegenView::empty(), program), program);
            &&& cg.imports.len() == 1
            &&& cg.imports[0].type_index == 0
            &&& cg.fn_map.len() == 1 + program.len()
            &&& cg.types.len() == 1 + program.len()
            &&& cg.fn_map[0] == cg.imports[0].field
            &&& forall|i: int|
                0 <= i < program.len() ==> cg.fn_map[1 + i] == (
                #[trigger] program[i])->StateDefn_name
            &&& forall|i: int|
                0 <= i < program.len() ==> #[trigger] cg.types[1 + i] == (FuncTypeView {
                    params: seq![],
                    results: seq![],
                })
        }),
    decreases program.len(),
{
    let start = prologue(CodegenView::empty(), program);
    lemma_declared(start, program);
}

/// The first pass appends one name and one empty signature for each state,
/// in order, and touches nothing else.
pub proof fn lemma_declared(cg: CodegenView, program: Seq<StatementView>)
    requires
        all_states(program),
    ensures
        ({
            let declared = declare_states(cg, program);
            &&& declared.imports == cg.imports
            &&& declared.functions == cg.functions
            &&& declared.data_end == cg.data_end
            &&& declared.fn_map.len() == cg.fn_map.len() + program.len()
            &&& declared.types.len() == cg.types.len() + program.len()
            &&& forall|i: int| 0 <= i < cg.fn_map.len() ==> declared.fn_map[i] == cg.fn_map[i]
            &&& forall|i: int| 0 <= i < cg.types.len() ==> declared.types[i] == cg.types[i]
            &&& forall|i: int|
                0 <= i < program.len() ==> declared.fn_map[cg.fn_map.len() + i] == (
                #[trigger] program[i])->StateDefn_name
            &&& forall|i: int|
                0 <= i < program.len() ==> #[trigger] declared.types[cg.types.len() + i] == (
                FuncTypeView { params: seq![], results: seq![] })
        }),
    decreases program.len(),
{
    if program.len() > 0 {
        let front = program.drop_last();
        assert(all_states(front)) by {
            assert forall|i: int| 0 <= i < front.len() implies (#[trigger] front[i])
                is StateDefn by {
                assert(program[i] is StateDefn);
            }
        }
        lemma_declared(cg, front);
        assert(program.last() is StateDefn);
        let declared = declare_states(cg, program);
        assert forall|i: int| 0 <= i < program.len() implies declared.fn_map[cg.fn_map.len() + i]
            == (#[trigger] program[i])->StateDefn_name by {
            if i < front.len() {
                assert(front[i] == program[i]);
            }
        }
    }
}

/// Where the second pass succeeds, it succeeds on every prefix of the
/// program, and every state was emitted without an error into the
/// compilation that the states before it left.
pub proof fn lemma_emitted_each(cg: CodegenView, program: Seq<StatementView>, i: int)
    requires
        emit_states(cg, program) is Ok,
        0 <= i < program.len(),
    ensures
        emit_states(cg, program.take(i)) is Ok,
        state_error(emit_states(cg, program.take(i))->Ok_0, program[i]) is None,
    decreases program.len(),
{
    let front = program.drop_last();
    if i < front.len() {
        lemma_emitted_each(cg, front, i);
        assert(front.take(i) =~= program.take(i));
    } else {
        assert(front =~= program.take(i));
    }
}

/// Where the second pass succeeds, it kept the function index space, the
/// imports, the signatures and the memory, and declared one function per
/// state, each under the index that its name has in the function index
/// space.
pub proof fn lemma_emitted(cg: CodegenView, program: Seq<StatementView>)
    requires
        emit_states(cg, program) is Ok,
        cg.data_end <= SCRATCH_START,
        cg.functions.len() == 0,
    ensures
        emit_states(cg, program)->Ok_0.fn_map == cg.fn_map,
        emit_states(cg, program)->Ok_0.imports == cg.imports,
        emit_states(cg, program)->Ok_0.types == cg.types,
        emit_states(cg, program)->Ok_0.memory == cg.memory,
        emit_states(cg, program)->Ok_0.data_end <= SCRATCH_START,
        emit_states(cg, program)->Ok_0.functions == Seq::new(
            program.len(),
            |i: int| state_index(cg, program[i]),
        ),
        emit_states(cg, program)->Ok_0.codes.len() == cg.codes.len() + program.len(),
        emit_states(cg, program)->Ok_0.local_names == cg.local_names + Seq::new(
            program.len(),
            |i: int|
                LocalNamesView {
                    function: state_index(cg, program[i]),
                    names: local_names(program[i]->StateDefn_statements),
                },
        ),
        emit_states(cg, program)->Ok_0.exports.len() >= cg.exports.len(),
        forall|k: int|
            0 <= k < cg.exports.len() ==> emit_states(cg, program)->Ok_0.exports[k]
                == #[trigger] cg.exports[k],
        forall|i: int|
            0 <= i < program.len() && (#[trigger] program[i])->StateDefn_name == ENTRY_NAME@
                ==> emit_states(cg, program)->Ok_0.exports.contains(
                ExportEntryView {
                    name: ENTRY_EXPORT@,
                    export: Export::Function(state_index(cg, program[i])),
                },
            ),
    decreases program.len(),
{
    let emitted = emit_states(cg, program)->Ok_0;
    let expected = Seq::new(program.len(), |i: int| state_index(cg, program[i]));
    let names = Seq::new(
        program.len(),
        |i: int|
            LocalNamesView {
                function: state_index(cg, program[i]),
                names: local_names(program[i]->StateDefn_statements),
            },
    );
    if program.len() > 0 {
        let front = program.drop_last();
        lemma_emitted(cg, front);
        let before = emit_states(cg, front)->Ok_0;
        assert(state_error(before, program.last()) is None);
        assert(emitted == emit_state(before, program.last()));
        lemma_emit_state_keeps(before, program.last());
        assert(state_index(before, program.last()) == state_index(cg, program.last()));
        assert(emitted.functions =~= expected);
        assert(emitted.local_names =~= cg.local_names + names);
        assert forall|i: int|
            0 <= i < program.len() && (#[trigger] program[i])->StateDefn_name
                == ENTRY_NAME@ implies emitted.exports.contains(
            ExportEntryView {
                name: ENTRY_EXPORT@,
                export: Export::Function(state_index(cg, program[i])),
            },
        ) by {
            let entry = ExportEntryView {
                name: ENTRY_EXPORT@,
                export: Export::Function(state_index(cg, program[i])),
            };
            if i < front.len() {
                assert(front[i] == program[i]);
                let k = choose|k: int| 0 <= k < before.exports.len() && before.exports[k] == entry;
                assert(emitted.exports[k] == entry);
            } else {
                assert(emitted.exports[before.exports.len() as int] == entry);
            }
        }
    } else {
        assert(emitted.functions =~= expected);
        assert(emitted.local_names =~= cg.local_names + names);
    }
}

/// Where no state carries the name of an earlier one, no position of the
/// program holds a state that repeats a name.
pub proof fn lemma_no_duplicate(program: Seq<StatementView>, k: int)
    requires
        first_duplicate(program) is None,
        0 <= k < program.len(),
    ensures
        !repeats_name(program, k),
    decreases program.len(),
{
    let front = program.drop_last();
    if k < program.len() - 1 {
        lemma_no_duplicate(front, k);
        assert(front.take(k) =~= program.take(k));
        assert(front[k] == program[k]);
    }
}

/// Among states with distinct names, the name of the state declared at `i`
/// resolves to the position that the first pass gave it: `i` positions
/// after the names that were there before.
pub proof fn lemma_declared_index(cg: CodegenView, program: Seq<StatementView>, i: int)
    requires
        all_states(program),
        first_duplicate(program) is None,
        0 <= i < program.len(),
    ensures
        resolve(
            declare_states(cg, program).fn_map,
            cg.fn_map.len() as int,
            program[i]->StateDefn_name,
        ) == Some(cg.fn_map.len() + i),
{
    let declared = declare_states(cg, program);
    let first = cg.fn_map.len() as int;
    let name = program[i]->StateDefn_name;
    lemma_declared(cg, program);
    law_resolve(declared.fn_map, first, name);
    assert(declared.fn_map[first + i] == name);
    let found = resolve(declared.fn_map, first, name)->0;
    if found > first + i {
        let j = found - first;
        assert(program[j] is StateDefn);
        assert(declared.fn_map[first + j] == program[j]->StateDefn_name);
        assert(program.take(j)[i] == program[i]);
        assert(declares(program.take(j), program[j]->StateDefn_name));
        lemma_no_duplicate(program, j);
    }
}

/// The names of the states of a program that lowers are distinct.
pub proof fn law_names_distinct(program: Seq<StatementView>, i: int, j: int)
    requires
        lower_spec(program) is Ok,
        0 <= i < j < program.len(),
    ensures
        program[i] is StateDefn,
        program[j] is StateDefn,
        program[i]->StateDefn_name != program[j]->StateDefn_name,
{
    let declared = declare_states(prologue(CodegenView::empty(), program), program);
    lemma_emitted_each(declared, program, i);
    lemma_emitted_each(declared, program, j);
    lemma_no_duplicate(program, j);
    if program[i]->StateDefn_name == program[j]->StateDefn_name {
        assert(program.take(j)[i] == program[i]);
        assert(declares(program.take(j), program[j]->StateDefn_name));
    }
}

/// Where the second pass fails, it fails at a state before which it
/// succeeded, with that state's error.
pub proof fn lemma_failed_state(cg: CodegenView, program: Seq<StatementView>) -> (k: int)
    requires
        emit_states(cg, program) is Err,
    ensures
        0 <= k < program.len(),
        emit_states(cg, program.take(k)) is Ok,
        state_error(emit_states(cg, program.take(k))->Ok_0, program[k]) == Some(
            emit_states(cg, program)->Err_0,
        ),
    decreases program.len(),
{
    let front = program.drop_last();
    if emit_states(cg, front) is Err {
        let k = lemma_failed_state(cg, front);
        assert(front.take(k) =~= program.take(k));
        assert(front[k] == program[k]);
        k
    } else {
        assert(front =~= program.take(program.len() - 1));
        program.len() - 1
    }
}

/// The error of a body is never that of a state without a position in the
/// function index space.
pub proof fn lemma_body_error_kind(cg: CodegenView, body: Seq<StatementView>, state: int)
    ensures
        !(body_error(cg, body, state) matches Some(CompileError::UndeclaredState { .. })),
    decreases body.len(),
{
    if body.len() > 0 {
        lemma_body_error_kind(cg, body.drop_last(), state);
    }
}

/// Lowering never finds a state without a position in the function index
/// space: the first pass gave each state one before the second pass emits
/// it.
pub proof fn law_states_declared(program: Seq<StatementView>)
    ensures
        !(lower_spec(program) matches Err(CompileError::UndeclaredState { .. })),
{
    if lower_spec(program) matches Err(CompileError::UndeclaredState { .. }) {
        let start = prologue(CodegenView::empty(), program);
        let declared = declare_states(start, program);
        lemma_declare_keeps(start, program);
        let k = lemma_failed_state(declared, program);
        let before = emit_states(declared, program.take(k))->Ok_0;
        lemma_emitted(declared, program.take(k));
        let name = program[k]->StateDefn_name;
        lemma_resolve_declared(start, program, name);
        assert(program[k] is StateDefn);
        lemma_body_error_kind(
            before,
            program[k]->StateDefn_statements,
            before.functions.len() as int,
        );
        assert(resolve(declared.fn_map, 1, name) is None);
        assert(declares(program, name));
    }
}

/// A program that lowers has its functions numbered in the order of its
/// states: the name of the state declared at `i` resolves to the index
/// `1 + i`, the one import having index 0, and that is the index under
/// which its function is declared. The function index space is the one the
/// first pass built. There is one function body and one map of local names
/// for each state; the memory is exported, and each state under the entry
/// name is exported under its own index.
pub proof fn law_function_indices(program: Seq<StatementView>)
    requires
        lower_spec(program) is Ok,
    ensures
        all_states(program),
        ({
            let cg = lower_spec(program)->Ok_0;
            &&& cg.fn_map == declare_states(
                prologue(CodegenView::empty(), program),
                program,
            ).fn_map
            &&& cg.imports.len() == 1
            &&& forall|i: int|
                0 <= i < program.len() ==> resolve(
                    cg.fn_map,
                    1,
                    (#[trigger] program[i])->StateDefn_name,
                ) == Some(1 + i)
            &&& cg.functions.len() == program.len()
            &&& forall|i: int| 0 <= i < program.len() ==> #[trigger] cg.functions[i] == 1 + i
            &&& cg.codes.len() == program.len()
            &&& cg.local_names.len() == program.len()
            &&& forall|i: int|
                0 <= i < program.len() ==> #[trigger] cg.local_names[i] == (LocalNamesView {
                    function: (1 + i) as u32,
                    names: local_names(program[i]->StateDefn_statements),
                })
            &&& cg.exports[0] == (ExportEntryView {
                name: MEMORY_EXPORT@,
                export: Export::Memory(0),
            })
            &&& forall|i: int|
                0 <= i < program.len() && (#[trigger] program[i])->StateDefn_name == ENTRY_NAME@
                    ==> cg.exports.contains(
                    ExportEntryView {
                        name: ENTRY_EXPORT@,
                        export: Export::Function((1 + i) as u32),
                    },
                )
        }),
{
    let start = prologue(CodegenView::empty(), program);
    let declared = declare_states(start, program);
    lemma_declare_keeps(start, program);
    lemma_emitted(declared, program);
    assert forall|i: int| 0 <= i < program.len() implies (#[trigger] program[i])
        is StateDefn by {
        lemma_emitted_each(declared, program, i);
    }
    let cg = lower_spec(program)->Ok_0;
    assert(all_states(program));
    assert(first_duplicate(program) is None);
    assert(program.len() < u32::MAX);
    assert(start.fn_map.len() == 1);
    assert(declared.imports.len() == 1);
    assert(cg.fn_map == declared.fn_map);
    assert forall|i: int| 0 <= i < program.len() implies resolve(
        declared.fn_map,
        1,
        (#[trigger] program[i])->StateDefn_name,
    ) == Some(1 + i) && state_index(declared, program[i]) == 1 + i by {
        lemma_declared_index(start, program, i);
    }
    assert(cg.functions.len() == program.len());
    assert forall|i: int| 0 <= i < program.len() implies #[trigger] cg.functions[i] == 1 + i by {
        assert(state_index(declared, program[i]) == 1 + i);
    }
    assert(declared.exports[0] == (ExportEntryView {
        name: MEMORY_EXPORT@,
        export: Export::Memory(0),
    }));
    assert(cg.exports[0] == declared.exports[0]);
    assert(declared.local_names.len() == 0);
    assert forall|i: int| 0 <= i < program.len() implies #[trigger] cg.local_names[i] == (
    LocalNamesView {
        function: (1 + i) as u32,
        names: local_names(program[i]->StateDefn_statements),
    }) by {
        assert(state_index(declared, program[i]) == 1 + i);
    }
    assert forall|i: int|
        0 <= i < program.len() && (#[trigger] program[i])->StateDefn_name
            == ENTRY_NAME@ implies cg.exports.contains(
        ExportEntryView { name: ENTRY_EXPORT@, export: Export::Function((1 + i) as u32) },
    ) by {
        assert(state_index(declared, program[i]) == 1 + i);
    }
}

/// The first pass leaves the imports, the functions and the data section as
/// they were.
pub proof fn lemma_declare_keeps(cg: CodegenView, program: Seq<StatementView>)
    ensures
        declare_states(cg, program).imports == cg.imports,
        declare_states(cg, program).functions == cg.functions,
        declare_states(cg, program).data_end == cg.data_end,
        declare_states(cg, program).data == cg.data,
        declare_states(cg, program).literal_table == cg.literal_table,
        declare_states(cg, program).literal_offsets == cg.literal_offsets,
        declare_states(cg, program).exports == cg.exports,
        declare_states(cg, program).codes == cg.codes,
        declare_states(cg, program).local_names == cg.local_names,
    decreases program.len(),
{
    if program.len() > 0 {
        lemma_declare_keeps(cg, program.drop_last());
    }
}

/// A call resolves to a state's position in the function index space: one
/// at or after `first` that carries the target's name, with no later
/// position carrying it.
pub proof fn law_resolve(fn_map: Seq<Seq<char>>, first: int, target: Seq<char>)
    requires
        0 <= first,
    ensures
        match resolve(fn_map, first, target) {
            Some(k) => first <= k < fn_map.len() && fn_map[k] == target && forall|j: int|
                k < j < fn_map.len() ==> fn_map[j] != target,
            None => forall|j: int| first <= j < fn_map.len() ==> fn_map[j] != target,
        },
    decreases fn_map.len(),
{
    if fn_map.len() == 0 || fn_map.len() <= first {
    } else if fn_map.last() == target {
    } else {
        let front = fn_map.drop_last();
        law_resolve(front, first, target);
        assert forall|j: int| 0 <= j < front.len() implies front[j] == fn_map[j] by {}
    }
}

/// A program without a state under the entry name does not lower.
pub proof fn law_entry_required(program: Seq<StatementView>)
    requires
        !has_entry(program),
    ensures
        lower_spec(program) is Err,
{
}

/// A program whose state at `i` carries the entry name and is not marked
/// terminating, or declares parameters, does not lower.
pub proof fn law_entry_valid(program: Seq<StatementView>, i: int)
    requires
        0 <= i < program.len(),
        program[i] is StateDefn,
        program[i]->StateDefn_name == ENTRY_NAME@,
        !program[i]->StateDefn_terminating || program[i]->StateDefn_input.len() > 0,
    ensures
        lower_spec(program) is Err,
{
    if lower_spec(program) is Ok {
        let start = prologue(CodegenView::empty(), program);
        let declared = declare_states(start, program);
        lemma_declare_keeps(start, program);
        lemma_emitted_each(declared, program, i);
    }
}

/// A program with a state definition inside the body of a state does not
/// lower.
pub proof fn law_no_nesting(program: Seq<StatementView>, i: int, j: int)
    requires
        0 <= i < program.len(),
        program[i] is StateDefn,
        0 <= j < program[i]->StateDefn_statements.len(),
        program[i]->StateDefn_statements[j] is StateDefn,
    ensures
        lower_spec(program) is Err,
{
    if lower_spec(program) is Ok {
        let start = prologue(CodegenView::empty(), program);
        let declared = declare_states(start, program);
        lemma_declare_keeps(start, program);
        lemma_emitted_each(declared, program, i);
        let before = emit_states(declared, program.take(i))->Ok_0;
        let body = program[i]->StateDefn_statements;
        lemma_body_ok(before, body, before.functions.len() as int, j);
    }
}

/// The literals of a body, in the order of its statements.
pub open spec fn body_literals(body: Seq<StatementView>) -> Seq<Seq<char>>
    decreases body.len(),
{
    if body.len() == 0 {
        seq![]
    } else {
        match body.last() {
            StatementView::Wasi(wasi) => body_literals(body.drop_last()).push(wasi.literal()),
            _ => body_literals(body.drop_last()),
        }
    }
}

/// The literals of a program, in the order in which they are met: state by
/// state, and within a state statement by statement.
pub open spec fn program_literals(program: Seq<StatementView>) -> Seq<Seq<char>>
    decreases program.len(),
{
    if program.len() == 0 {
        seq![]
    } else {
        match program.last() {
            StatementView::StateDefn { statements, .. } => program_literals(program.drop_last())
                + body_literals(statements),
            _ => program_literals(program.drop_last()),
        }
    }
}

/// The number of bytes that a sequence of literals occupies.
pub open spec fn total_bytes(literals: Seq<Seq<char>>) -> nat
    decreases literals.len(),
{
    if literals.len() == 0 {
        0
    } else {
        total_bytes(literals.drop_last()) + encode_utf8(literals.last()).len()
    }
}

/// Where the literal at `i` starts: after the bytes of those before it.
pub open spec fn literal_offset(literals: Seq<Seq<char>>, i: int) -> nat {
    total_bytes(literals.take(i))
}

/// The data segment of the literal at `i`.
pub open spec fn literal_segment(literals: Seq<Seq<char>>, i: int) -> DataSegmentView {
    DataSegmentView {
        memory_index: 0,
        offset: literal_offset(literals, i) as i32,
        data: encode_utf8(literals[i]),
    }
}

/// Whether the tables and the data section of `cg` hold exactly `literals`,
/// one after the other from offset 0 on, the data segments of the literals
/// following `first` other segments.
pub open spec fn laid_out(cg: CodegenView, literals: Seq<Seq<char>>, first: int) -> bool {
    &&& cg.literal_table.len() == literals.len()
    &&& cg.literal_offsets.len() == literals.len()
    &&& cg.data.len() == first + literals.len()
    &&& cg.data_end == total_bytes(literals)
    &&& forall|i: int|
        0 <= i < literals.len() ==> #[trigger] cg.literal_table[i] == (
            literals[i],
            literal_offset(literals, i) as u32,
        )
    &&& forall|i: int|
        0 <= i < literals.len() ==> #[trigger] cg.literal_offsets[i] == (
            literal_offset(literals, i) as u32,
            encode_utf8(literals[i]).len() as u32,
        )
    &&& forall|i: int|
        0 <= i < literals.len() ==> #[trigger] cg.data[first + i] == literal_segment(literals, i)
}

/// The literals of a literal table, in its order.
pub open spec fn table_literals(table: Seq<(Seq<char>, u32)>) -> Seq<Seq<char>> {
    table.map_values(|entry: (Seq<char>, u32)| entry.0)
}

/// Whether the running offset of a compilation is the sum of the lengths of
/// the literals in its table: the next literal starts where the last one
/// ends.
pub open spec fn offset_is_sum(cg: CodegenView) -> bool {
    cg.data_end == total_bytes(table_literals(cg.literal_table))
}

/// Where the running offset is the sum over the literal table, a host
/// request places its literal there: the data section gains one segment in
/// memory 0 that holds the literal's bytes at that sum, the first
/// descriptor of the call is that offset and the literal's length, the
/// table gains the literal with that offset, and the running offset is the
/// sum over the table again.
pub proof fn law_literal_placed(cg: CodegenView, wasi: WasiView)
    requires
        cg.current_func is Some,
        cg.literal_fits(wasi),
        offset_is_sum(cg),
    ensures
        ({
            let after = cg.write_literal(wasi);
            let total = total_bytes(table_literals(cg.literal_table));
            let bytes = encode_utf8(wasi.literal());
            &&& after.data == cg.data.push(
                DataSegmentView { memory_index: 0, offset: total as i32, data: bytes },
            )
            &&& wasi_io_vec(wasi, cg.data_end)[0] == (total as i32, bytes.len() as i32)
            &&& after.literal_table == cg.literal_table.push((wasi.literal(), total as u32))
            &&& after.literal_offsets == cg.literal_offsets.push(
                (total as u32, bytes.len() as u32),
            )
            &&& after.data_end == total + bytes.len()
            &&& offset_is_sum(after)
        }),
{
    let after = cg.write_literal(wasi);
    let literals = table_literals(cg.literal_table);
    assert(table_literals(after.literal_table) =~= literals.push(wasi.literal()));
    assert(literals.push(wasi.literal()).drop_last() =~= literals);
}

/// The byte ranges of the literals are gapless and do not overlap: the first
/// starts at 0, each next one where the one before it ends, and the last
/// ends at the total number of bytes.
pub proof fn law_literal_ranges(literals: Seq<Seq<char>>, i: int)
    requires
        0 <= i < literals.len(),
    ensures
        literal_offset(literals, 0) == 0,
        literal_offset(literals, i + 1) == literal_offset(literals, i) + encode_utf8(
            literals[i],
        ).len(),
        literal_offset(literals, literals.len() as int) == total_bytes(literals),
        forall|j: int|
            i < j < literals.len() ==> literal_offset(literals, i) + encode_utf8(
                literals[i],
            ).len() <= #[trigger] literal_offset(literals, j),
{
    assert(literals.take(i + 1).drop_last() =~= literals.take(i));
    assert(literals.take(literals.len() as int) =~= literals);
    assert(literals.take(0) =~= Seq::<Seq<char>>::empty());
    assert forall|j: int| i < j < literals.len() implies literal_offset(literals, i)
        + encode_utf8(literals[i]).len() <= #[trigger] literal_offset(literals, j) by {
        lemma_offsets_grow(literals, i + 1, j);
    }
}

/// A later literal does not start before an earlier one.
pub proof fn lemma_offsets_grow(literals: Seq<Seq<char>>, i: int, j: int)
    requires
        0 <= i <= j <= literals.len(),
    ensures
        literal_offset(literals, i) <= literal_offset(literals, j),
    decreases j - i,
{
    if i < j {
        lemma_offsets_grow(literals, i, j - 1);
        assert(literals.take(j).drop_last() =~= literals.take(j - 1));
    }
}

/// Emitting instructions into a function with one more literal laid out
/// keeps the literals laid out.
proof fn lemma_write_laid_out(cg: CodegenView, wasi: WasiView, literals: Seq<Seq<char>>, first: int)
    requires
        laid_out(cg, literals, first),
        cg.literal_fits(wasi),
        cg.current_func is Some,
        0 <= first,
    ensures
        laid_out(cg.write_literal(wasi), literals.push(wasi.literal()), first),
{
    let more = literals.push(wasi.literal());
    let after = cg.write_literal(wasi);
    assert(more.drop_last() =~= literals);
    assert(more.take(literals.len() as int) =~= literals);
    assert forall|i: int| 0 <= i < literals.len() implies literal_offset(more, i)
        == literal_offset(literals, i) by {
        assert(more.take(i) =~= literals.take(i));
    }
    assert forall|i: int| 0 <= i < more.len() implies #[trigger] after.data[first + i]
        == literal_segment(more, i) by {
        if i < literals.len() {
            assert(after.data[first + i] == cg.data[first + i]);
        }
    }
    assert forall|i: int| 0 <= i < more.len() implies #[trigger] after.literal_table[i] == (
        more[i],
        literal_offset(more, i) as u32,
    ) by {
        if i < literals.len() {
            assert(after.literal_table[i] == cg.literal_table[i]);
        }
    }
    assert forall|i: int| 0 <= i < more.len() implies #[trigger] after.literal_offsets[i] == (
        literal_offset(more, i) as u32,
        encode_utf8(more[i]).len() as u32,
    ) by {
        if i < literals.len() {
            assert(after.literal_offsets[i] == cg.literal_offsets[i]);
        }
    }
}

/// Emitting a body without an error lays its literals out after those that
/// were there.
proof fn lemma_body_laid_out(
    cg: CodegenView,
    body: Seq<StatementView>,
    names: Seq<Seq<char>>,
    state: int,
    literals: Seq<Seq<char>>,
    first: int,
)
    requires
        laid_out(cg, literals, first),
        body_error(cg, body, state) is None,
        cg.current_func is Some,
        cg.data_end <= SCRATCH_START,
        0 <= first,
    ensures
        laid_out(emit_body(cg, body, names), literals + body_literals(body), first),
    decreases body.len(),
{
    if body.len() == 0 {
        assert(literals + body_literals(body) =~= literals);
    } else {
        let front = body.drop_last();
        let before = emit_body(cg, front, names);
        lemma_body_laid_out(cg, front, names, state, literals, first);
        lemma_emit_body_keeps(cg, front, names, state);
        assert(front =~= body.take(body.len() - 1));
        lemma_body_ok(cg, body, state, body.len() - 1);
        match body.last() {
            StatementView::Wasi(wasi) => {
                lemma_write_laid_out(before, wasi, literals + body_literals(front), first);
                assert((literals + body_literals(front)).push(wasi.literal()) =~= literals
                    + body_literals(body));
            },
            _ => {
                assert(body_literals(body) == body_literals(front));
            },
        }
    }
}

/// Emitting a state without an error lays the literals of its body out
/// after those that were there.
proof fn lemma_state_laid_out(
    cg: CodegenView,
    s: StatementView,
    literals: Seq<Seq<char>>,
    first: int,
)
    requires
        laid_out(cg, literals, first),
        state_error(cg, s) is None,
        cg.data_end <= SCRATCH_START,
        0 <= first,
    ensures
        laid_out(emit_state(cg, s), literals + body_literals(s->StateDefn_statements), first),
{
    let body = s->StateDefn_statements;
    let opened = open_state(cg, s);
    lemma_body_error_same(cg, opened, body, cg.functions.len() as int);
    lemma_body_laid_out(
        opened,
        body,
        local_names(body),
        cg.functions.len() as int,
        literals,
        first,
    );
}

/// Where the second pass succeeds, it lays the literals of the program out
/// after those that were there.
proof fn lemma_states_laid_out(
    cg: CodegenView,
    program: Seq<StatementView>,
    literals: Seq<Seq<char>>,
    first: int,
)
    requires
        laid_out(cg, literals, first),
        emit_states(cg, program) is Ok,
        cg.data_end <= SCRATCH_START,
        cg.functions.len() == 0,
        0 <= first,
    ensures
        laid_out(emit_states(cg, program)->Ok_0, literals + program_literals(program), first),
    decreases program.len(),
{
    if program.len() == 0 {
        assert(literals + program_literals(program) =~= literals);
    } else {
        let front = program.drop_last();
        let before = emit_states(cg, front)->Ok_0;
        lemma_states_laid_out(cg, front, literals, first);
        lemma_emitted(cg, front);
        lemma_state_laid_out(before, program.last(), literals + program_literals(front), first);
        assert(program.last() is StateDefn);
        assert((literals + program_literals(front)) + body_literals(
            program.last()->StateDefn_statements,
        ) =~= literals + program_literals(program));
    }
}

/// A program that lowers has its literals laid out in the order in which
/// they are met, from offset 0 on and without gaps: the literal at `i`
/// starts where the bytes of those before it end, its data segment holds its
/// bytes at that offset, the tables record offset and length, and the data
/// section ends at the sum of the lengths, below the scratch region. The
/// segments of the literals follow the newline byte's, if the program prints
/// a line, and nothing else.
pub proof fn law_literal_layout(program: Seq<StatementView>)
    requires
        lower_spec(program) is Ok,
    ensures
        laid_out(
            lower_spec(program)->Ok_0,
            program_literals(program),
            if uses_newline(program) {
                1int
            } else {
                0int
            },
        ),
        uses_newline(program) ==> lower_spec(program)->Ok_0.data[0] == newline_segment(),
        total_bytes(program_literals(program)) <= SCRATCH_START,
{
    let start = prologue(CodegenView::empty(), program);
    let declared = declare_states(start, program);
    let first = if uses_newline(program) {
        1int
    } else {
        0int
    };
    lemma_declare_keeps(start, program);
    assert(laid_out(declared, seq![], first));
    lemma_states_laid_out(declared, program, seq![], first);
    lemma_emitted(declared, program);
    assert(Seq::<Seq<char>>::empty() + program_literals(program) =~= program_literals(program));
    if uses_newline(program) {
        lemma_states_keep_data(declared, program, 0);
    }
}

/// The second pass only appends to the data section.
proof fn lemma_states_keep_data(cg: CodegenView, program: Seq<StatementView>, k: int)
    requires
        emit_states(cg, program) is Ok,
        cg.data_end <= SCRATCH_START,
        cg.functions.len() == 0,
        0 <= k < cg.data.len(),
    ensures
        emit_states(cg, program)->Ok_0.data.len() >= cg.data.len(),
        emit_states(cg, program)->Ok_0.data[k] == cg.data[k],
    decreases program.len(),
{
    if program.len() > 0 {
        let front = program.drop_last();
        let before = emit_states(cg, front)->Ok_0;
        lemma_states_keep_data(cg, front, k);
        lemma_emitted(cg, front);
        let s = program.last();
        let body = s->StateDefn_statements;
        let opened = open_state(before, s);
        lemma_body_error_same(before, opened, body, before.functions.len() as int);
        lemma_body_keeps_data(opened, body, local_names(body), before.functions.len() as int, k);
    }
}

/// Emitting a body only appends to the data section.
proof fn lemma_body_keeps_data(
    cg: CodegenView,
    body: Seq<StatementView>,
    names: Seq<Seq<char>>,
    state: int,
    k: int,
)
    requires
        0 <= k < cg.data.len(),
    ensures
        emit_body(cg, body, names).data.len() >= cg.data.len(),
        emit_body(cg, body, names).data[k] == cg.data[k],
    decreases body.len(),
{
    if body.len() > 0 {
        lemma_body_keeps_data(cg, body.drop_last(), names, state, k);
    }
}

/// Whether the binary format can hold each of the instructions.
pub open spec fn all_encodable(instructions: Seq<Instruction>) -> bool {
    forall|i: int| 0 <= i < instructions.len() ==> (#[trigger] instructions[i]).is_encodable()
}

/// Whether the binary format can hold what a compilation has emitted so
/// far: the function bodies of the code section and the function that is
/// being emitted.
pub open spec fn encodable_so_far(cg: CodegenView) -> bool {
    codes_encodable(cg.codes) && cg.current_func is Some && body_encodable(cg.current_func->0)
}

/// The instructions that store a descriptor array can be encoded.
proof fn lemma_io_vec_encodable(items: Seq<(i32, i32)>, ptr: int)
    ensures
        all_encodable(io_vec_instrs(items, ptr)),
    decreases items.len(),
{
    if items.len() > 0 {
        lemma_io_vec_encodable(items.drop_last(), ptr);
    }
}

/// Appending instructions that can be encoded keeps what was emitted
/// encodable.
proof fn lemma_emit_encodable(cg: CodegenView, instructions: Seq<Instruction>)
    requires
        encodable_so_far(cg),
        all_encodable(instructions),
    ensures
        encodable_so_far(cg.emit(instructions)),
{
}

/// Emitting a statement keeps what was emitted encodable.
proof fn lemma_statement_encodable(cg: CodegenView, s: StatementView, names: Seq<Seq<char>>)
    requires
        encodable_so_far(cg),
    ensures
        encodable_so_far(emit_statement(cg, s, names)),
{
    match s {
        StatementView::Wasi(wasi) => {
            let items = wasi_io_vec(wasi, cg.data_end);
            lemma_io_vec_encodable(items, io_vec_ptr(items.len()));
            assert(all_encodable(fd_write_instrs(STDOUT, items)));
            let placed = CodegenView {
                data: cg.write_literal(wasi).data,
                literal_table: cg.write_literal(wasi).literal_table,
                literal_offsets: cg.write_literal(wasi).literal_offsets,
                data_end: cg.write_literal(wasi).data_end,
                ..cg
            };
            lemma_emit_encodable(placed, fd_write_instrs(STDOUT, items));
        },
        _ => {},
    }
}

/// Emitting a body keeps what was emitted encodable.
proof fn lemma_body_encodable(cg: CodegenView, body: Seq<StatementView>, names: Seq<Seq<char>>)
    requires
        encodable_so_far(cg),
    ensures
        encodable_so_far(emit_body(cg, body, names)),
    decreases body.len(),
{
    if body.len() > 0 {
        lemma_body_encodable(cg, body.drop_last(), names);
        lemma_statement_encodable(emit_body(cg, body.drop_last(), names), body.last(), names);
    }
}

/// Emitting a state keeps the code section encodable.
proof fn lemma_state_encodable(cg: CodegenView, s: StatementView)
    requires
        codes_encodable(cg.codes),
    ensures
        codes_encodable(emit_state(cg, s).codes),
{
    let body = s->StateDefn_statements;
    let names = local_names(body);
    let opened = open_state(cg, s);
    lemma_body_encodable(opened, body, names);
    let done = emit_body(opened, body, names).emit(seq![Instruction::End]);
    lemma_emit_encodable(emit_body(opened, body, names), seq![Instruction::End]);
    assert forall|k: int| 0 <= k < emit_state(cg, s).codes.len() implies body_encodable(
        #[trigger] emit_state(cg, s).codes[k],
    ) by {
        if k < done.codes.len() {
            assert(emit_state(cg, s).codes[k] == done.codes[k]);
        }
    }
}

/// Where the second pass succeeds, it keeps the code section encodable.
proof fn lemma_states_encodable(cg: CodegenView, program: Seq<StatementView>)
    requires
        codes_encodable(cg.codes),
        emit_states(cg, program) is Ok,
    ensures
        codes_encodable(emit_states(cg, program)->Ok_0.codes),
    decreases program.len(),
{
    if program.len() > 0 {
        lemma_states_encodable(cg, program.drop_last());
        lemma_state_encodable(emit_states(cg, program.drop_last())->Ok_0, program.last());
    }
}

/// The binary format can hold every instruction of a program that lowers:
/// the stores that the generator emits have no alignment hint. So
/// compiling a program never fails for an instruction.
pub proof fn law_lowered_encodable(program: Seq<StatementView>)
    ensures
        lower_spec(program) is Ok ==> codes_encodable(lower_spec(program)->Ok_0.codes),
        generate_spec(program) != Err::<Seq<u8>, CompileError>(CompileError::InvalidInstruction),
{
    if lower_spec(program) is Ok {
        let start = prologue(CodegenView::empty(), program);
        let declared = declare_states(start, program);
        lemma_declare_keeps(start, program);
        lemma_states_encodable(declared, program);
    } else {
        law_lowering_errors(program);
    }
}

/// Lowering never fails for an instruction.
pub proof fn law_lowering_errors(program: Seq<StatementView>)
    ensures
        lower_spec(program) != Err::<CodegenView, CompileError>(CompileError::InvalidInstruction),
{
    if lower_spec(program) == Err::<CodegenView, CompileError>(
        CompileError::InvalidInstruction,
    ) {
        let start = prologue(CodegenView::empty(), program);
        let declared = declare_states(start, program);
        let k = lemma_failed_state(declared, program);
        let before = emit_states(declared, program.take(k))->Ok_0;
        lemma_body_error_instruction(
            before,
            program[k]->StateDefn_statements,
            before.functions.len() as int,
        );
    }
}

/// The error of a body is never that of an instruction.
proof fn lemma_body_error_instruction(cg: CodegenView, body: Seq<StatementView>, state: int)
    ensures
        body_error(cg, body, state) != Some(CompileError::InvalidInstruction),
    decreases body.len(),
{
    if body.len() > 0 {
        lemma_body_error_instruction(cg, body.drop_last(), state);
    }
}

} // verus!
