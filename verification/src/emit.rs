//! Emitting one state: its checks, its locals and its instructions.

use crate::codegen::{lemma_same_parts, Codegen, CodegenView, SCRATCH_START};
use crate::error::CompileError;
use crate::text::str_eq;
use crate::types::{lemma_state_body_view, statement_views, Statement, StatementView};
use crate::wasm::{
    views, Export, ExportEntry, ExportEntryView, FunctionBody, FunctionBodyView, Instruction, LocalNames,
    LocalNamesView, ValType,
};
use vstd::prelude::*;
use vstd::utf8::encode_utf8;

verus! {

/// The name of the state at which a program starts.
pub const ENTRY_NAME: &'static str = "main";

/// The name under which the entry state's function is exported.
pub const ENTRY_EXPORT: &'static str = "_start";

/// The function index that a call to `target` resolves to: that of the state
/// declared last under this name. Only positions from `first` on are states;
/// those before it are imports, which no call can name.
pub open spec fn resolve(fn_map: Seq<Seq<char>>, first: int, target: Seq<char>) -> Option<int>
    decreases fn_map.len(),
{
    if fn_map.len() == 0 || fn_map.len() <= first {
        None
    } else if fn_map.last() == target {
        Some(fn_map.len() - 1)
    } else {
        resolve(fn_map.drop_last(), first, target)
    }
}

/// The names a body assigns to, each once, in the order of their first
/// assignment. The position of a name is its local slot.
pub open spec fn local_names(body: Seq<StatementView>) -> Seq<Seq<char>>
    decreases body.len(),
{
    if body.len() == 0 {
        seq![]
    } else {
        let names = local_names(body.drop_last());
        match body.last() {
            StatementView::Assignment { name, value } => if names.contains(name) {
                names
            } else {
                names.push(name)
            },
            _ => names,
        }
    }
}

/// The types of a body's locals, by slot: for each name the type of the
/// value first assigned to it.
pub open spec fn local_types(body: Seq<StatementView>) -> Seq<ValType>
    decreases body.len(),
{
    if body.len() == 0 {
        seq![]
    } else {
        let types = local_types(body.drop_last());
        match body.last() {
            StatementView::Assignment { name, value } => if local_names(
                body.drop_last(),
            ).contains(name) {
                types
            } else {
                types.push(value.val_type())
            },
            _ => types,
        }
    }
}

/// The first position at which `name` occurs in `names`; their length if it
/// does not occur.
pub open spec fn slot_of(names: Seq<Seq<char>>, name: Seq<char>) -> int
    decreases names.len(),
{
    if names.len() == 0 {
        0
    } else if names.first() == name {
        0
    } else {
        1 + slot_of(names.drop_first(), name)
    }
}

/// The number of bytes a statement adds to the data section.
pub open spec fn literal_len(s: StatementView) -> nat {
    match s {
        StatementView::Wasi(wasi) => encode_utf8(wasi.literal()).len(),
        _ => 0,
    }
}

/// The first free byte of the data section after the literals of `body`
/// were laid out from `start` on.
pub open spec fn literal_end(start: int, body: Seq<StatementView>) -> int
    decreases body.len(),
{
    if body.len() == 0 {
        start
    } else {
        literal_end(start, body.drop_last()) + literal_len(body.last())
    }
}

/// Why statement `statement` of the state at `state` cannot be emitted, if
/// it cannot: it defines a state, calls a state that is not declared, or
/// holds a literal that does not fit between `offset` and the scratch region.
pub open spec fn statement_error(
    cg: CodegenView,
    offset: int,
    s: StatementView,
    state: int,
    statement: int,
) -> Option<CompileError> {
    match s {
        StatementView::StateDefn { .. } => Some(
            CompileError::NestedState { state: state as usize, statement: statement as usize },
        ),
        StatementView::FnCall { name, .. } => if resolve(cg.fn_map, cg.imports.len() as int, name)
            is None {
            Some(
                CompileError::UnresolvedSymbol {
                    state: state as usize,
                    statement: statement as usize,
                },
            )
        } else {
            None
        },
        StatementView::Wasi(wasi) => if offset + encode_utf8(wasi.literal()).len()
            > SCRATCH_START {
            Some(CompileError::LiteralOverflow)
        } else {
            None
        },
        _ => None,
    }
}

/// The error of the first statement of `body` that cannot be emitted, when
/// the literals are laid out from `cg.data_end` on.
pub open spec fn body_error(cg: CodegenView, body: Seq<StatementView>, state: int) -> Option<
    CompileError,
>
    decreases body.len(),
{
    if body.len() == 0 {
        None
    } else {
        match body_error(cg, body.drop_last(), state) {
            Some(e) => Some(e),
            None => statement_error(
                cg,
                literal_end(cg.data_end as int, body.drop_last()),
                body.last(),
                state,
                body.len() - 1,
            ),
        }
    }
}

/// Why a top-level statement cannot be emitted, if it cannot: it is no
/// state definition, its name has no position in the function index space,
/// it is an entry state that is not terminating or has parameters, or its
/// body has an error. Its position among the states is the number of
/// functions emitted before it.
pub open spec fn state_error(cg: CodegenView, s: StatementView) -> Option<CompileError> {
    match s {
        StatementView::StateDefn { terminating, name, input, statements } => {
            if resolve(cg.fn_map, cg.imports.len() as int, name) is None {
                Some(CompileError::UndeclaredState { index: cg.functions.len() as usize })
            } else if name == ENTRY_NAME@ && !terminating {
                Some(CompileError::EntryNotTerminal)
            } else if name == ENTRY_NAME@ && input.len() > 0 {
                Some(CompileError::EntryHasParameters)
            } else if statements.len() > u32::MAX {
                Some(CompileError::ModuleTooLarge)
            } else {
                body_error(cg, statements, cg.functions.len() as int)
            }
        },
        _ => Some(CompileError::NotAState { index: cg.functions.len() as usize }),
    }
}

/// The compilation after one statement of a body was emitted into the
/// current function. `names` are the body's locals.
pub open spec fn emit_statement(cg: CodegenView, s: StatementView, names: Seq<Seq<char>>)
    -> CodegenView {
    match s {
        StatementView::Assignment { name, value } => match value {
            crate::types::SycValue::I32(v) => cg.emit(
                seq![Instruction::I32Const(v), Instruction::LocalSet(slot_of(names, name) as u32)],
            ),
        },
        StatementView::FnCall { name, .. } => cg.emit(
            seq![
                Instruction::Call(resolve(cg.fn_map, cg.imports.len() as int, name)->0 as u32),
            ],
        ),
        StatementView::Wasi(wasi) => cg.write_literal(wasi),
        _ => cg,
    }
}

/// The compilation after the statements of a body were emitted, in order.
pub open spec fn emit_body(cg: CodegenView, body: Seq<StatementView>, names: Seq<Seq<char>>)
    -> CodegenView
    decreases body.len(),
{
    if body.len() == 0 {
        cg
    } else {
        emit_statement(emit_body(cg, body.drop_last(), names), body.last(), names)
    }
}

/// The function index of a state: the position that its name has in the
/// function index space, as a call to it resolves.
pub open spec fn state_index(cg: CodegenView, s: StatementView) -> u32
    recommends
        s is StateDefn,
        resolve(cg.fn_map, cg.imports.len() as int, s->StateDefn_name) is Some,
{
    resolve(cg.fn_map, cg.imports.len() as int, s->StateDefn_name)->0 as u32
}

/// The compilation as a state's emission starts: the function is declared
/// with the signature that has its own index, exported under that index if
/// it is the entry state, and its body is open with its locals and no
/// instruction.
pub open spec fn open_state(cg: CodegenView, s: StatementView) -> CodegenView
    recommends
        s is StateDefn,
{
    let index = state_index(cg, s);
    CodegenView {
        functions: cg.functions.push(index),
        exports: if s->StateDefn_name == ENTRY_NAME@ {
            cg.exports.push(
                ExportEntryView { name: ENTRY_EXPORT@, export: Export::Function(index) },
            )
        } else {
            cg.exports
        },
        current_func: Some(
            FunctionBodyView { locals: local_types(s->StateDefn_statements), instructions: seq![] },
        ),
        ..cg
    }
}

/// The compilation after a state was emitted: opened, its statements
/// emitted, its body ended and moved to the code section, and its locals'
/// names recorded.
pub open spec fn emit_state(cg: CodegenView, s: StatementView) -> CodegenView
    recommends
        s is StateDefn,
{
    let body = s->StateDefn_statements;
    let names = local_names(body);
    let done = emit_body(open_state(cg, s), body, names).emit(seq![Instruction::End]);
    CodegenView {
        local_names: done.local_names.push(
            LocalNamesView { function: state_index(cg, s), names },
        ),
        codes: done.codes.push(done.current_func->0),
        current_func: None,
        ..done
    }
}

/// A slot is a position in the names, or their length; it is a position
/// exactly when the name occurs, and then the name stands there.
pub proof fn lemma_slot_of(names: Seq<Seq<char>>, name: Seq<char>)
    ensures
        0 <= slot_of(names, name) <= names.len(),
        slot_of(names, name) < names.len() <==> names.contains(name),
        names.contains(name) ==> names[slot_of(names, name)] == name,
        forall|k: int| 0 <= k < slot_of(names, name) ==> names[k] != name,
    decreases names.len(),
{
    if names.len() == 0 {
    } else if names.first() == name {
    } else {
        let rest = names.drop_first();
        lemma_slot_of(rest, name);
        if names.contains(name) {
            let k = choose|k: int| 0 <= k < names.len() && names[k] == name;
            assert(rest[k - 1] == name);
        }
        if rest.contains(name) {
            let k = choose|k: int| 0 <= k < rest.len() && rest[k] == name;
            assert(names[k + 1] == name);
        }
        assert forall|k: int| 0 <= k < slot_of(names, name) implies names[k] != name by {
            if k > 0 {
                assert(names[k] == rest[k - 1]);
            }
        }
    }
}

/// A body has as many local types as local names, and no more than it has
/// statements.
pub proof fn lemma_locals_len(body: Seq<StatementView>)
    ensures
        local_names(body).len() == local_types(body).len(),
        local_names(body).len() <= body.len(),
    decreases body.len(),
{
    if body.len() > 0 {
        lemma_locals_len(body.drop_last());
    }
}

/// Every name a body assigns to is among its locals.
pub proof fn lemma_assigned_is_local(body: Seq<StatementView>, k: int)
    requires
        0 <= k < body.len(),
        body[k] is Assignment,
    ensures
        local_names(body).contains(body[k]->Assignment_name),
    decreases body.len(),
{
    let front = body.drop_last();
    let names = local_names(front);
    let name = body[k]->Assignment_name;
    if k < body.len() - 1 {
        lemma_assigned_is_local(front, k);
        let i = choose|i: int| 0 <= i < names.len() && names[i] == name;
        assert(local_names(body)[i] == name);
    } else {
        if names.contains(name) {
        } else {
            assert(local_names(body)[names.len() as int] == name);
        }
    }
}

/// Where a body has no error, none of its statements has one.
pub proof fn lemma_body_ok(cg: CodegenView, body: Seq<StatementView>, state: int, k: int)
    requires
        body_error(cg, body, state) is None,
        0 <= k < body.len(),
    ensures
        statement_error(cg, literal_end(cg.data_end as int, body.take(k)), body[k], state, k)
            is None,
    decreases body.len(),
{
    let front = body.drop_last();
    if k < body.len() - 1 {
        lemma_body_ok(cg, front, state, k);
        assert(front.take(k) =~= body.take(k));
    } else {
        assert(front =~= body.take(k));
    }
}

/// Where the statements before `k` have no error and statement `k` has one,
/// that is the body's error.
pub proof fn lemma_first_error(cg: CodegenView, body: Seq<StatementView>, state: int, k: int)
    requires
        0 <= k < body.len(),
        body_error(cg, body.take(k), state) is None,
        statement_error(cg, literal_end(cg.data_end as int, body.take(k)), body[k], state, k)
            is Some,
    ensures
        body_error(cg, body, state) == statement_error(
            cg,
            literal_end(cg.data_end as int, body.take(k)),
            body[k],
            state,
            k,
        ),
    decreases body.len(),
{
    let front = body.drop_last();
    if k < body.len() - 1 {
        assert(front.take(k) =~= body.take(k));
        lemma_first_error(cg, front, state, k);
    } else {
        assert(front =~= body.take(k));
    }
}

/// A body without an error has no error in any of its prefixes.
pub proof fn lemma_body_prefix_ok(cg: CodegenView, body: Seq<StatementView>, state: int, k: int)
    requires
        body_error(cg, body, state) is None,
        0 <= k <= body.len(),
    ensures
        body_error(cg, body.take(k), state) is None,
    decreases body.len(),
{
    if k < body.len() {
        let front = body.drop_last();
        lemma_body_prefix_ok(cg, front, state, k);
        assert(front.take(k) =~= body.take(k));
    } else {
        assert(body.take(k) =~= body);
    }
}

/// The error of a body depends on the compilation only through the function
/// index space and the end of the data section.
pub proof fn lemma_body_error_same(
    a: CodegenView,
    b: CodegenView,
    body: Seq<StatementView>,
    state: int,
)
    requires
        a.fn_map == b.fn_map,
        a.imports.len() == b.imports.len(),
        a.data_end == b.data_end,
    ensures
        body_error(a, body, state) == body_error(b, body, state),
    decreases body.len(),
{
    if body.len() > 0 {
        lemma_body_error_same(a, b, body.drop_last(), state);
    }
}

/// Laying out the literals of one more statement moves the end of the data
/// section by that statement's bytes.
pub proof fn lemma_literal_end_step(start: int, body: Seq<StatementView>, k: int)
    requires
        0 <= k < body.len(),
    ensures
        literal_end(start, body.take(k + 1)) == literal_end(start, body.take(k)) + literal_len(
            body[k],
        ),
{
    assert(body.take(k + 1).drop_last() =~= body.take(k));
}

impl Codegen {
    /// Looks a call target up in the function index space.
    pub fn resolve(&self, name: &str) -> (r: Option<u32>)
        requires
            self.fn_map.len() <= u32::MAX,
        ensures
            match r {
                Some(index) => resolve(self@.fn_map, self@.imports.len() as int, name@) == Some(
                    index as int,
                ),
                None => resolve(self@.fn_map, self@.imports.len() as int, name@) is None,
            },
    {
        let first: usize = self.imports.len();
        let mut k: usize = self.fn_map.len();
        let ghost names = views(self.fn_map@);
        assert(names.take(k as int) =~= names);
        while k > first
            invariant
                k <= self.fn_map.len() <= u32::MAX,
                first == self.imports.len(),
                names == views(self.fn_map@),
                resolve(names, first as int, name@) == resolve(
                    names.take(k as int),
                    first as int,
                    name@,
                ),
            decreases k,
        {
            k -= 1;
            assert(names.take(k + 1).drop_last() =~= names.take(k as int));
            if str_eq(self.fn_map[k].as_str(), name) {
                return Some(k as u32);
            }
        }
        None
    }
}

/// Looks a name up among the locals found so far.
pub fn find_local(names: &Vec<String>, name: &str) -> (r: Option<usize>)
    ensures
        match r {
            Some(slot) => slot < names.len() && slot == slot_of(views(names@), name@),
            None => !views(names@).contains(name@),
        },
{
    let ghost all = views(names@);
    let mut k: usize = 0;
    proof {
        lemma_slot_of(all, name@);
    }
    while k < names.len()
        invariant
            0 <= k <= names.len(),
            all == views(names@),
            forall|i: int| 0 <= i < k ==> all[i] != name@,
        decreases names.len() - k,
    {
        if str_eq(names[k].as_str(), name) {
            proof {
                lemma_slot_of(all, name@);
                assert(all[k as int] == name@);
                if slot_of(all, name@) > k {
                }
            }
            return Some(k);
        }
        k += 1;
    }
    None
}

/// Collects the locals of a body: their names by slot, and their types.
pub fn collect_locals(statements: &Vec<Statement>) -> (r: (Vec<String>, Vec<ValType>))
    ensures
        views(r.0@) == local_names(statement_views(statements@)),
        r.1@ == local_types(statement_views(statements@)),
{
    let mut locals: Vec<ValType> = Vec::new();
    let mut names: Vec<String> = Vec::new();
    let ghost body = statement_views(statements@);
    assert(body.take(0) =~= Seq::<StatementView>::empty());
    assert(views(names@) =~= local_names(body.take(0)));
    let mut k: usize = 0;
    // Create all the locals to be declared in the function
    while k < statements.len()
        invariant
            0 <= k <= statements.len(),
            body == statement_views(statements@),
            views(names@) == local_names(body.take(k as int)),
            locals@ == local_types(body.take(k as int)),
        decreases statements.len() - k,
    {
        let ghost before = views(names@);
        assert(body.take(k + 1).drop_last() =~= body.take(k as int));
        assert(body.take(k + 1).last() == statements@[k as int]@);
        match &statements[k] {
            Statement::Assignment { name, value } => {
                assert(statements@[k as int]@ == StatementView::Assignment {
                    name: name@,
                    value: *value,
                });
                if find_local(&names, name.as_str()).is_none() {
                    names.push(name.as_str().to_owned());
                    locals.push(value.as_val_type());
                    assert(views(names@) =~= before.push(name@));
                } else {
                    proof {
                        lemma_slot_of(before, name@);
                    }
                }
            },
            _ => {
                assert(!(statements@[k as int]@ is Assignment));
            },
        }
        k += 1;
    }
    assert(body.take(statements.len() as int) =~= body);
    (names, locals)
}

/// Finds the first statement of a body that cannot be emitted into
/// `codegen`, for the state at position `state`.
pub fn check_body(statements: &Vec<Statement>, codegen: &Codegen, state: usize) -> (r: Option<
    CompileError,
>)
    requires
        codegen.fn_map.len() <= u32::MAX,
    ensures
        r == body_error(codegen@, statement_views(statements@), state as int),
{
    let ghost body = statement_views(statements@);
    let mut offset: u32 = codegen.data_end;
    if offset > SCRATCH_START {
        // No literal fits: the first one, if any, is the error.
        offset = SCRATCH_START + 1;
    }
    assert(body.take(0) =~= Seq::<StatementView>::empty());
    let mut k: usize = 0;
    while k < statements.len()
        invariant
            0 <= k <= statements.len(),
            codegen.fn_map.len() <= u32::MAX,
            body == statement_views(statements@),
            body_error(codegen@, body.take(k as int), state as int) is None,
            offset <= SCRATCH_START + 1,
            codegen.data_end <= SCRATCH_START ==> offset == literal_end(
                codegen.data_end as int,
                body.take(k as int),
            ),
            codegen.data_end > SCRATCH_START ==> offset == SCRATCH_START + 1 && offset
                <= literal_end(codegen.data_end as int, body.take(k as int)),
            offset <= SCRATCH_START || codegen.data_end > SCRATCH_START,
        decreases statements.len() - k,
    {
        assert(body.take(k + 1).drop_last() =~= body.take(k as int));
        assert(body.take(k + 1).last() == statements@[k as int]@);
        let ghost end = literal_end(codegen.data_end as int, body.take(k as int));
        let ghost found = statement_error(
            codegen@,
            end,
            statements@[k as int]@,
            state as int,
            k as int,
        );
        assert(body_error(codegen@, body.take(k + 1), state as int) == found);
        proof {
            lemma_literal_end_step(codegen.data_end as int, body, k as int);
        }
        match &statements[k] {
            Statement::StateDefn { .. } => {
                assert(body.take(statements.len() as int) =~= body);
                proof {
                    lemma_first_error(codegen@, body, state as int, k as int);
                }
                return Some(CompileError::NestedState { state, statement: k });
            },
            Statement::FnCall { name, .. } => {
                if codegen.resolve(name.as_str()).is_none() {
                    proof {
                        lemma_first_error(codegen@, body, state as int, k as int);
                    }
                    return Some(CompileError::UnresolvedSymbol { state, statement: k });
                }
            },
            Statement::Wasi(wasi) => {
                let len: usize = wasi.literal().len();
                if offset > SCRATCH_START || len > (SCRATCH_START - offset) as usize {
                    proof {
                        lemma_first_error(codegen@, body, state as int, k as int);
                    }
                    return Some(CompileError::LiteralOverflow);
                }
                offset = offset + len as u32;
            },
            _ => {},
        }
        k += 1;
    }
    assert(body.take(statements.len() as int) =~= body);
    None
}

/// Emitting the statements of a body that has no error moves the end of
/// the data section by the bytes of their literals, and leaves the function
/// index space and the current function's being open as they were.
pub proof fn lemma_emit_body_keeps(
    cg: CodegenView,
    body: Seq<StatementView>,
    names: Seq<Seq<char>>,
    state: int,
)
    requires
        cg.current_func is Some,
        body_error(cg, body, state) is None,
    ensures
        emit_body(cg, body, names).fn_map == cg.fn_map,
        emit_body(cg, body, names).imports == cg.imports,
        emit_body(cg, body, names).current_func is Some,
        emit_body(cg, body, names).data_end == literal_end(cg.data_end as int, body),
        cg.data_end <= SCRATCH_START ==> literal_end(cg.data_end as int, body) <= SCRATCH_START,
    decreases body.len(),
{
    if body.len() > 0 {
        lemma_emit_body_keeps(cg, body.drop_last(), names, state);
    }
}

impl Statement {
    /// Emits a state into `codegen`: declares its function under the index
    /// that its name has in the function index space, exports it if it is
    /// the entry state, and appends its body to the code section. Anything
    /// but a state definition is an error, and so is a state whose name has
    /// no index or that breaks a rule; then `codegen` is left as it was.
    pub fn generate(&self, codegen: &mut Codegen) -> (r: Result<(), CompileError>)
        requires
            old(codegen).fn_map.len() <= u32::MAX,
        ensures
            match r {
                Ok(()) => state_error(old(codegen)@, self@) is None && final(codegen)@
                    == emit_state(old(codegen)@, self@),
                Err(e) => state_error(old(codegen)@, self@) == Some(e)
                    && *final(codegen) == *old(codegen),
            },
            final(codegen).stmt == old(codegen).stmt,
            final(codegen).debug == old(codegen).debug,
    {
        match self {
            Statement::StateDefn { name, terminating, input, statements } => {
                proof {
                    lemma_state_body_view(*self);
                }
                let ghost body = statement_views(statements@);
                let function_num: u32 = match codegen.resolve(name.as_str()) {
                    Some(index) => index,
                    None => {
                        return Err(
                            CompileError::UndeclaredState { index: codegen.functions.len() },
                        );
                    },
                };
                let is_entry = str_eq(name.as_str(), ENTRY_NAME);
                if is_entry {
                    if !*terminating {
                        return Err(CompileError::EntryNotTerminal);
                    }
                    if !input.is_empty() {
                        return Err(CompileError::EntryHasParameters);
                    }
                }
                if statements.len() > u32::MAX as usize {
                    return Err(CompileError::ModuleTooLarge);
                }
                if let Some(e) = check_body(statements, codegen, codegen.functions.len()) {
                    return Err(e);
                }
                codegen.functions.push(function_num);
                if is_entry {
                    codegen.exports.push(
                        ExportEntry {
                            name: ENTRY_EXPORT.to_owned(),
                            export: Export::Function(function_num),
                        },
                    );
                }
                let (names, locals) = collect_locals(statements);
                let ghost local_views = views(names@);
                codegen.current_func = Some(FunctionBody { locals, instructions: Vec::new() });
                let ghost opened = open_state(old(codegen)@, self@);
                proof {
                    lemma_same_parts(codegen@, opened);
                    lemma_locals_len(body);
                    lemma_body_error_same(
                        old(codegen)@,
                        opened,
                        body,
                        old(codegen).functions.len() as int,
                    );
                    assert(body.take(0) =~= Seq::<StatementView>::empty());
                }

                let mut k: usize = 0;
                while k < statements.len()
                    invariant
                        0 <= k <= statements.len() <= u32::MAX,
                        body == statement_views(statements@),
                        local_views == local_names(body),
                        local_views == views(names@),
                        local_views.len() <= body.len(),
                        opened.current_func is Some,
                        opened.fn_map == old(codegen)@.fn_map,
                        opened.imports == old(codegen)@.imports,
                        opened.data_end == old(codegen).data_end,
                        opened.fn_map.len() <= u32::MAX,
                        body_error(opened, body, old(codegen).functions.len() as int) is None,
                        codegen@ == emit_body(opened, body.take(k as int), local_views),
                        codegen.stmt == old(codegen).stmt,
                        codegen.debug == old(codegen).debug,
                    decreases statements.len() - k,
                {
                    let ghost state = old(codegen).functions.len() as int;
                    let ghost before = codegen@;
                    proof {
                        assert(body.take(k + 1).drop_last() =~= body.take(k as int));
                        assert(body.take(k + 1).last() == statements@[k as int]@);
                        lemma_body_ok(opened, body, state, k as int);
                        lemma_body_prefix_ok(opened, body, state, k as int);
                        lemma_emit_body_keeps(opened, body.take(k as int), local_views, state);
                    }
                    match &statements[k] {
                        Statement::Assignment { name, value } => {
                            proof {
                                lemma_assigned_is_local(body, k as int);
                                lemma_slot_of(local_views, name@);
                            }
                            let local = find_local(&names, name.as_str());
                            let slot: u32 = match local {
                                Some(slot) => slot as u32,
                                None => 0,
                            };
                            match value {
                                crate::types::SycValue::I32(v) => {
                                    codegen.instruction(Instruction::I32Const(*v));
                                },
                            }
                            codegen.instruction(Instruction::LocalSet(slot));
                            proof {
                                lemma_same_parts(
                                    codegen@,
                                    emit_statement(before, statements@[k as int]@, local_views),
                                );
                            }
                        },
                        Statement::Terminate => {
                            // Reserved: nothing is emitted.
                        },
                        Statement::Wasi(wasi) => {
                            let done = wasi.generate(codegen);
                            assert(done is Ok);
                        },
                        Statement::FnCall { name, .. } => {
                            let target: u32 = match codegen.resolve(name.as_str()) {
                                Some(index) => index,
                                None => 0,
                            };
                            codegen.instruction(Instruction::Call(target));
                        },
                        Statement::StateDefn { .. } => {
                            // Ruled out: the body holds no state definition.
                        },
                    }
                    k += 1;
                }
                assert(body.take(statements.len() as int) =~= body);
                proof {
                    lemma_emit_body_keeps(
                        opened,
                        body,
                        local_views,
                        old(codegen).functions.len() as int,
                    );
                }
                codegen.instruction(Instruction::End);
                codegen.local_names.push(LocalNames { function: function_num, names });
                let body_done = codegen.current_func.take();
                match body_done {
                    Some(f) => {
                        codegen.codes.push(f);
                    },
                    None => {},
                }
                proof {
                    lemma_same_parts(codegen@, emit_state(old(codegen)@, self@));
                }
                Ok(())
            },
            _ => Err(CompileError::NotAState { index: codegen.functions.len() }),
        }
    }
}

} // verus!
