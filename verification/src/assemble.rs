//! From the sections of a compilation to the bytes of its module.

use crate::codegen::{Codegen, CodegenView};
use crate::context::{offsets_encoding, CONTEXT_SECTION};
use crate::error::CompileError;
use crate::laws::law_lowered_encodable;
use crate::lower::lower_spec;
use crate::types::{statement_views, StatementView};
use crate::encoder::{
    code_bound, code_entries, codes_function, codes_new, data_active, data_bound, data_entries,
    data_new, export_bound, export_entries, exports_export, exports_new, func_type_bound,
    function_bound, function_entries, function_instruction, function_instructions,
    function_locals, function_new, functions_function, functions_new, import_bound,
    import_entries, imports_import, imports_new, indirect_bound, indirect_entries,
    indirect_map_append, indirect_map_new, limit, memories_memory, memories_new, memory_bound,
    memory_entries, module_codes, module_custom, module_data, module_encoding, module_exports,
    module_finish, module_functions, module_imports, module_memories, module_names, module_new,
    module_sections, module_types, name_bound, name_entries, name_map_append, name_map_new,
    name_subsections, names_locals, names_new, subsection_bound, total, type_entries,
    types_function, types_new, SectionView,
};
use crate::wasm::{
    views, DataSegment, DataSegmentView, ExportEntry, ExportEntryView, FuncType, FuncTypeView,
    FunctionBody, FunctionBodyView, Import, ImportView, Instruction, LocalNames, LocalNamesView,
    MemoryType,
};
use vstd::prelude::*;
use vstd::utf8::encode_utf8;

verus! {

/// The sum of the costs grows by the cost of an appended item.
pub proof fn lemma_total_push<T>(items: Seq<T>, cost: spec_fn(T) -> nat, item: T)
    ensures
        total(items.push(item), cost) == total(items, cost) + cost(item),
{
    assert(items.push(item).drop_last() =~= items);
}

/// The sum of the costs of a prefix is no more than that of the whole.
pub proof fn lemma_total_prefix<T>(items: Seq<T>, cost: spec_fn(T) -> nat, k: int)
    requires
        0 <= k <= items.len(),
    ensures
        total(items.take(k), cost) <= total(items, cost),
    decreases items.len(),
{
    if k < items.len() {
        lemma_total_prefix(items.drop_last(), cost, k);
        assert(items.drop_last().take(k) =~= items.take(k));
    } else {
        assert(items.take(k) =~= items);
    }
}

/// Where each item costs at least `unit`, the items cost at least `unit`
/// each.
pub proof fn lemma_total_at_least<T>(items: Seq<T>, cost: spec_fn(T) -> nat, unit: nat)
    requires
        forall|item: T| #[trigger] cost(item) >= unit,
    ensures
        total(items, cost) >= unit * items.len(),
    decreases items.len(),
{
    if items.len() > 0 {
        lemma_total_at_least(items.drop_last(), cost, unit);
        assert(unit * items.len() == unit * (items.len() - 1) + unit) by (nonlinear_arith);
    }
}

/// The sum of the costs of the first `k + 1` items is that of the first `k`
/// and the cost of the item at `k`.
pub proof fn lemma_total_step<T>(items: Seq<T>, cost: spec_fn(T) -> nat, k: int)
    requires
        0 <= k < items.len(),
    ensures
        total(items.take(k + 1), cost) == total(items.take(k), cost) + cost(items[k]),
{
    assert(items.take(k + 1).drop_last() =~= items.take(k));
}

/// Takes `cost` off the budget, if the budget is that large.
pub fn charge(budget: &mut u64, cost: usize) -> (ok: bool)
    ensures
        ok == (cost <= *old(budget)),
        ok ==> *final(budget) == *old(budget) - cost,
        !ok ==> *final(budget) == *old(budget),
{
    if cost as u64 <= *budget {
        *budget = *budget - cost as u64;
        true
    } else {
        false
    }
}

/// Takes `unit` off the budget `count` times over, if the budget is that
/// large.
pub fn charge_each(budget: &mut u64, count: usize, unit: u64) -> (ok: bool)
    requires
        unit > 0,
    ensures
        ok == (count * unit <= *old(budget)),
        ok ==> *final(budget) == *old(budget) - count * unit,
        !ok ==> *final(budget) == *old(budget),
{
    let most: u64 = *budget / unit;
    assert(most * unit <= *budget < (most + 1) * unit) by (nonlinear_arith)
        requires
            most == *budget / unit,
            unit > 0,
    ;
    if count as u64 <= most {
        assert(count * unit <= most * unit) by (nonlinear_arith)
            requires
                count <= most,
        ;
        *budget = *budget - count as u64 * unit;
        true
    } else {
        assert(count * unit >= (most + 1) * unit) by (nonlinear_arith)
            requires
                count >= most + 1,
        ;
        false
    }
}

/// Whether a section of these items fits the binary format: the bytes of
/// the items and of their count fit in 32 bits.
pub open spec fn section_fits<T>(items: Seq<T>, cost: spec_fn(T) -> nat) -> bool {
    5 + total(items, cost) <= limit()
}

/// Builds the type section, if it fits.
pub fn encode_types(types: &Vec<FuncType>) -> (r: Option<wasm_encoder::TypeSection>)
    ensures
        r is Some <==> section_fits(views(types@), |ty: FuncTypeView| func_type_bound(ty)),
        r is Some ==> type_entries(r->0) == views(types@),
{
    let ghost items = views(types@);
    let ghost cost = |ty: FuncTypeView| func_type_bound(ty);
    let mut section = types_new();
    let mut budget: u64 = 0xffff_ffff - 5;
    let mut k: usize = 0;
    assert(items.take(0) =~= Seq::<FuncTypeView>::empty());
    while k < types.len()
        invariant
            0 <= k <= types.len(),
            items == views(types@),
            cost == |ty: FuncTypeView| func_type_bound(ty),
            type_entries(section) == items.take(k as int),
            budget + total(items.take(k as int), cost) + 5 == limit(),
        decreases types.len() - k,
    {
        proof {
            lemma_total_step(items, cost, k as int);
            lemma_total_prefix(items, cost, k + 1);
            lemma_total_at_least(items.take(k as int), cost, 1);
        }
        let ty = &types[k];
        if !charge(&mut budget, 11) || !charge(&mut budget, ty.params.len()) || !charge(
            &mut budget,
            ty.results.len(),
        ) {
            return None;
        }
        types_function(&mut section, ty);
        assert(items.take(k + 1) =~= items.take(k as int).push(ty@));
        k += 1;
    }
    assert(items.take(types.len() as int) =~= items);
    Some(section)
}

/// Builds the import section, if it fits.
pub fn encode_imports(imports: &Vec<Import>) -> (r: Option<wasm_encoder::ImportSection>)
    ensures
        r is Some <==> section_fits(views(imports@), |import: ImportView| import_bound(import)),
        r is Some ==> import_entries(r->0) == views(imports@),
{
    let ghost items = views(imports@);
    let ghost cost = |import: ImportView| import_bound(import);
    let mut section = imports_new();
    let mut budget: u64 = 0xffff_ffff - 5;
    let mut k: usize = 0;
    assert(items.take(0) =~= Seq::<ImportView>::empty());
    while k < imports.len()
        invariant
            0 <= k <= imports.len(),
            items == views(imports@),
            cost == |import: ImportView| import_bound(import),
            import_entries(section) == items.take(k as int),
            budget + total(items.take(k as int), cost) + 5 == limit(),
        decreases imports.len() - k,
    {
        proof {
            lemma_total_step(items, cost, k as int);
            lemma_total_prefix(items, cost, k + 1);
            lemma_total_at_least(items.take(k as int), cost, 1);
        }
        let import = &imports[k];
        if !charge(&mut budget, 16) || !charge(
            &mut budget,
            import.module.as_str().as_bytes().len(),
        ) || !charge(&mut budget, import.field.as_str().as_bytes().len()) {
            return None;
        }
        imports_import(&mut section, import);
        assert(items.take(k + 1) =~= items.take(k as int).push(import@));
        k += 1;
    }
    assert(items.take(imports.len() as int) =~= items);
    Some(section)
}

/// Builds the function section, if it fits.
pub fn encode_functions(functions: &Vec<u32>) -> (r: Option<wasm_encoder::FunctionSection>)
    ensures
        r is Some <==> section_fits(functions@, |index: u32| function_bound(index)),
        r is Some ==> function_entries(r->0) == functions@,
{
    let ghost items = functions@;
    let ghost cost = |index: u32| function_bound(index);
    let mut section = functions_new();
    let mut budget: u64 = 0xffff_ffff - 5;
    let mut k: usize = 0;
    assert(items.take(0) =~= Seq::<u32>::empty());
    while k < functions.len()
        invariant
            0 <= k <= functions.len(),
            items == functions@,
            cost == |index: u32| function_bound(index),
            function_entries(section) == items.take(k as int),
            budget + total(items.take(k as int), cost) + 5 == limit(),
        decreases functions.len() - k,
    {
        proof {
            lemma_total_step(items, cost, k as int);
            lemma_total_prefix(items, cost, k + 1);
            lemma_total_at_least(items.take(k as int), cost, 1);
        }
        if !charge(&mut budget, 5) {
            return None;
        }
        functions_function(&mut section, functions[k]);
        assert(items.take(k + 1) =~= items.take(k as int).push(functions@[k as int]));
        k += 1;
    }
    assert(items.take(functions.len() as int) =~= items);
    Some(section)
}

/// Builds the memory section, if it fits.
pub fn encode_memories(memories: &Vec<MemoryType>) -> (r: Option<wasm_encoder::MemorySection>)
    ensures
        r is Some <==> section_fits(memories@, |memory: MemoryType| memory_bound(memory)),
        r is Some ==> memory_entries(r->0) == memories@,
{
    let ghost items = memories@;
    let ghost cost = |memory: MemoryType| memory_bound(memory);
    let mut section = memories_new();
    let mut budget: u64 = 0xffff_ffff - 5;
    let mut k: usize = 0;
    assert(items.take(0) =~= Seq::<MemoryType>::empty());
    while k < memories.len()
        invariant
            0 <= k <= memories.len(),
            items == memories@,
            cost == |memory: MemoryType| memory_bound(memory),
            memory_entries(section) == items.take(k as int),
            budget + total(items.take(k as int), cost) + 5 == limit(),
        decreases memories.len() - k,
    {
        proof {
            lemma_total_step(items, cost, k as int);
            lemma_total_prefix(items, cost, k + 1);
            lemma_total_at_least(items.take(k as int), cost, 1);
        }
        if !charge(&mut budget, 21) {
            return None;
        }
        memories_memory(&mut section, memories[k]);
        assert(items.take(k + 1) =~= items.take(k as int).push(memories@[k as int]));
        k += 1;
    }
    assert(items.take(memories.len() as int) =~= items);
    Some(section)
}

/// Builds the export section, if it fits.
pub fn encode_exports(exports: &Vec<ExportEntry>) -> (r: Option<wasm_encoder::ExportSection>)
    ensures
        r is Some <==> section_fits(views(exports@), |entry: ExportEntryView| export_bound(entry)),
        r is Some ==> export_entries(r->0) == views(exports@),
{
    let ghost items = views(exports@);
    let ghost cost = |entry: ExportEntryView| export_bound(entry);
    let mut section = exports_new();
    let mut budget: u64 = 0xffff_ffff - 5;
    let mut k: usize = 0;
    assert(items.take(0) =~= Seq::<ExportEntryView>::empty());
    while k < exports.len()
        invariant
            0 <= k <= exports.len(),
            items == views(exports@),
            cost == |entry: ExportEntryView| export_bound(entry),
            export_entries(section) == items.take(k as int),
            budget + total(items.take(k as int), cost) + 5 == limit(),
        decreases exports.len() - k,
    {
        proof {
            lemma_total_step(items, cost, k as int);
            lemma_total_prefix(items, cost, k + 1);
            lemma_total_at_least(items.take(k as int), cost, 1);
        }
        let entry = &exports[k];
        if !charge(&mut budget, 11) || !charge(&mut budget, entry.name.as_str().as_bytes().len()) {
            return None;
        }
        exports_export(&mut section, entry);
        assert(items.take(k + 1) =~= items.take(k as int).push(entry@));
        k += 1;
    }
    assert(items.take(exports.len() as int) =~= items);
    Some(section)
}

/// Builds the data section, if it fits.
pub fn encode_data(data: &Vec<DataSegment>) -> (r: Option<wasm_encoder::DataSection>)
    ensures
        r is Some <==> section_fits(views(data@), |segment: DataSegmentView| data_bound(segment)),
        r is Some ==> data_entries(r->0) == views(data@),
{
    let ghost items = views(data@);
    let ghost cost = |segment: DataSegmentView| data_bound(segment);
    let mut section = data_new();
    let mut budget: u64 = 0xffff_ffff - 5;
    let mut k: usize = 0;
    assert(items.take(0) =~= Seq::<DataSegmentView>::empty());
    while k < data.len()
        invariant
            0 <= k <= data.len(),
            items == views(data@),
            cost == |segment: DataSegmentView| data_bound(segment),
            data_entries(section) == items.take(k as int),
            budget + total(items.take(k as int), cost) + 5 == limit(),
        decreases data.len() - k,
    {
        proof {
            lemma_total_step(items, cost, k as int);
            lemma_total_prefix(items, cost, k + 1);
            lemma_total_at_least(items.take(k as int), cost, 1);
        }
        let segment = &data[k];
        if !charge(&mut budget, 23) || !charge(&mut budget, segment.data.len()) {
            return None;
        }
        data_active(&mut section, segment);
        assert(items.take(k + 1) =~= items.take(k as int).push(segment@));
        k += 1;
    }
    assert(items.take(data.len() as int) =~= items);
    Some(section)
}

/// Whether the binary format can hold each instruction of a function body.
pub open spec fn body_encodable(function: FunctionBodyView) -> bool {
    forall|i: int|
        0 <= i < function.instructions.len() ==> (#[trigger] function.instructions[i])
            .is_encodable()
}

/// Whether the binary format can hold each instruction of each function
/// body.
pub open spec fn codes_encodable(codes: Seq<FunctionBodyView>) -> bool {
    forall|k: int| 0 <= k < codes.len() ==> body_encodable(#[trigger] codes[k])
}

/// Tests whether the binary format can hold each instruction of each
/// function body.
pub fn instructions_encodable(codes: &Vec<FunctionBody>) -> (r: bool)
    ensures
        r == codes_encodable(views(codes@)),
{
    let ghost items = views(codes@);
    let mut k: usize = 0;
    while k < codes.len()
        invariant
            0 <= k <= codes.len(),
            items == views(codes@),
            forall|j: int| 0 <= j < k ==> body_encodable(#[trigger] items[j]),
        decreases codes.len() - k,
    {
        let function = &codes[k];
        let mut i: usize = 0;
        while i < function.instructions.len()
            invariant
                0 <= i <= function.instructions.len(),
                0 <= k < codes.len(),
                items == views(codes@),
                function == &codes@[k as int],
                forall|j: int|
                    0 <= j < i ==> (#[trigger] function@.instructions[j]).is_encodable(),
            decreases function.instructions.len() - i,
        {
            if !function.instructions[i].encodable() {
                assert(!items[k as int].instructions[i as int].is_encodable());
                assert(!body_encodable(items[k as int]));
                return false;
            }
            i += 1;
        }
        assert(body_encodable(items[k as int]));
        k += 1;
    }
    true
}

/// Builds one function body. It must be small enough for the code section,
/// and the format must be able to hold its instructions.
pub fn encode_function(function: &FunctionBody) -> (r: wasm_encoder::Function)
    requires
        function.locals.len() <= limit(),
        body_encodable(function@),
    ensures
        function_locals(r) == function@.locals,
        function_instructions(r) == function@.instructions,
{
    let mut body = function_new(&function.locals);
    let mut k: usize = 0;
    assert(function@.instructions.take(0) =~= Seq::<Instruction>::empty());
    while k < function.instructions.len()
        invariant
            0 <= k <= function.instructions.len(),
            body_encodable(function@),
            function_locals(body) == function@.locals,
            function_instructions(body) == function@.instructions.take(k as int),
        decreases function.instructions.len() - k,
    {
        function_instruction(&mut body, function.instructions[k]);
        assert(function@.instructions.take(k + 1) =~= function@.instructions.take(k as int).push(
            function.instructions@[k as int],
        ));
        k += 1;
    }
    assert(function@.instructions.take(function.instructions.len() as int)
        =~= function@.instructions);
    body
}

/// Builds the code section, if it fits. The format must be able to hold
/// the instructions.
pub fn encode_codes(codes: &Vec<FunctionBody>) -> (r: Option<wasm_encoder::CodeSection>)
    requires
        codes_encodable(views(codes@)),
    ensures
        r is Some <==> section_fits(views(codes@), |function: FunctionBodyView| code_bound(function)),
        r is Some ==> code_entries(r->0) == views(codes@),
{
    let ghost items = views(codes@);
    let ghost cost = |function: FunctionBodyView| code_bound(function);
    let mut section = codes_new();
    let mut budget: u64 = 0xffff_ffff - 5;
    let mut k: usize = 0;
    assert(items.take(0) =~= Seq::<FunctionBodyView>::empty());
    while k < codes.len()
        invariant
            0 <= k <= codes.len(),
            items == views(codes@),
            codes_encodable(items),
            cost == |function: FunctionBodyView| code_bound(function),
            code_entries(section) == items.take(k as int),
            budget + total(items.take(k as int), cost) + 5 == limit(),
        decreases codes.len() - k,
    {
        proof {
            lemma_total_step(items, cost, k as int);
            lemma_total_prefix(items, cost, k + 1);
            lemma_total_at_least(items.take(k as int), cost, 1);
        }
        let function = &codes[k];
        if !charge(&mut budget, 10) || !charge_each(&mut budget, function.locals.len(), 6)
            || !charge_each(&mut budget, function.instructions.len(), 21) {
            return None;
        }
        assert(body_encodable(items[k as int]));
        let body = encode_function(function);
        codes_function(&mut section, &body);
        assert(items.take(k + 1) =~= items.take(k as int).push(function@));
        k += 1;
    }
    assert(items.take(codes.len() as int) =~= items);
    Some(section)
}

/// The names of a function's locals, each with its slot.
pub open spec fn indexed(names: Seq<Seq<char>>) -> Seq<(u32, Seq<char>)> {
    Seq::new(names.len(), |k: int| (k as u32, names[k]))
}

/// What the name section holds for each function: its index and the names
/// of its locals by slot.
pub open spec fn local_name_entries(names: Seq<LocalNamesView>) -> Seq<
    (u32, Seq<(u32, Seq<char>)>),
> {
    Seq::new(names.len(), |k: int| (names[k].function, indexed(names[k].names)))
}

/// Whether a name section with these local names fits the binary format.
pub open spec fn names_fit(names: Seq<LocalNamesView>) -> bool {
    9 + subsection_bound(local_name_entries(names)) <= limit()
}

/// Builds the name map of one function's locals, if the budget allows, and
/// takes its cost off the budget.
pub fn encode_name_map(names: &Vec<String>, budget: &mut u64) -> (r: Option<
    wasm_encoder::NameMap,
>)
    requires
        *old(budget) <= limit(),
    ensures
        r is Some <==> total(
            indexed(views(names@)),
            |name: (u32, Seq<char>)| name_bound(name),
        ) <= *old(budget),
        r is Some ==> name_entries(r->0) == indexed(views(names@))
            && *final(budget) == *old(budget) - total(indexed(views(names@)), |name: (u32, Seq<char>)| name_bound(name)),
{
    let ghost items = indexed(views(names@));
    let ghost cost = |name: (u32, Seq<char>)| name_bound(name);
    let mut map = name_map_new();
    let mut k: usize = 0;
    assert(items.take(0) =~= Seq::<(u32, Seq<char>)>::empty());
    while k < names.len()
        invariant
            0 <= k <= names.len(),
            items == indexed(views(names@)),
            cost == |name: (u32, Seq<char>)| name_bound(name),
            name_entries(map) == items.take(k as int),
            *old(budget) <= limit(),
            *budget + total(items.take(k as int), cost) == *old(budget),
        decreases names.len() - k,
    {
        proof {
            lemma_total_step(items, cost, k as int);
            lemma_total_prefix(items, cost, k + 1);
            lemma_total_at_least(items.take(k as int), cost, 10);
        }
        let name = names[k].as_str();
        if !charge(budget, 10) || !charge(budget, name.as_bytes().len()) {
            return None;
        }
        name_map_append(&mut map, k as u32, name);
        assert(items.take(k + 1) =~= items.take(k as int).push((k as u32, name@)));
        k += 1;
    }
    assert(items.take(names.len() as int) =~= items);
    Some(map)
}

/// Builds the name section, with one subsection for the names of the
/// locals, if it fits.
pub fn encode_names(local_names: &Vec<LocalNames>) -> (r: Option<wasm_encoder::NameSection>)
    ensures
        r is Some <==> names_fit(views(local_names@)),
        r is Some ==> name_subsections(r->0) == seq![local_name_entries(views(local_names@))],
{
    let ghost items = local_name_entries(views(local_names@));
    let ghost cost = |entry: (u32, Seq<(u32, Seq<char>)>)| indirect_bound(entry);
    let mut map = indirect_map_new();
    let mut budget: u64 = 0xffff_ffff - 20;
    let mut k: usize = 0;
    assert(items.take(0) =~= Seq::<(u32, Seq<(u32, Seq<char>)>)>::empty());
    while k < local_names.len()
        invariant
            0 <= k <= local_names.len(),
            items == local_name_entries(views(local_names@)),
            cost == |entry: (u32, Seq<(u32, Seq<char>)>)| indirect_bound(entry),
            indirect_entries(map) == items.take(k as int),
            budget + total(items.take(k as int), cost) + 20 == limit(),
        decreases local_names.len() - k,
    {
        proof {
            lemma_total_step(items, cost, k as int);
            lemma_total_prefix(items, cost, k + 1);
            lemma_total_at_least(items.take(k as int), cost, 1);
        }
        let entry = &local_names[k];
        if !charge(&mut budget, 10) {
            return None;
        }
        let names = match encode_name_map(&entry.names, &mut budget) {
            Some(names) => names,
            None => {
                return None;
            },
        };
        indirect_map_append(&mut map, entry.function, &names);
        assert(items.take(k + 1) =~= items.take(k as int).push(
            (entry.function, indexed(entry@.names)),
        ));
        k += 1;
    }
    assert(items.take(local_names.len() as int) =~= items);
    let mut section = names_new();
    names_locals(&mut section, &map);
    assert(name_subsections(section) =~= seq![items]);
    Some(section)
}

impl CodegenView {
    /// Whether each section that the compilation built fits the binary
    /// format.
    pub open spec fn sections_fit(self) -> bool {
        &&& section_fits(self.types, |ty: FuncTypeView| func_type_bound(ty))
        &&& section_fits(self.imports, |import: ImportView| import_bound(import))
        &&& section_fits(self.functions, |index: u32| function_bound(index))
        &&& section_fits(self.memory, |memory: MemoryType| memory_bound(memory))
        &&& section_fits(self.exports, |entry: ExportEntryView| export_bound(entry))
        &&& section_fits(self.codes, |function: FunctionBodyView| code_bound(function))
        &&& section_fits(self.data, |segment: DataSegmentView| data_bound(segment))
        &&& names_fit(self.local_names)
    }

    /// The sections of the module in the order that the format demands:
    /// types, imports, functions, memory, exports, code, data, names, and
    /// last the custom section with the serialised context.
    pub open spec fn sections(self, metadata: Seq<u8>) -> Seq<SectionView> {
        seq![
            SectionView::Types(self.types),
            SectionView::Imports(self.imports),
            SectionView::Functions(self.functions),
            SectionView::Memories(self.memory),
            SectionView::Exports(self.exports),
            SectionView::Codes(self.codes),
            SectionView::Data(self.data),
            SectionView::Names(seq![local_name_entries(self.local_names)]),
            SectionView::Custom { name: CONTEXT_SECTION@, data: metadata },
        ]
    }
}

/// The bytes of the module that a compilation built, with the serialised
/// context in its last section; none where the format cannot hold an
/// instruction, or where a section does not fit.
pub open spec fn assemble_spec(cg: CodegenView) -> Result<Seq<u8>, CompileError> {
    let metadata = offsets_encoding(cg.literal_offsets);
    if !codes_encodable(cg.codes) {
        Err(CompileError::InvalidInstruction)
    } else if !cg.sections_fit() {
        Err(CompileError::ModuleTooLarge)
    } else if 5 + encode_utf8(CONTEXT_SECTION@).len() + metadata.len() > limit() {
        Err(CompileError::ModuleTooLarge)
    } else {
        Ok(module_encoding(cg.sections(metadata)))
    }
}

/// What compiling a program gives: the bytes of its module, or the first
/// error.
pub open spec fn generate_spec(program: Seq<StatementView>) -> Result<
    Seq<u8>,
    CompileError,
> {
    match lower_spec(program) {
        Err(e) => Err(e),
        Ok(cg) => assemble_spec(cg),
    }
}

impl Codegen {
    /// Encodes the sections into a module, in the order that the format
    /// demands, with the serialised context in a custom section at the end.
    pub fn assemble(&self) -> (r: Result<Vec<u8>, CompileError>)
        ensures
            match r {
                Ok(bytes) => assemble_spec(self@) == Ok::<Seq<u8>, CompileError>(bytes@),
                Err(e) => assemble_spec(self@) == Err::<Seq<u8>, CompileError>(e),
            },
    {
        if !instructions_encodable(&self.codes) {
            return Err(CompileError::InvalidInstruction);
        }
        let types = match encode_types(&self.types) {
            Some(section) => section,
            None => {
                return Err(CompileError::ModuleTooLarge);
            },
        };
        let imports = match encode_imports(&self.imports) {
            Some(section) => section,
            None => {
                return Err(CompileError::ModuleTooLarge);
            },
        };
        let functions = match encode_functions(&self.functions) {
            Some(section) => section,
            None => {
                return Err(CompileError::ModuleTooLarge);
            },
        };
        let memory = match encode_memories(&self.memory) {
            Some(section) => section,
            None => {
                return Err(CompileError::ModuleTooLarge);
            },
        };
        let exports = match encode_exports(&self.exports) {
            Some(section) => section,
            None => {
                return Err(CompileError::ModuleTooLarge);
            },
        };
        let codes = match encode_codes(&self.codes) {
            Some(section) => section,
            None => {
                return Err(CompileError::ModuleTooLarge);
            },
        };
        let data = match encode_data(&self.data) {
            Some(section) => section,
            None => {
                return Err(CompileError::ModuleTooLarge);
            },
        };
        let names = match encode_names(&self.local_names) {
            Some(section) => section,
            None => {
                return Err(CompileError::ModuleTooLarge);
            },
        };
        let metadata = self.ctx.to_bytes();
        let name_len: usize = CONTEXT_SECTION.as_bytes().len();
        if name_len > 0xffff_fffa || metadata.len() > 0xffff_fffa - name_len {
            return Err(CompileError::ModuleTooLarge);
        }
        // Set the sections in the right order
        let mut module = module_new();
        module_types(&mut module, &types);
        module_imports(&mut module, &imports);
        module_functions(&mut module, &functions);
        module_memories(&mut module, &memory);
        module_exports(&mut module, &exports);
        module_codes(&mut module, &codes);
        module_data(&mut module, &data);
        proof {
            let entries = local_name_entries(self@.local_names);
            let cost = |entries: Seq<(u32, Seq<(u32, Seq<char>)>)>| subsection_bound(entries);
            let none = Seq::<Seq<(u32, Seq<(u32, Seq<char>)>)>>::empty();
            lemma_total_push(none, cost, entries);
            assert(seq![entries] =~= none.push(entries));
        }
        module_names(&mut module, &names);
        proof {
            reveal_strlit("SycContext");
            reveal_strlit("name");
            assert(CONTEXT_SECTION@.len() != "name"@.len());
        }
        module_custom(&mut module, CONTEXT_SECTION, metadata.as_slice());
        assert(module_sections(module) =~= self@.sections(metadata@));
        Ok(module_finish(module))
    }

    /// Compiles the program: lowers it and encodes what was built. The
    /// format can hold every instruction that lowering emits, so this never
    /// fails for an instruction.
    pub fn generate(self) -> (r: Result<Vec<u8>, CompileError>)
        requires
            self@ == CodegenView::empty(),
        ensures
            match r {
                Ok(bytes) => generate_spec(statement_views(self.stmt@)) == Ok::<
                    Seq<u8>,
                    CompileError,
                >(bytes@),
                Err(e) => generate_spec(statement_views(self.stmt@)) == Err::<
                    Seq<u8>,
                    CompileError,
                >(e),
            },
            r != Err::<Vec<u8>, CompileError>(CompileError::InvalidInstruction),
    {
        proof {
            law_lowered_encodable(statement_views(self.stmt@));
        }
        let mut codegen = self;
        match codegen.lower() {
            Err(e) => Err(e),
            Ok(()) => codegen.assemble(),
        }
    }
}

} // verus!
