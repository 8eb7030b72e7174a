//! The binary encoder: the builders of the `wasm_encoder` crate, with what
//! this library takes on trust about them.
//!
//! Each builder is opaque. What it holds is named by a function without a
//! body, and each call that the library makes has a contract over those
//! names: a constructor holds nothing, an addition appends one item, and
//! finishing a module gives bytes that depend on nothing but the sections it
//! was given, in their order. A builder stops the program when a length does
//! not fit in 32 bits; the preconditions keep such inputs out, through
//! bounds on the number of bytes that an item takes in the binary format.

use crate::wasm::{
    DataSegment, DataSegmentView, Export, ExportEntry, ExportEntryView, FuncType, FuncTypeView,
    FunctionBodyView, Import, ImportView, Instruction, MemArg, MemoryType, ValType,
};
use vstd::prelude::*;
use vstd::utf8::encode_utf8;

verus! {

/// `wasm_encoder::Module`, of which nothing is seen but through the functions
/// below.
#[verifier::external_type_specification]
#[verifier::external_body]
pub struct ExModule(wasm_encoder::Module);

/// `wasm_encoder::TypeSection`, of which nothing is seen but through the functions
/// below.
#[verifier::external_type_specification]
#[verifier::external_body]
pub struct ExTypeSection(wasm_encoder::TypeSection);

/// `wasm_encoder::ImportSection`, of which nothing is seen but through the functions
/// below.
#[verifier::external_type_specification]
#[verifier::external_body]
pub struct ExImportSection(wasm_encoder::ImportSection);

/// `wasm_encoder::FunctionSection`, of which nothing is seen but through the functions
/// below.
#[verifier::external_type_specification]
#[verifier::external_body]
pub struct ExFunctionSection(wasm_encoder::FunctionSection);

/// `wasm_encoder::MemorySection`, of which nothing is seen but through the functions
/// below.
#[verifier::external_type_specification]
#[verifier::external_body]
pub struct ExMemorySection(wasm_encoder::MemorySection);

/// `wasm_encoder::ExportSection`, of which nothing is seen but through the functions
/// below.
#[verifier::external_type_specification]
#[verifier::external_body]
pub struct ExExportSection(wasm_encoder::ExportSection);

/// `wasm_encoder::CodeSection`, of which nothing is seen but through the functions
/// below.
#[verifier::external_type_specification]
#[verifier::external_body]
pub struct ExCodeSection(wasm_encoder::CodeSection);

/// `wasm_encoder::DataSection`, of which nothing is seen but through the functions
/// below.
#[verifier::external_type_specification]
#[verifier::external_body]
pub struct ExDataSection(wasm_encoder::DataSection);

/// `wasm_encoder::NameSection`, of which nothing is seen but through the functions
/// below.
#[verifier::external_type_specification]
#[verifier::external_body]
pub struct ExNameSection(wasm_encoder::NameSection);

/// `wasm_encoder::NameMap`, of which nothing is seen but through the functions
/// below.
#[verifier::external_type_specification]
#[verifier::external_body]
pub struct ExNameMap(wasm_encoder::NameMap);

/// `wasm_encoder::IndirectNameMap`, of which nothing is seen but through the functions
/// below.
#[verifier::external_type_specification]
#[verifier::external_body]
pub struct ExIndirectNameMap(wasm_encoder::IndirectNameMap);

/// `wasm_encoder::Function`, of which nothing is seen but through the functions
/// below.
#[verifier::external_type_specification]
#[verifier::external_body]
pub struct ExFunction(wasm_encoder::Function);

/// A section as it was handed to a module.
pub enum SectionView {
    Types(Seq<FuncTypeView>),
    Imports(Seq<ImportView>),
    Functions(Seq<u32>),
    Memories(Seq<MemoryType>),
    Exports(Seq<ExportEntryView>),
    Codes(Seq<FunctionBodyView>),
    Data(Seq<DataSegmentView>),
    /// The name section: its subsections of local names, each a sequence of
    /// functions with the names of their locals by index.
    Names(Seq<Seq<(u32, Seq<(u32, Seq<char>)>)>>),
    Custom { name: Seq<char>, data: Seq<u8> },
}

/// The sections a `wasm_encoder::Module` was given, in the order it was
/// given them.
pub uninterp spec fn module_sections(module: wasm_encoder::Module) -> Seq<SectionView>;

/// The bytes that `Module::finish` returns for a module that was given
/// these sections.
pub uninterp spec fn module_encoding(sections: Seq<SectionView>) -> Seq<u8>;

/// The signatures a `wasm_encoder::TypeSection` holds.
pub uninterp spec fn type_entries(section: wasm_encoder::TypeSection) -> Seq<FuncTypeView>;

/// The imports a `wasm_encoder::ImportSection` holds.
pub uninterp spec fn import_entries(section: wasm_encoder::ImportSection) -> Seq<ImportView>;

/// The signature indices a `wasm_encoder::FunctionSection` holds.
pub uninterp spec fn function_entries(section: wasm_encoder::FunctionSection) -> Seq<u32>;

/// The memories a `wasm_encoder::MemorySection` holds.
pub uninterp spec fn memory_entries(section: wasm_encoder::MemorySection) -> Seq<MemoryType>;

/// The exports a `wasm_encoder::ExportSection` holds.
pub uninterp spec fn export_entries(section: wasm_encoder::ExportSection) -> Seq<ExportEntryView>;

/// The function bodies a `wasm_encoder::CodeSection` holds.
pub uninterp spec fn code_entries(section: wasm_encoder::CodeSection) -> Seq<FunctionBodyView>;

/// The segments a `wasm_encoder::DataSection` holds.
pub uninterp spec fn data_entries(section: wasm_encoder::DataSection) -> Seq<DataSegmentView>;

/// The subsections of local names a `wasm_encoder::NameSection` holds.
pub uninterp spec fn name_subsections(section: wasm_encoder::NameSection) -> Seq<
    Seq<(u32, Seq<(u32, Seq<char>)>)>,
>;

/// The names a `wasm_encoder::NameMap` holds, each with its index.
pub uninterp spec fn name_entries(map: wasm_encoder::NameMap) -> Seq<(u32, Seq<char>)>;

/// The name maps a `wasm_encoder::IndirectNameMap` holds, each with its
/// index.
pub uninterp spec fn indirect_entries(map: wasm_encoder::IndirectNameMap) -> Seq<
    (u32, Seq<(u32, Seq<char>)>),
>;

/// The types of the locals a `wasm_encoder::Function` was made with, one
/// per slot.
pub uninterp spec fn function_locals(function: wasm_encoder::Function) -> Seq<ValType>;

/// The instructions a `wasm_encoder::Function` holds.
pub uninterp spec fn function_instructions(function: wasm_encoder::Function) -> Seq<Instruction>;

/// The sum of the costs of the items of a sequence.
pub open spec fn total<T>(items: Seq<T>, cost: spec_fn(T) -> nat) -> nat
    decreases items.len(),
{
    if items.len() == 0 {
        0
    } else {
        total(items.drop_last(), cost) + cost(items.last())
    }
}

/// No more bytes than a signature takes: a tag, two counts of at most five
/// bytes, and one byte per type.
pub open spec fn func_type_bound(ty: FuncTypeView) -> nat {
    11 + ty.params.len() + ty.results.len()
}

/// No more bytes than an import of a function takes: two names with their
/// lengths, a tag and an index.
pub open spec fn import_bound(import: ImportView) -> nat {
    16 + encode_utf8(import.module).len() + encode_utf8(import.field).len()
}

/// No more bytes than a signature index takes.
pub open spec fn function_bound(type_index: u32) -> nat {
    5
}

/// No more bytes than a memory type takes: a flag and two limits of at most
/// ten bytes.
pub open spec fn memory_bound(memory: MemoryType) -> nat {
    21
}

/// No more bytes than an export takes: a name with its length, a tag and an
/// index.
pub open spec fn export_bound(entry: ExportEntryView) -> nat {
    11 + encode_utf8(entry.name).len()
}

/// No more bytes than a function body takes: a count, a count and a type
/// for each run of locals, and for each instruction an opcode with
/// immediates of at most twenty bytes.
pub open spec fn body_bound(function: FunctionBodyView) -> nat {
    5 + 6 * function.locals.len() + 21 * function.instructions.len()
}

/// No more bytes than a function body takes in the code section, with its
/// length in front.
pub open spec fn code_bound(function: FunctionBodyView) -> nat {
    5 + body_bound(function)
}

/// No more bytes than an active data segment takes: a tag, a memory index,
/// the offset as a constant expression, a length and the bytes.
pub open spec fn data_bound(segment: DataSegmentView) -> nat {
    23 + segment.data.len()
}

/// No more bytes than a name takes in a name map: an index, a length and
/// the name.
pub open spec fn name_bound(entry: (u32, Seq<char>)) -> nat {
    10 + encode_utf8(entry.1).len()
}

/// No more bytes than a name map takes in an indirect name map: an index, a
/// count and the names.
pub open spec fn indirect_bound(entry: (u32, Seq<(u32, Seq<char>)>)) -> nat {
    10 + total(entry.1, |name: (u32, Seq<char>)| name_bound(name))
}

/// No more bytes than a subsection of local names takes: a tag, a length, a
/// count and the name maps.
pub open spec fn subsection_bound(entries: Seq<(u32, Seq<(u32, Seq<char>)>)>) -> nat {
    11 + total(entries, |entry: (u32, Seq<(u32, Seq<char>)>)| indirect_bound(entry))
}

/// The largest length the binary format can express.
pub open spec fn limit() -> nat {
    0xffff_ffff
}

/// `Module::new`: a module that was given no section.
#[verifier::external_body]
pub(crate) fn module_new() -> (module: wasm_encoder::Module)
    ensures
        module_sections(module) == Seq::<SectionView>::empty(),
{
    wasm_encoder::Module::new()
}

/// `Module::finish`: the module's bytes, which depend on nothing but the
/// sections it was given.
#[verifier::external_body]
pub(crate) fn module_finish(module: wasm_encoder::Module) -> (bytes: Vec<u8>)
    ensures
        bytes@ == module_encoding(module_sections(module)),
{
    module.finish()
}

/// `Module::section` with a type section: the module is given the section
/// as it stands. The section's bytes and its count must fit in 32 bits.
#[verifier::external_body]
pub(crate) fn module_types(module: &mut wasm_encoder::Module, section: &wasm_encoder::TypeSection)
    requires
        5 + total(type_entries(*section), |ty: FuncTypeView| func_type_bound(ty)) <= limit(),
    ensures
        module_sections(*final(module)) == module_sections(*old(module)).push(
            SectionView::Types(type_entries(*section)),
        ),
{
    module.section(section);
}

/// `Module::section` with an import section.
#[verifier::external_body]
pub(crate) fn module_imports(
    module: &mut wasm_encoder::Module,
    section: &wasm_encoder::ImportSection,
)
    requires
        5 + total(import_entries(*section), |import: ImportView| import_bound(import)) <= limit(),
    ensures
        module_sections(*final(module)) == module_sections(*old(module)).push(
            SectionView::Imports(import_entries(*section)),
        ),
{
    module.section(section);
}

/// `Module::section` with a function section.
#[verifier::external_body]
pub(crate) fn module_functions(
    module: &mut wasm_encoder::Module,
    section: &wasm_encoder::FunctionSection,
)
    requires
        5 + total(function_entries(*section), |index: u32| function_bound(index)) <= limit(),
    ensures
        module_sections(*final(module)) == module_sections(*old(module)).push(
            SectionView::Functions(function_entries(*section)),
        ),
{
    module.section(section);
}

/// `Module::section` with a memory section.
#[verifier::external_body]
pub(crate) fn module_memories(
    module: &mut wasm_encoder::Module,
    section: &wasm_encoder::MemorySection,
)
    requires
        5 + total(memory_entries(*section), |memory: MemoryType| memory_bound(memory)) <= limit(),
    ensures
        module_sections(*final(module)) == module_sections(*old(module)).push(
            SectionView::Memories(memory_entries(*section)),
        ),
{
    module.section(section);
}

/// `Module::section` with an export section.
#[verifier::external_body]
pub(crate) fn module_exports(
    module: &mut wasm_encoder::Module,
    section: &wasm_encoder::ExportSection,
)
    requires
        5 + total(export_entries(*section), |entry: ExportEntryView| export_bound(entry))
            <= limit(),
    ensures
        module_sections(*final(module)) == module_sections(*old(module)).push(
            SectionView::Exports(export_entries(*section)),
        ),
{
    module.section(section);
}

/// `Module::section` with a code section.
#[verifier::external_body]
pub(crate) fn module_codes(module: &mut wasm_encoder::Module, section: &wasm_encoder::CodeSection)
    requires
        5 + total(code_entries(*section), |function: FunctionBodyView| code_bound(function))
            <= limit(),
    ensures
        module_sections(*final(module)) == module_sections(*old(module)).push(
            SectionView::Codes(code_entries(*section)),
        ),
{
    module.section(section);
}

/// `Module::section` with a data section.
#[verifier::external_body]
pub(crate) fn module_data(module: &mut wasm_encoder::Module, section: &wasm_encoder::DataSection)
    requires
        5 + total(data_entries(*section), |segment: DataSegmentView| data_bound(segment))
            <= limit(),
    ensures
        module_sections(*final(module)) == module_sections(*old(module)).push(
            SectionView::Data(data_entries(*section)),
        ),
{
    module.section(section);
}

/// `Module::section` with a name section. The section's bytes and the nine
/// bytes of its header must fit in 32 bits.
#[verifier::external_body]
pub(crate) fn module_names(module: &mut wasm_encoder::Module, section: &wasm_encoder::NameSection)
    requires
        9 + total(
            name_subsections(*section),
            |entries: Seq<(u32, Seq<(u32, Seq<char>)>)>| subsection_bound(entries),
        ) <= limit(),
    ensures
        module_sections(*final(module)) == module_sections(*old(module)).push(
            SectionView::Names(name_subsections(*section)),
        ),
{
    module.section(section);
}

/// `Module::section` with a `CustomSection` of this name and data. The
/// name, the data and the five bytes of the name's length must fit in 32
/// bits. The name section is a custom section under the name `name`, so
/// that name is kept out: its bytes would read as a name section.
#[verifier::external_body]
pub(crate) fn module_custom(module: &mut wasm_encoder::Module, name: &str, data: &[u8])
    requires
        5 + encode_utf8(name@).len() + data@.len() <= limit(),
        name@ != "name"@,
    ensures
        module_sections(*final(module)) == module_sections(*old(module)).push(
            SectionView::Custom { name: name@, data: data@ },
        ),
{
    module.section(&wasm_encoder::CustomSection { name, data });
}

/// `TypeSection::new`: a section that holds nothing.
#[verifier::external_body]
pub(crate) fn types_new() -> (section: wasm_encoder::TypeSection)
    ensures
        type_entries(section) == Seq::<FuncTypeView>::empty(),
{
    wasm_encoder::TypeSection::new()
}

/// `TypeSection::function`: appends one signature. The counts of its
/// parameters and results, and the count of the section, must fit in 32
/// bits.
#[verifier::external_body]
pub(crate) fn types_function(section: &mut wasm_encoder::TypeSection, ty: &FuncType)
    requires
        ty.params.len() <= limit(),
        ty.results.len() <= limit(),
        type_entries(*old(section)).len() < limit(),
    ensures
        type_entries(*final(section)) == type_entries(*old(section)).push(ty@),
{
    section.function(
        ty.params.iter().map(|t| match t { ValType::I32 => wasm_encoder::ValType::I32 }),
        ty.results.iter().map(|t| match t { ValType::I32 => wasm_encoder::ValType::I32 }),
    );
}

/// `ImportSection::new`: a section that holds nothing.
#[verifier::external_body]
pub(crate) fn imports_new() -> (section: wasm_encoder::ImportSection)
    ensures
        import_entries(section) == Seq::<ImportView>::empty(),
{
    wasm_encoder::ImportSection::new()
}

/// `ImportSection::import` of a function, with both names given: appends
/// one import. The lengths of the names and the count of the section must
/// fit in 32 bits.
#[verifier::external_body]
pub(crate) fn imports_import(section: &mut wasm_encoder::ImportSection, import: &Import)
    requires
        encode_utf8(import.module@).len() <= limit(),
        encode_utf8(import.field@).len() <= limit(),
        import_entries(*old(section)).len() < limit(),
    ensures
        import_entries(*final(section)) == import_entries(*old(section)).push(import@),
{
    section.import(
        &import.module,
        Some(&import.field),
        wasm_encoder::EntityType::Function(import.type_index),
    );
}

/// `FunctionSection::new`: a section that holds nothing.
#[verifier::external_body]
pub(crate) fn functions_new() -> (section: wasm_encoder::FunctionSection)
    ensures
        function_entries(section) == Seq::<u32>::empty(),
{
    wasm_encoder::FunctionSection::new()
}

/// `FunctionSection::function`: appends one signature index. The count of
/// the section must fit in 32 bits.
#[verifier::external_body]
pub(crate) fn functions_function(section: &mut wasm_encoder::FunctionSection, type_index: u32)
    requires
        function_entries(*old(section)).len() < limit(),
    ensures
        function_entries(*final(section)) == function_entries(*old(section)).push(type_index),
{
    section.function(type_index);
}

/// `MemorySection::new`: a section that holds nothing.
#[verifier::external_body]
pub(crate) fn memories_new() -> (section: wasm_encoder::MemorySection)
    ensures
        memory_entries(section) == Seq::<MemoryType>::empty(),
{
    wasm_encoder::MemorySection::new()
}

/// `MemorySection::memory`: appends one memory. The count of the section
/// must fit in 32 bits.
#[verifier::external_body]
pub(crate) fn memories_memory(section: &mut wasm_encoder::MemorySection, memory: MemoryType)
    requires
        memory_entries(*old(section)).len() < limit(),
    ensures
        memory_entries(*final(section)) == memory_entries(*old(section)).push(memory),
{
    section.memory(
        wasm_encoder::MemoryType {
            minimum: memory.minimum,
            maximum: memory.maximum,
            memory64: memory.memory64,
        },
    );
}

/// `ExportSection::new`: a section that holds nothing.
#[verifier::external_body]
pub(crate) fn exports_new() -> (section: wasm_encoder::ExportSection)
    ensures
        export_entries(section) == Seq::<ExportEntryView>::empty(),
{
    wasm_encoder::ExportSection::new()
}

/// `ExportSection::export`: appends one export. The length of the name and
/// the count of the section must fit in 32 bits.
#[verifier::external_body]
pub(crate) fn exports_export(section: &mut wasm_encoder::ExportSection, entry: &ExportEntry)
    requires
        encode_utf8(entry.name@).len() <= limit(),
        export_entries(*old(section)).len() < limit(),
    ensures
        export_entries(*final(section)) == export_entries(*old(section)).push(entry@),
{
    section.export(
        &entry.name,
        match entry.export {
            Export::Function(index) => wasm_encoder::Export::Function(index),
            Export::Memory(index) => wasm_encoder::Export::Memory(index),
        },
    );
}

/// `Function::new_with_locals_types`: a body with these locals and no
/// instruction. Their count must fit in 32 bits.
#[verifier::external_body]
pub(crate) fn function_new(locals: &Vec<ValType>) -> (function: wasm_encoder::Function)
    requires
        locals.len() <= limit(),
    ensures
        function_locals(function) == locals@,
        function_instructions(function) == Seq::<Instruction>::empty(),
{
    wasm_encoder::Function::new_with_locals_types(
        locals.iter().map(|t| match t { ValType::I32 => wasm_encoder::ValType::I32 }),
    )
}

/// `Function::instruction`: appends one instruction and keeps the locals.
/// A store writes its alignment with bit 6 set where a memory index
/// follows, so an alignment that has that bit itself is kept out: its bytes
/// would read as another instruction.
#[verifier::external_body]
pub(crate) fn function_instruction(function: &mut wasm_encoder::Function, instruction: Instruction)
    requires
        instruction.is_encodable(),
    ensures
        function_locals(*final(function)) == function_locals(*old(function)),
        function_instructions(*final(function)) == function_instructions(*old(function)).push(
            instruction,
        ),
{
    let arg = |m: MemArg| wasm_encoder::MemArg {
        offset: m.offset,
        align: m.align,
        memory_index: m.memory_index,
    };
    function.instruction(&match instruction {
        Instruction::I32Const(value) => wasm_encoder::Instruction::I32Const(value),
        Instruction::LocalSet(local) => wasm_encoder::Instruction::LocalSet(local),
        Instruction::Call(index) => wasm_encoder::Instruction::Call(index),
        Instruction::I32Store(m) => wasm_encoder::Instruction::I32Store(arg(m)),
        Instruction::Drop => wasm_encoder::Instruction::Drop,
        Instruction::End => wasm_encoder::Instruction::End,
    });
}

/// `CodeSection::new`: a section that holds nothing.
#[verifier::external_body]
pub(crate) fn codes_new() -> (section: wasm_encoder::CodeSection)
    ensures
        code_entries(section) == Seq::<FunctionBodyView>::empty(),
{
    wasm_encoder::CodeSection::new()
}

/// `CodeSection::function`: appends one function body as it stands. The
/// body's bytes and the count of the section must fit in 32 bits.
#[verifier::external_body]
pub(crate) fn codes_function(
    section: &mut wasm_encoder::CodeSection,
    function: &wasm_encoder::Function,
)
    requires
        body_bound(
            FunctionBodyView {
                locals: function_locals(*function),
                instructions: function_instructions(*function),
            },
        ) <= limit(),
        code_entries(*old(section)).len() < limit(),
    ensures
        code_entries(*final(section)) == code_entries(*old(section)).push(
            FunctionBodyView {
                locals: function_locals(*function),
                instructions: function_instructions(*function),
            },
        ),
{
    section.function(function);
}

/// `DataSection::new`: a section that holds nothing.
#[verifier::external_body]
pub(crate) fn data_new() -> (section: wasm_encoder::DataSection)
    ensures
        data_entries(section) == Seq::<DataSegmentView>::empty(),
{
    wasm_encoder::DataSection::new()
}

/// `DataSection::active` with a 32-bit constant as the offset: appends one
/// segment. The number of its bytes and the count of the section must fit
/// in 32 bits.
#[verifier::external_body]
pub(crate) fn data_active(section: &mut wasm_encoder::DataSection, segment: &DataSegment)
    requires
        segment.data.len() <= limit(),
        data_entries(*old(section)).len() < limit(),
    ensures
        data_entries(*final(section)) == data_entries(*old(section)).push(segment@),
{
    section.active(
        segment.memory_index,
        &wasm_encoder::Instruction::I32Const(segment.offset),
        segment.data.iter().copied(),
    );
}

/// `NameMap::new`: a map that holds nothing.
#[verifier::external_body]
pub(crate) fn name_map_new() -> (map: wasm_encoder::NameMap)
    ensures
        name_entries(map) == Seq::<(u32, Seq<char>)>::empty(),
{
    wasm_encoder::NameMap::new()
}

/// `NameMap::append`: appends one name under an index. The length of the
/// name and the count of the map must fit in 32 bits.
#[verifier::external_body]
pub(crate) fn name_map_append(map: &mut wasm_encoder::NameMap, index: u32, name: &str)
    requires
        encode_utf8(name@).len() <= limit(),
        name_entries(*old(map)).len() < limit(),
    ensures
        name_entries(*final(map)) == name_entries(*old(map)).push((index, name@)),
{
    map.append(index, name);
}

/// `IndirectNameMap::new`: a map that holds nothing.
#[verifier::external_body]
pub(crate) fn indirect_map_new() -> (map: wasm_encoder::IndirectNameMap)
    ensures
        indirect_entries(map) == Seq::<(u32, Seq<(u32, Seq<char>)>)>::empty(),
{
    wasm_encoder::IndirectNameMap::new()
}

/// `IndirectNameMap::append`: appends one name map, as it stands, under an
/// index. The count of the map must fit in 32 bits.
#[verifier::external_body]
pub(crate) fn indirect_map_append(
    map: &mut wasm_encoder::IndirectNameMap,
    index: u32,
    names: &wasm_encoder::NameMap,
)
    requires
        indirect_entries(*old(map)).len() < limit(),
    ensures
        indirect_entries(*final(map)) == indirect_entries(*old(map)).push(
            (index, name_entries(*names)),
        ),
{
    map.append(index, names);
}

/// `NameSection::new`: a section that holds nothing.
#[verifier::external_body]
pub(crate) fn names_new() -> (section: wasm_encoder::NameSection)
    ensures
        name_subsections(section) == Seq::<Seq<(u32, Seq<(u32, Seq<char>)>)>>::empty(),
{
    wasm_encoder::NameSection::new()
}

/// `NameSection::locals`: appends a subsection with the names of locals, as
/// the indirect name map holds them. The map's bytes must fit in 32 bits.
#[verifier::external_body]
pub(crate) fn names_locals(
    section: &mut wasm_encoder::NameSection,
    names: &wasm_encoder::IndirectNameMap,
)
    requires
        subsection_bound(indirect_entries(*names)) <= limit(),
    ensures
        name_subsections(*final(section)) == name_subsections(*old(section)).push(
            indirect_entries(*names),
        ),
{
    section.locals(names);
}

} // verus!
