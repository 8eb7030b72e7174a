use libsyc::assemble::{charge, charge_each};
use libsyc::codegen::Codegen;
use libsyc::context::{find_section, ContextError, Payload, SycContext, CONTEXT_SECTION};
use libsyc::error::{CompileError, ParseError};
use libsyc::parser::SycParser;
use libsyc::{accept, build, BuildError};
use wasm_encoder::{
    CodeSection, CustomSection, DataSection, EntityType, Export, ExportSection, Function,
    FunctionSection, ImportSection, IndirectNameMap, Instruction, MemArg, MemorySection,
    MemoryType, Module, NameMap, NameSection, TypeSection, ValType,
};
use wasmparser::{
    DataKind, ImportSectionEntryType, Parser, Payload as Item, TypeDef,
};

const PRINT_HI: &str = "terminating state main() { print(\"hi\"); terminate; }";
const CALL_HELPER: &str =
    "state helper() { println(\"x\"); } terminating state main() { helper(); terminate; }";
const CALL_GHOST: &str = "terminating state main() { ghost(); terminate; }";

fn operators(body: &wasmparser::FunctionBody) -> Vec<String> {
    body.get_operators_reader()
        .unwrap()
        .into_iter()
        .map(|op| format!("{:?}", op.unwrap()))
        .collect()
}

fn section_order(wasm: &[u8]) -> Vec<String> {
    let mut order = Vec::new();
    for item in Parser::new(0).parse_all(wasm) {
        match item.unwrap() {
            Item::TypeSection(_) => order.push("type".to_string()),
            Item::ImportSection(_) => order.push("import".to_string()),
            Item::FunctionSection(_) => order.push("function".to_string()),
            Item::MemorySection(_) => order.push("memory".to_string()),
            Item::ExportSection(_) => order.push("export".to_string()),
            Item::CodeSectionStart { .. } => order.push("code".to_string()),
            Item::DataSection(_) => order.push("data".to_string()),
            Item::CustomSection { name, .. } => order.push(format!("custom {}", name)),
            _ => {}
        }
    }
    order
}

fn custom_section(wasm: &[u8], wanted: &str) -> Vec<u8> {
    for item in Parser::new(0).parse_all(wasm) {
        if let Item::CustomSection { name, data, .. } = item.unwrap() {
            if name == wanted {
                return data.to_vec();
            }
        }
    }
    panic!("no custom section {}", wanted);
}

#[test]
fn a_print_compiles_to_one_data_segment_and_one_call() {
    let wasm = build(PRINT_HI, false).unwrap();
    assert!(wasmparser::validate(&wasm).is_ok());
    let mut segments = Vec::new();
    let mut exports = Vec::new();
    let mut bodies = Vec::new();
    let mut locals = Vec::new();
    for item in Parser::new(0).parse_all(&wasm) {
        match item.unwrap() {
            Item::DataSection(reader) => {
                for segment in reader {
                    let segment = segment.unwrap();
                    match segment.kind {
                        DataKind::Active {
                            memory_index,
                            init_expr,
                        } => {
                            let ops: Vec<String> = init_expr
                                .get_operators_reader()
                                .into_iter()
                                .map(|op| format!("{:?}", op.unwrap()))
                                .collect();
                            segments.push((memory_index, ops, segment.data.to_vec()));
                        }
                        DataKind::Passive => panic!("a passive segment"),
                    }
                }
            }
            Item::ExportSection(reader) => {
                for export in reader {
                    let export = export.unwrap();
                    exports.push((export.field.to_string(), format!("{:?}", export.kind), export.index));
                }
            }
            Item::CodeSectionEntry(body) => {
                locals.push(body.get_locals_reader().unwrap().get_count());
                bodies.push(operators(&body));
            }
            _ => {}
        }
    }
    assert_eq!(
        segments,
        vec![(
            0,
            vec!["I32Const { value: 0 }".to_string(), "End".to_string()],
            b"hi".to_vec()
        )]
    );
    assert_eq!(
        exports,
        vec![
            ("memory".to_string(), "Memory".to_string(), 0),
            ("_start".to_string(), "Function".to_string(), 1),
        ]
    );
    assert_eq!(locals, vec![0]);
    assert_eq!(bodies.len(), 1);
    assert_eq!(
        bodies[0],
        vec![
            "I32Const { value: 65524 }",
            "I32Const { value: 0 }",
            "I32Store { memarg: MemoryImmediate { align: 0, offset: 0, memory: 0 } }",
            "I32Const { value: 65528 }",
            "I32Const { value: 2 }",
            "I32Store { memarg: MemoryImmediate { align: 0, offset: 0, memory: 0 } }",
            "I32Const { value: 1 }",
            "I32Const { value: 65524 }",
            "I32Const { value: 1 }",
            "I32Const { value: 65532 }",
            "Call { function_index: 0 }",
            "Drop",
            "End",
        ]
    );
}

#[test]
fn the_bytes_are_what_the_encoder_gives_for_the_sections() {
    let mut types = TypeSection::new();
    types.function(vec![ValType::I32; 4], vec![ValType::I32]);
    types.function(Vec::new(), Vec::new());
    let mut imports = ImportSection::new();
    imports.import("wasi_unstable", Some("fd_write"), EntityType::Function(0));
    let mut functions = FunctionSection::new();
    functions.function(1);
    let mut memory = MemorySection::new();
    memory.memory(MemoryType {
        minimum: 1,
        maximum: None,
        memory64: false,
    });
    let mut exports = ExportSection::new();
    exports.export("memory", Export::Memory(0));
    exports.export("_start", Export::Function(1));
    let store = MemArg {
        offset: 0,
        align: 0,
        memory_index: 0,
    };
    let mut body = Function::new_with_locals_types(Vec::new());
    body.instruction(&Instruction::I32Const(65524));
    body.instruction(&Instruction::I32Const(0));
    body.instruction(&Instruction::I32Store(store));
    body.instruction(&Instruction::I32Const(65528));
    body.instruction(&Instruction::I32Const(2));
    body.instruction(&Instruction::I32Store(store));
    body.instruction(&Instruction::I32Const(1));
    body.instruction(&Instruction::I32Const(65524));
    body.instruction(&Instruction::I32Const(1));
    body.instruction(&Instruction::I32Const(65532));
    body.instruction(&Instruction::Call(0));
    body.instruction(&Instruction::Drop);
    body.instruction(&Instruction::End);
    let mut codes = CodeSection::new();
    codes.function(&body);
    let mut data = DataSection::new();
    data.active(0, &Instruction::I32Const(0), b"hi".iter().copied());
    let mut locals = IndirectNameMap::new();
    locals.append(1, &NameMap::new());
    let mut names = NameSection::new();
    names.locals(&locals);
    let mut module = Module::new();
    module.section(&types);
    module.section(&imports);
    module.section(&functions);
    module.section(&memory);
    module.section(&exports);
    module.section(&codes);
    module.section(&data);
    module.section(&names);
    module.section(&CustomSection {
        name: "SycContext",
        data: &[1, 0, 0, 0, 0, 0, 0, 0, 0, 0, 0, 0, 2, 0, 0, 0],
    });
    assert_eq!(build(PRINT_HI, false).unwrap(), module.finish());
}

#[test]
fn functions_are_numbered_after_the_import() {
    let wasm = build(CALL_HELPER, false).unwrap();
    assert!(wasmparser::validate(&wasm).is_ok());
    let mut imports = Vec::new();
    let mut functions = Vec::new();
    let mut exports = Vec::new();
    let mut bodies = Vec::new();
    let mut types = Vec::new();
    for item in Parser::new(0).parse_all(&wasm) {
        match item.unwrap() {
            Item::TypeSection(reader) => {
                for ty in reader {
                    match ty.unwrap() {
                        TypeDef::Func(f) => types.push((f.params.len(), f.returns.len())),
                        _ => panic!("not a function type"),
                    }
                }
            }
            Item::ImportSection(reader) => {
                for import in reader {
                    let import = import.unwrap();
                    let index = match import.ty {
                        ImportSectionEntryType::Function(index) => index,
                        _ => panic!("not a function"),
                    };
                    imports.push((import.module.to_string(), import.field.map(String::from), index));
                }
            }
            Item::FunctionSection(reader) => {
                for index in reader {
                    functions.push(index.unwrap());
                }
            }
            Item::ExportSection(reader) => {
                for export in reader {
                    let export = export.unwrap();
                    exports.push((export.field.to_string(), format!("{:?}", export.kind), export.index));
                }
            }
            Item::CodeSectionEntry(body) => bodies.push(operators(&body)),
            _ => {}
        }
    }
    assert_eq!(types, vec![(4, 1), (0, 0), (0, 0)]);
    assert_eq!(
        imports,
        vec![(
            "wasi_unstable".to_string(),
            Some("fd_write".to_string()),
            0
        )]
    );
    // With one import, `helper` is function 1 and `main` function 2.
    assert_eq!(functions, vec![1, 2]);
    assert_eq!(
        exports[1],
        ("_start".to_string(), "Function".to_string(), 2)
    );
    assert_eq!(bodies[1], vec!["Call { function_index: 1 }", "End"]);
}

#[test]
fn a_call_to_an_undeclared_state_gives_no_binary() {
    assert_eq!(
        build(CALL_GHOST, false),
        Err(BuildError::Compile(CompileError::UnresolvedSymbol {
            state: 0,
            statement: 0
        }))
    );
}

#[test]
fn compiling_twice_gives_the_same_bytes() {
    for source in [PRINT_HI, CALL_HELPER] {
        assert_eq!(build(source, false), build(source, false));
        assert_eq!(build(source, false), build(source, true));
    }
    assert_eq!(build(CALL_GHOST, false), build(CALL_GHOST, false));
}

#[test]
fn the_sections_come_in_the_order_of_the_format() {
    let wasm = build(CALL_HELPER, false).unwrap();
    assert_eq!(
        section_order(&wasm),
        vec![
            "type",
            "import",
            "function",
            "memory",
            "export",
            "code",
            "data",
            "custom name",
            "custom SycContext",
        ]
    );
    assert_eq!(&wasm[..8], &[0x00, 0x61, 0x73, 0x6d, 0x01, 0x00, 0x00, 0x00]);
}

#[test]
fn well_formed_programs_give_valid_modules() {
    for source in [
        "terminating state main() {}",
        "terminating state main() { x <- 1; y <- -2; x <- 3; terminate; }",
        "state a() { println(\"one\"); b(); } state b() { print(\"\"); } terminating state main() { a(); b(); println(\"é€\"); }",
        "terminating state main() { main(); }",
    ] {
        let wasm = build(source, false).unwrap();
        assert!(wasmparser::validate(&wasm).is_ok());
    }
}

#[test]
fn a_name_declared_twice_is_rejected() {
    assert_eq!(
        build(
            "terminating state main() {} terminating state main() {}",
            false
        ),
        Err(BuildError::Compile(CompileError::DuplicateState { index: 1 }))
    );
    assert_eq!(
        build(
            "state a() {} terminating state main() {} state b() {} state a() { ghost(); }",
            false
        ),
        Err(BuildError::Compile(CompileError::DuplicateState { index: 3 }))
    );
}

#[test]
fn more_data_segments_than_the_validator_takes_give_a_module_that_is_not_valid() {
    let mut source = String::from("terminating state main() {");
    for _ in 0..100_001 {
        source.push_str(" print(\"\");");
    }
    source.push_str(" }");
    assert_eq!(build(&source, false), Err(BuildError::Invalid));
}

#[test]
fn a_text_that_does_not_parse_is_not_compiled() {
    assert_eq!(
        build("state main() {", false),
        Err(BuildError::Parse(ParseError::UnexpectedEof))
    );
    assert_eq!(
        build("state main() {}", false),
        Err(BuildError::Compile(CompileError::EntryNotTerminal))
    );
    assert_eq!(
        build("", false),
        Err(BuildError::Compile(CompileError::MissingEntry))
    );
}

#[test]
fn a_module_is_accepted_if_it_is_valid() {
    assert_eq!(accept(vec![1, 2], true), Ok(vec![1, 2]));
    assert_eq!(accept(vec![1, 2], false), Err(BuildError::Invalid));
}

#[test]
fn the_names_of_the_locals_are_recorded() {
    let wasm = build(
        "state a() { q <- 1; } terminating state main() { x <- 1; y <- 2; }",
        false,
    )
    .unwrap();
    assert_eq!(
        custom_section(&wasm, "name"),
        vec![
            0x02, 0x0e, // the subsection of local names and its size
            0x02, // two functions
            0x01, 0x01, 0x00, 0x01, b'q', // function 1: one name
            0x02, 0x02, 0x00, 0x01, b'x', 0x01, 0x01, b'y', // function 2: two names
        ]
    );
}

#[test]
fn the_context_is_stored_in_the_binary() {
    let wasm = build(
        "terminating state main() { print(\"abc\"); println(\"de\"); }",
        false,
    )
    .unwrap();
    assert_eq!(
        custom_section(&wasm, CONTEXT_SECTION),
        vec![
            2, 0, 0, 0, 0, 0, 0, 0, // two pairs
            0, 0, 0, 0, 3, 0, 0, 0, // offset 0, length 3
            3, 0, 0, 0, 2, 0, 0, 0, // offset 3, length 2
        ]
    );
    let context = SycContext::from_sycamore_binary(&wasm).unwrap();
    assert_eq!(context.literal_offsets, vec![(0, 3), (3, 2)]);
}

#[test]
fn generate_and_assemble_agree() {
    let program = SycParser::new(CALL_HELPER).parse().unwrap();
    let mut codegen = Codegen::new(program, false);
    assert_eq!(codegen.lower(), Ok(()));
    let assembled = codegen.assemble().unwrap();
    let program = SycParser::new(CALL_HELPER).parse().unwrap();
    assert_eq!(Codegen::new(program, false).generate(), Ok(assembled));
}

#[test]
fn a_context_is_read_back_from_its_bytes() {
    let context = SycContext {
        literal_offsets: vec![(1, 2), (0x01020304, 0xfffffffe)],
    };
    let bytes = context.to_bytes();
    assert_eq!(
        bytes,
        vec![
            2, 0, 0, 0, 0, 0, 0, 0, 1, 0, 0, 0, 2, 0, 0, 0, 4, 3, 2, 1, 0xfe, 0xff, 0xff, 0xff
        ]
    );
    assert_eq!(
        SycContext::from_bytes(&bytes).unwrap().literal_offsets,
        context.literal_offsets
    );
    assert_eq!(SycContext::new().to_bytes(), vec![0; 8]);
    assert!(SycContext::from_bytes(&[0; 8])
        .unwrap()
        .literal_offsets
        .is_empty());
}

#[test]
fn bytes_after_a_context_are_ignored_and_missing_bytes_are_an_error() {
    let mut bytes = SycContext {
        literal_offsets: vec![(5, 6)],
    }
    .to_bytes();
    bytes.push(9);
    assert_eq!(
        SycContext::from_bytes(&bytes).unwrap().literal_offsets,
        vec![(5, 6)]
    );
    assert!(SycContext::from_bytes(&bytes[..15]).is_none());
    assert!(SycContext::from_bytes(&[]).is_none());
}

#[test]
fn the_first_section_of_the_name_is_found() {
    let payloads = vec![
        Payload::Other,
        Payload::Custom {
            name: "name".to_string(),
            data: vec![1],
        },
        Payload::Custom {
            name: "SycContext".to_string(),
            data: vec![0; 8],
        },
        Payload::Custom {
            name: "SycContext".to_string(),
            data: vec![7],
        },
    ];
    let first_two = vec![
        Payload::Other,
        Payload::Custom {
            name: "name".to_string(),
            data: vec![1],
        },
    ];
    let last = vec![Payload::Custom {
        name: "SycContext".to_string(),
        data: vec![7],
    }];
    assert_eq!(find_section(&payloads, "SycContext"), Ok(&vec![0; 8]));
    assert_eq!(find_section(&payloads, "name"), Ok(&vec![1]));
    assert_eq!(
        find_section(&payloads, "other"),
        Err(ContextError::Missing)
    );
    let broken = vec![
        Payload::Custom {
            name: "name".to_string(),
            data: vec![1],
        },
        Payload::Malformed,
    ];
    assert_eq!(find_section(&broken, "name"), Ok(&vec![1]));
    assert_eq!(
        find_section(&broken, "SycContext"),
        Err(ContextError::Malformed)
    );
    assert!(SycContext::from_payloads(&payloads)
        .unwrap()
        .literal_offsets
        .is_empty());
    assert_eq!(
        SycContext::from_payloads(&first_two).err(),
        Some(ContextError::Missing)
    );
    assert_eq!(
        SycContext::from_payloads(&last).err(),
        Some(ContextError::Undecodable)
    );
}

#[test]
fn a_binary_without_a_context() {
    assert_eq!(
        SycContext::from_sycamore_binary(b"not a module").err(),
        Some(ContextError::Malformed)
    );
    assert_eq!(
        SycContext::from_sycamore_binary(&[0x00, 0x61, 0x73, 0x6d, 0x01, 0x00, 0x00, 0x00]).err(),
        Some(ContextError::Missing)
    );
    let mut module = Module::new();
    module.section(&CustomSection {
        name: "SycContext",
        data: &[1, 0, 0, 0, 0, 0, 0, 0, 1],
    });
    assert_eq!(
        SycContext::from_sycamore_binary(&module.finish()).err(),
        Some(ContextError::Undecodable)
    );
}

#[test]
fn a_budget_is_charged_only_if_it_suffices() {
    let mut budget = 10;
    assert!(charge(&mut budget, 4));
    assert_eq!(budget, 6);
    assert!(!charge(&mut budget, 7));
    assert_eq!(budget, 6);
    assert!(charge(&mut budget, 6));
    assert_eq!(budget, 0);
    let mut budget = 100;
    assert!(charge_each(&mut budget, 4, 21));
    assert_eq!(budget, 16);
    assert!(!charge_each(&mut budget, 1, 21));
    assert_eq!(budget, 16);
    assert!(charge_each(&mut budget, 0, 21));
    assert!(charge_each(&mut budget, 16, 1));
    assert_eq!(budget, 0);
    let mut budget = u64::MAX;
    assert!(!charge_each(&mut budget, usize::MAX, 21));
    assert_eq!(budget, u64::MAX);
}

#[test]
fn any_sections_are_encoded_as_they_stand() {
    let mut codegen = Codegen::new(Vec::new(), false);
    codegen.types.push(libsyc::wasm::FuncType {
        params: vec![libsyc::wasm::ValType::I32],
        results: Vec::new(),
    });
    codegen.types.push(libsyc::wasm::FuncType {
        params: Vec::new(),
        results: vec![libsyc::wasm::ValType::I32, libsyc::wasm::ValType::I32],
    });
    for (module, field, type_index) in [("env", "one", 0), ("é", "", 1)] {
        codegen.imports.push(libsyc::wasm::Import {
            module: module.to_string(),
            field: field.to_string(),
            type_index,
        });
    }
    codegen.functions = vec![1, 0, 300];
    codegen.memory = vec![
        libsyc::wasm::MemoryType {
            minimum: 2,
            maximum: Some(70000),
            memory64: false,
        },
        libsyc::wasm::MemoryType {
            minimum: 0,
            maximum: None,
            memory64: true,
        },
    ];
    codegen.exports.push(libsyc::wasm::ExportEntry {
        name: "f".to_string(),
        export: libsyc::wasm::Export::Function(200),
    });
    codegen.exports.push(libsyc::wasm::ExportEntry {
        name: "mém".to_string(),
        export: libsyc::wasm::Export::Memory(1),
    });
    let everything = vec![
        libsyc::wasm::Instruction::I32Const(-1),
        libsyc::wasm::Instruction::I32Const(i32::MAX),
        libsyc::wasm::Instruction::LocalSet(129),
        libsyc::wasm::Instruction::Call(70000),
        libsyc::wasm::Instruction::I32Store(libsyc::wasm::MemArg {
            offset: 1 << 40,
            align: 2,
            memory_index: 0,
        }),
        libsyc::wasm::Instruction::I32Store(libsyc::wasm::MemArg {
            offset: 3,
            align: 1,
            memory_index: 1,
        }),
        libsyc::wasm::Instruction::Drop,
        libsyc::wasm::Instruction::End,
    ];
    codegen.codes.push(libsyc::wasm::FunctionBody {
        locals: vec![libsyc::wasm::ValType::I32; 3],
        instructions: everything,
    });
    codegen.codes.push(libsyc::wasm::FunctionBody {
        locals: Vec::new(),
        instructions: Vec::new(),
    });
    codegen.data.push(libsyc::wasm::DataSegment {
        memory_index: 0,
        offset: -5,
        data: vec![1, 2, 3],
    });
    codegen.data.push(libsyc::wasm::DataSegment {
        memory_index: 1,
        offset: 1 << 20,
        data: Vec::new(),
    });
    codegen.local_names.push(libsyc::wasm::LocalNames {
        function: 7,
        names: vec!["a".to_string(), "bé".to_string()],
    });
    codegen.local_names.push(libsyc::wasm::LocalNames {
        function: 9,
        names: Vec::new(),
    });
    codegen.ctx.literal_offsets = vec![(9, 8), (7, 6)];

    let mut types = TypeSection::new();
    types.function(vec![ValType::I32], Vec::new());
    types.function(Vec::new(), vec![ValType::I32, ValType::I32]);
    let mut imports = ImportSection::new();
    imports.import("env", Some("one"), EntityType::Function(0));
    imports.import("é", Some(""), EntityType::Function(1));
    let mut functions = FunctionSection::new();
    functions.function(1);
    functions.function(0);
    functions.function(300);
    let mut memory = MemorySection::new();
    memory.memory(MemoryType {
        minimum: 2,
        maximum: Some(70000),
        memory64: false,
    });
    memory.memory(MemoryType {
        minimum: 0,
        maximum: None,
        memory64: true,
    });
    let mut exports = ExportSection::new();
    exports.export("f", Export::Function(200));
    exports.export("mém", Export::Memory(1));
    let mut first = Function::new_with_locals_types(vec![ValType::I32; 3]);
    first.instruction(&Instruction::I32Const(-1));
    first.instruction(&Instruction::I32Const(i32::MAX));
    first.instruction(&Instruction::LocalSet(129));
    first.instruction(&Instruction::Call(70000));
    first.instruction(&Instruction::I32Store(MemArg {
        offset: 1 << 40,
        align: 2,
        memory_index: 0,
    }));
    first.instruction(&Instruction::I32Store(MemArg {
        offset: 3,
        align: 1,
        memory_index: 1,
    }));
    first.instruction(&Instruction::Drop);
    first.instruction(&Instruction::End);
    let mut codes = CodeSection::new();
    codes.function(&first);
    codes.function(&Function::new_with_locals_types(Vec::new()));
    let mut data = DataSection::new();
    data.active(0, &Instruction::I32Const(-5), vec![1, 2, 3]);
    data.active(1, &Instruction::I32Const(1 << 20), Vec::new());
    let mut seven = NameMap::new();
    seven.append(0, "a");
    seven.append(1, "bé");
    let mut locals = IndirectNameMap::new();
    locals.append(7, &seven);
    locals.append(9, &NameMap::new());
    let mut names = NameSection::new();
    names.locals(&locals);
    let mut module = Module::new();
    module.section(&types);
    module.section(&imports);
    module.section(&functions);
    module.section(&memory);
    module.section(&exports);
    module.section(&codes);
    module.section(&data);
    module.section(&names);
    module.section(&CustomSection {
        name: "SycContext",
        data: &[
            2, 0, 0, 0, 0, 0, 0, 0, 9, 0, 0, 0, 8, 0, 0, 0, 7, 0, 0, 0, 6, 0, 0, 0,
        ],
    });
    assert_eq!(codegen.assemble(), Ok(module.finish()));
}

#[test]
fn what_follows_the_context_need_not_parse() {
    let mut wasm = build(
        "terminating state main() { print(\"abc\"); }",
        false,
    )
    .unwrap();
    wasm.extend_from_slice(&[0xff, 0xff, 0xff, 0xff, 0xff, 0xff]);
    assert_eq!(
        SycContext::from_sycamore_binary(&wasm)
            .unwrap()
            .literal_offsets,
        vec![(0, 3)]
    );
    // What does not parse before the context hides it.
    let mut module = Module::new();
    module.section(&CustomSection {
        name: "other",
        data: &[],
    });
    let mut wasm = module.finish();
    wasm.extend_from_slice(&[0xff, 0xff, 0xff, 0xff, 0xff, 0xff]);
    assert_eq!(
        SycContext::from_sycamore_binary(&wasm).err(),
        Some(ContextError::Malformed)
    );
}

#[test]
fn a_store_whose_alignment_reads_as_a_memory_index_is_not_encoded() {
    let store = |align: u32, memory_index: u32| {
        libsyc::wasm::Instruction::I32Store(libsyc::wasm::MemArg {
            offset: 0,
            align,
            memory_index,
        })
    };
    let with_body = |instructions: Vec<libsyc::wasm::Instruction>| {
        let mut codegen = Codegen::new(Vec::new(), false);
        codegen.codes.push(libsyc::wasm::FunctionBody {
            locals: Vec::new(),
            instructions: Vec::new(),
        });
        codegen.codes.push(libsyc::wasm::FunctionBody {
            locals: Vec::new(),
            instructions,
        });
        codegen
    };
    assert!(store(63, 0).encodable());
    assert!(store(0, 26).encodable());
    assert!(!store(64, 0).encodable());
    assert!(!store(u32::MAX, 1).encodable());
    assert!(libsyc::wasm::Instruction::Drop.encodable());
    assert!(libsyc::assemble::instructions_encodable(
        &with_body(vec![store(63, 0)]).codes
    ));
    assert!(!libsyc::assemble::instructions_encodable(
        &with_body(vec![libsyc::wasm::Instruction::Drop, store(64, 0)]).codes
    ));
    assert_eq!(
        with_body(vec![store(64, 0), libsyc::wasm::Instruction::Drop]).assemble(),
        Err(CompileError::InvalidInstruction)
    );
    // The store into memory 26 has the bytes that the other would have
    // had, and is encoded.
    let wasm = with_body(vec![store(0, 26)]).assemble().unwrap();
    let mut found = false;
    for item in Parser::new(0).parse_all(&wasm) {
        if let Item::CodeSectionStart { range, .. } = item.unwrap() {
            let section = &wasm[range.start..range.end];
            assert_eq!(section, &[2, 1, 0, 5, 0, 0x36, 0x40, 0x00, 0x1a]);
            found = true;
        }
    }
    assert!(found);
}
