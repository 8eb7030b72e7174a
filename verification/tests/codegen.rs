use libsyc::codegen::{Codegen, MAX_MEM, RESULT_IDX, SCRATCH_ITEMS, SCRATCH_START};
use libsyc::emit::{check_body, collect_locals, find_local};
use libsyc::error::CompileError;
use libsyc::lower::{declares_entry, prints_line};
use libsyc::parser::SycParser;
use libsyc::types::{Ident, Statement, StrLit, SycValue, Type};
use libsyc::wasi::{IoVecItem, Wasi, FD_WRITE, STDOUT};
use libsyc::wasm::{Export, FunctionBody, Instruction, MemArg, MemoryType, ValType};

const STORE: Instruction = Instruction::I32Store(MemArg {
    offset: 0,
    align: 0,
    memory_index: 0,
});

fn program(source: &str) -> Vec<Statement> {
    SycParser::new(source).parse().unwrap()
}

fn lowered(source: &str) -> Codegen {
    let mut codegen = Codegen::new(program(source), false);
    assert_eq!(codegen.lower(), Ok(()));
    codegen
}

fn lower_error(statements: Vec<Statement>) -> CompileError {
    let mut codegen = Codegen::new(statements, false);
    let error = codegen.lower().unwrap_err();
    // Nothing stays built.
    assert!(codegen.types.is_empty());
    assert!(codegen.imports.is_empty());
    assert!(codegen.functions.is_empty());
    assert!(codegen.exports.is_empty());
    assert!(codegen.codes.is_empty());
    assert!(codegen.data.is_empty());
    assert!(codegen.fn_map.is_empty());
    assert!(codegen.literal_table.is_empty());
    assert!(codegen.ctx.literal_offsets.is_empty());
    assert_eq!(codegen.data_end, 0);
    error
}

fn state(name: &str, terminating: bool, statements: Vec<Statement>) -> Statement {
    Statement::StateDefn {
        terminating,
        name: Ident::new(name),
        input: Vec::new(),
        statements,
    }
}

fn print_call(offset: i32, len: i32) -> Vec<Instruction> {
    vec![
        Instruction::I32Const(65524),
        Instruction::I32Const(offset),
        STORE,
        Instruction::I32Const(65528),
        Instruction::I32Const(len),
        STORE,
        Instruction::I32Const(1),
        Instruction::I32Const(65524),
        Instruction::I32Const(1),
        Instruction::I32Const(65532),
        Instruction::Call(0),
        Instruction::Drop,
    ]
}

fn println_call(offset: i32, len: i32) -> Vec<Instruction> {
    vec![
        Instruction::I32Const(65516),
        Instruction::I32Const(offset),
        STORE,
        Instruction::I32Const(65520),
        Instruction::I32Const(len),
        STORE,
        Instruction::I32Const(65524),
        Instruction::I32Const(0),
        STORE,
        Instruction::I32Const(65528),
        Instruction::I32Const(1),
        STORE,
        Instruction::I32Const(1),
        Instruction::I32Const(65516),
        Instruction::I32Const(2),
        Instruction::I32Const(65532),
        Instruction::Call(0),
        Instruction::Drop,
    ]
}

#[test]
fn the_scratch_region_ends_the_memory() {
    assert_eq!(MAX_MEM, 65536);
    assert_eq!(RESULT_IDX, MAX_MEM - 4);
    assert_eq!(SCRATCH_ITEMS, 2);
    assert_eq!(SCRATCH_START as i32, MAX_MEM - (8 * 2 + 4));
    assert_eq!(STDOUT, 1);
    assert_eq!(FD_WRITE, 0);
}

#[test]
fn a_new_codegen_has_built_nothing() {
    let codegen = Codegen::new(program("state a() {}"), true);
    assert!(codegen.debug);
    assert_eq!(codegen.stmt.len(), 1);
    assert!(codegen.types.is_empty());
    assert!(codegen.imports.is_empty());
    assert!(codegen.memory.is_empty());
    assert!(codegen.functions.is_empty());
    assert!(codegen.exports.is_empty());
    assert!(codegen.codes.is_empty());
    assert!(codegen.data.is_empty());
    assert!(codegen.local_names.is_empty());
    assert!(codegen.literal_table.is_empty());
    assert!(codegen.fn_map.is_empty());
    assert!(codegen.current_func.is_none());
    assert!(codegen.ctx.literal_offsets.is_empty());
    assert_eq!(codegen.data_end, 0);
}

#[test]
fn a_print_in_the_entry_state() {
    let codegen = lowered("terminating state main() { print(\"hi\"); terminate; }");
    // Exactly one data segment: the two bytes at offset 0.
    assert_eq!(codegen.data.len(), 1);
    assert_eq!(codegen.data[0].memory_index, 0);
    assert_eq!(codegen.data[0].offset, 0);
    assert_eq!(codegen.data[0].data, b"hi".to_vec());
    // One function, exported as the entry, without locals.
    assert_eq!(codegen.functions, vec![1]);
    assert_eq!(codegen.codes.len(), 1);
    assert!(codegen.codes[0].locals.is_empty());
    let mut expected = print_call(0, 2);
    expected.push(Instruction::End);
    assert_eq!(codegen.codes[0].instructions, expected);
    assert_eq!(codegen.exports.len(), 2);
    assert_eq!(codegen.exports[0].name, "memory");
    assert_eq!(codegen.exports[0].export, Export::Memory(0));
    assert_eq!(codegen.exports[1].name, "_start");
    assert_eq!(codegen.exports[1].export, Export::Function(1));
    assert_eq!(codegen.ctx.literal_offsets, vec![(0, 2)]);
    assert_eq!(codegen.data_end, 2);
    assert!(codegen.current_func.is_none());
    assert_eq!(codegen.stmt.len(), 1);
}

#[test]
fn a_call_to_a_helper_state() {
    let codegen = lowered(
        "state helper() { println(\"x\"); } terminating state main() { helper(); terminate; }",
    );
    assert_eq!(codegen.fn_map, vec!["fd_write", "helper", "main"]);
    assert_eq!(codegen.functions, vec![1, 2]);
    assert_eq!(codegen.codes.len(), 2);
    assert_eq!(
        codegen.codes[1].instructions,
        vec![Instruction::Call(1), Instruction::End]
    );
    let mut helper = println_call(0, 1);
    helper.push(Instruction::End);
    assert_eq!(codegen.codes[0].instructions, helper);
    assert_eq!(codegen.exports[1].name, "_start");
    assert_eq!(codegen.exports[1].export, Export::Function(2));
    // The newline byte comes first, and takes no room among the literals.
    assert_eq!(codegen.data.len(), 2);
    assert_eq!(codegen.data[0].offset, 0);
    assert_eq!(codegen.data[0].data, vec![b'\n']);
    assert_eq!(codegen.data[1].offset, 0);
    assert_eq!(codegen.data[1].data, vec![b'x']);
    assert_eq!(codegen.ctx.literal_offsets, vec![(0, 1)]);
}

#[test]
fn a_call_to_an_undeclared_state() {
    let error = lower_error(program("terminating state main() { ghost(); terminate; }"));
    assert_eq!(
        error,
        CompileError::UnresolvedSymbol {
            state: 0,
            statement: 0
        }
    );
    assert_eq!(
        Codegen::new(
            program("terminating state main() { ghost(); terminate; }"),
            false
        )
        .generate(),
        Err(CompileError::UnresolvedSymbol {
            state: 0,
            statement: 0
        })
    );
}

#[test]
fn an_import_is_no_call_target() {
    let call = Statement::FnCall {
        name: Ident::new("fd_write"),
        input: Vec::new(),
    };
    assert_eq!(
        lower_error(vec![state("main", true, vec![call])]),
        CompileError::UnresolvedSymbol {
            state: 0,
            statement: 0
        }
    );
}

#[test]
fn the_index_space_has_the_import_first_and_the_states_in_order() {
    let codegen = lowered("state a() {} state b() { a(); c(); } terminating state main() { b(); } state c() {}");
    assert_eq!(codegen.imports.len(), 1);
    assert_eq!(codegen.imports[0].module, "wasi_unstable");
    assert_eq!(codegen.imports[0].field, "fd_write");
    assert_eq!(codegen.imports[0].type_index, 0);
    assert_eq!(codegen.fn_map, vec!["fd_write", "a", "b", "main", "c"]);
    assert_eq!(codegen.functions, vec![1, 2, 3, 4]);
    assert_eq!(codegen.types.len(), 5);
    assert_eq!(codegen.types[0].params, vec![ValType::I32; 4]);
    assert_eq!(codegen.types[0].results, vec![ValType::I32]);
    for ty in &codegen.types[1..] {
        assert!(ty.params.is_empty() && ty.results.is_empty());
    }
    assert_eq!(
        codegen.codes[1].instructions,
        vec![
            Instruction::Call(1),
            Instruction::Call(4),
            Instruction::End
        ]
    );
    assert_eq!(
        codegen.codes[2].instructions,
        vec![Instruction::Call(2), Instruction::End]
    );
    assert_eq!(codegen.exports[1].export, Export::Function(3));
    assert_eq!(
        codegen.memory,
        vec![MemoryType {
            minimum: 1,
            maximum: None,
            memory64: false
        }]
    );
    let functions: Vec<u32> = codegen.local_names.iter().map(|n| n.function).collect();
    assert_eq!(functions, vec![1, 2, 3, 4]);
}

#[test]
fn a_name_resolves_to_its_position_among_the_states() {
    let codegen = lowered("state a() {} state b() {} terminating state main() { a(); }");
    assert_eq!(codegen.resolve("a"), Some(1));
    assert_eq!(codegen.resolve("b"), Some(2));
    assert_eq!(codegen.resolve("main"), Some(3));
    assert_eq!(codegen.resolve("fd_write"), None);
    assert_eq!(codegen.resolve("c"), None);
    // Where a name stands twice in the index space, the last position
    // counts.
    let mut codegen = Codegen::new(Vec::new(), false);
    codegen.wasi_imports();
    for name in ["a", "b", "a"] {
        codegen.fn_map.push(name.to_string());
    }
    assert_eq!(codegen.resolve("a"), Some(3));
    assert_eq!(codegen.resolve("b"), Some(2));
}

#[test]
fn a_state_name_declared_twice_is_rejected() {
    assert_eq!(
        lower_error(program(
            "state a() {} state a() {} terminating state main() { a(); }"
        )),
        CompileError::DuplicateState { index: 1 }
    );
    // The first pass finds it before the second pass looks at any state.
    assert_eq!(
        lower_error(program(
            "state main() { ghost(); } state b() {} state main() {}"
        )),
        CompileError::DuplicateState { index: 2 }
    );
    // A state may carry the name of the import.
    let fd_write = state("fd_write", false, Vec::new());
    let call = Statement::FnCall {
        name: Ident::new("fd_write"),
        input: Vec::new(),
    };
    let mut codegen = Codegen::new(vec![fd_write, state("main", true, vec![call])], false);
    assert_eq!(codegen.lower(), Ok(()));
    assert_eq!(codegen.fn_map, vec!["fd_write", "fd_write", "main"]);
    assert_eq!(
        codegen.codes[1].instructions,
        vec![Instruction::Call(1), Instruction::End]
    );
}

#[test]
fn a_state_is_emitted_under_the_index_of_its_name() {
    let entry = |statements: Vec<Statement>| state("main", true, statements);
    let call = || Statement::FnCall {
        name: Ident::new("helper"),
        input: Vec::new(),
    };
    let mut codegen = Codegen::new(Vec::new(), false);
    for name in ["fd_write", "helper", "main"] {
        codegen.fn_map.push(name.to_string());
    }
    let body = vec![
        call(),
        Statement::Assignment {
            name: Ident::new("x"),
            value: SycValue::I32(5),
        },
        Statement::Terminate,
    ];
    assert_eq!(entry(body).generate(&mut codegen), Ok(()));
    assert_eq!(codegen.functions, vec![2]);
    assert_eq!(codegen.codes.len(), 1);
    assert_eq!(codegen.codes[0].locals, vec![ValType::I32]);
    assert_eq!(
        codegen.codes[0].instructions,
        vec![
            Instruction::Call(1),
            Instruction::I32Const(5),
            Instruction::LocalSet(0),
            Instruction::End,
        ]
    );
    assert_eq!(codegen.exports.len(), 1);
    assert_eq!(codegen.exports[0].name, "_start");
    assert_eq!(codegen.exports[0].export, Export::Function(2));
    assert_eq!(codegen.local_names[0].function, 2);
    assert!(codegen.current_func.is_none());

    let mut codegen = Codegen::new(Vec::new(), false);
    for name in ["fd_write", "helper", "main"] {
        codegen.fn_map.push(name.to_string());
    }
    assert_eq!(
        entry(vec![call(), Statement::Terminate]).generate(&mut codegen),
        Ok(())
    );
    assert!(codegen.codes[0].locals.is_empty());
    assert_eq!(
        codegen.codes[0].instructions,
        vec![Instruction::Call(1), Instruction::End]
    );
    assert_eq!(codegen.exports[0].export, Export::Function(2));
}

#[test]
fn a_state_without_an_index_is_not_emitted() {
    let mut codegen = Codegen::new(Vec::new(), false);
    codegen.wasi_imports();
    codegen.fn_map.push("a".to_string());
    assert_eq!(
        state("b", false, Vec::new()).generate(&mut codegen),
        Err(CompileError::UndeclaredState { index: 0 })
    );
    // The name of an import is no index of a state.
    assert_eq!(
        state("fd_write", false, Vec::new()).generate(&mut codegen),
        Err(CompileError::UndeclaredState { index: 0 })
    );
    assert!(codegen.functions.is_empty());
    assert!(codegen.codes.is_empty());
    assert_eq!(state("a", false, Vec::new()).generate(&mut codegen), Ok(()));
    assert_eq!(
        state("main", false, Vec::new()).generate(&mut codegen),
        Err(CompileError::UndeclaredState { index: 1 })
    );
}

#[test]
fn literals_are_laid_out_one_after_the_other() {
    let codegen = lowered(
        "state a() { print(\"abc\"); println(\"\"); } terminating state main() { println(\"de\"); print(\"abc\"); a(); }",
    );
    // The newline byte, then the literals in the order they are met.
    let segments: Vec<(i32, Vec<u8>)> = codegen
        .data
        .iter()
        .map(|s| (s.offset, s.data.clone()))
        .collect();
    assert_eq!(
        segments,
        vec![
            (0, b"\n".to_vec()),
            (0, b"abc".to_vec()),
            (3, b"".to_vec()),
            (3, b"de".to_vec()),
            (5, b"abc".to_vec()),
        ]
    );
    assert_eq!(
        codegen.ctx.literal_offsets,
        vec![(0, 3), (3, 0), (3, 2), (5, 3)]
    );
    let table: Vec<(&str, u32)> = codegen
        .literal_table
        .iter()
        .map(|e| (e.literal.as_str(), e.offset))
        .collect();
    assert_eq!(table, vec![("abc", 0), ("", 3), ("de", 3), ("abc", 5)]);
    assert_eq!(codegen.data_end, 8);
    let mut first = print_call(0, 3);
    first.extend(println_call(3, 0));
    first.push(Instruction::End);
    assert_eq!(codegen.codes[0].instructions, first);
    let mut second = println_call(3, 2);
    second.extend(print_call(5, 3));
    second.push(Instruction::Call(1));
    second.push(Instruction::End);
    assert_eq!(codegen.codes[1].instructions, second);
}

#[test]
fn a_literal_counts_by_its_bytes() {
    let codegen = lowered("terminating state main() { print(\"é€\"); print(\"x\"); }");
    assert_eq!(codegen.ctx.literal_offsets, vec![(0, 5), (5, 1)]);
    assert_eq!(codegen.data[0].data, "é€".as_bytes().to_vec());
}

#[test]
fn locals_get_their_slots_at_the_first_assignment() {
    let codegen =
        lowered("terminating state main() { x <- 1; y <- 2; x <- 3; z <- -4; terminate; }");
    assert_eq!(codegen.codes[0].locals, vec![ValType::I32; 3]);
    assert_eq!(
        codegen.codes[0].instructions,
        vec![
            Instruction::I32Const(1),
            Instruction::LocalSet(0),
            Instruction::I32Const(2),
            Instruction::LocalSet(1),
            Instruction::I32Const(3),
            Instruction::LocalSet(0),
            Instruction::I32Const(-4),
            Instruction::LocalSet(2),
            Instruction::End,
        ]
    );
    assert_eq!(codegen.local_names.len(), 1);
    assert_eq!(codegen.local_names[0].function, 1);
    assert_eq!(codegen.local_names[0].names, vec!["x", "y", "z"]);
}

#[test]
fn locals_are_collected_and_found() {
    let statements = vec![
        Statement::Assignment {
            name: Ident::new("b"),
            value: SycValue::from_i32(1),
        },
        Statement::Terminate,
        Statement::Assignment {
            name: Ident::new("a"),
            value: SycValue::I32(2),
        },
        Statement::Assignment {
            name: Ident::new("b"),
            value: SycValue::I32(3),
        },
    ];
    let (names, types) = collect_locals(&statements);
    assert_eq!(names, vec!["b", "a"]);
    assert_eq!(types, vec![ValType::I32, ValType::I32]);
    assert_eq!(find_local(&names, "a"), Some(1));
    assert_eq!(find_local(&names, "b"), Some(0));
    assert_eq!(find_local(&names, "c"), None);
}

#[test]
fn a_program_without_an_entry_state_is_rejected() {
    assert_eq!(lower_error(program("")), CompileError::MissingEntry);
    assert_eq!(
        lower_error(program("state a() {} state b() { a(); }")),
        CompileError::MissingEntry
    );
}

#[test]
fn the_entry_state_must_be_terminating() {
    assert_eq!(
        lower_error(program("state main() { terminate; }")),
        CompileError::EntryNotTerminal
    );
}

#[test]
fn the_entry_state_must_have_no_parameters() {
    let entry = Statement::StateDefn {
        terminating: true,
        name: Ident::new("main"),
        input: vec![Type::I32],
        statements: vec![Statement::Terminate],
    };
    assert_eq!(lower_error(vec![entry]), CompileError::EntryHasParameters);
}

#[test]
fn another_state_may_have_parameters_and_need_not_terminate() {
    let helper = Statement::StateDefn {
        terminating: false,
        name: Ident::new("helper"),
        input: vec![Type::I32],
        statements: Vec::new(),
    };
    let mut codegen = Codegen::new(vec![helper, state("main", true, Vec::new())], false);
    assert_eq!(codegen.lower(), Ok(()));
    assert_eq!(codegen.functions, vec![1, 2]);
}

#[test]
fn a_state_inside_a_state_is_rejected() {
    let nested = state(
        "main",
        true,
        vec![
            Statement::Terminate,
            state("inner", false, Vec::new()),
        ],
    );
    assert_eq!(
        lower_error(vec![state("a", false, Vec::new()), nested]),
        CompileError::NestedState {
            state: 1,
            statement: 1
        }
    );
}

#[test]
fn a_statement_at_the_top_is_rejected() {
    assert_eq!(
        lower_error(vec![
            state("main", true, Vec::new()),
            Statement::Terminate
        ]),
        CompileError::NotAState { index: 1 }
    );
}

#[test]
fn the_first_error_is_reported() {
    // The unresolved call in the first state comes before the entry state
    // that is not terminating.
    assert_eq!(
        lower_error(program("state a() { b(); } state main() {} state b() {}")),
        CompileError::EntryNotTerminal
    );
    assert_eq!(
        lower_error(program("state a() { x(); } state main() {}")),
        CompileError::UnresolvedSymbol {
            state: 0,
            statement: 0
        }
    );
}

#[test]
fn literals_must_stay_below_the_scratch_region() {
    let fits = "a".repeat(SCRATCH_START as usize);
    let source = format!("terminating state main() {{ print(\"{}\"); }}", fits);
    let codegen = lowered(&source);
    assert_eq!(codegen.data_end, SCRATCH_START);
    let source = format!(
        "terminating state main() {{ print(\"{}\"); print(\"b\"); }}",
        fits
    );
    assert_eq!(lower_error(program(&source)), CompileError::LiteralOverflow);
    let source = format!("terminating state main() {{ print(\"{}b\"); }}", fits);
    assert_eq!(lower_error(program(&source)), CompileError::LiteralOverflow);
}

#[test]
fn check_body_finds_the_first_bad_statement() {
    let codegen = lowered("state a() {} terminating state main() {}");
    let ok = vec![
        Statement::FnCall {
            name: Ident::new("a"),
            input: Vec::new(),
        },
        Statement::Wasi(Wasi::Print(StrLit::new("x"))),
    ];
    assert_eq!(check_body(&ok, &codegen, 5), None);
    let bad = vec![
        Statement::Terminate,
        Statement::FnCall {
            name: Ident::new("zz"),
            input: Vec::new(),
        },
        state("inner", false, Vec::new()),
    ];
    assert_eq!(
        check_body(&bad, &codegen, 5),
        Some(CompileError::UnresolvedSymbol {
            state: 5,
            statement: 1
        })
    );
}

#[test]
fn instruction_appends_to_the_current_function() {
    let mut codegen = Codegen::new(Vec::new(), false);
    codegen.current_func = Some(FunctionBody {
        locals: vec![ValType::I32],
        instructions: vec![Instruction::Drop],
    });
    codegen.instruction(Instruction::Call(7));
    let function = codegen.current_func.unwrap();
    assert_eq!(function.locals, vec![ValType::I32]);
    assert_eq!(
        function.instructions,
        vec![Instruction::Drop, Instruction::Call(7)]
    );
}

#[test]
fn write_io_vec_stores_the_descriptors_below_the_result_slot() {
    let mut codegen = Codegen::new(Vec::new(), false);
    codegen.current_func = Some(FunctionBody {
        locals: Vec::new(),
        instructions: Vec::new(),
    });
    assert_eq!(codegen.write_io_vec(Vec::new()), 65532);
    assert!(codegen.current_func.as_ref().unwrap().instructions.is_empty());
    assert_eq!(codegen.write_io_vec(vec![IoVecItem::new(7, 9)]), 65524);
    assert_eq!(
        codegen.current_func.as_ref().unwrap().instructions,
        vec![
            Instruction::I32Const(65524),
            Instruction::I32Const(7),
            STORE,
            Instruction::I32Const(65528),
            Instruction::I32Const(9),
            STORE,
        ]
    );
    assert_eq!(
        codegen.write_io_vec(vec![IoVecItem::new(1, 2), IoVecItem::new(3, 4)]),
        65516
    );
    assert_eq!(codegen.current_func.as_ref().unwrap().instructions.len(), 18);
}

#[test]
fn fd_write_pushes_the_arguments_and_drops_the_result() {
    let mut codegen = Codegen::new(Vec::new(), false);
    codegen.current_func = Some(FunctionBody {
        locals: Vec::new(),
        instructions: Vec::new(),
    });
    codegen.fd_write(2, vec![IoVecItem::new(10, 20)]);
    let mut expected = print_call(10, 20);
    expected[6] = Instruction::I32Const(2);
    assert_eq!(codegen.current_func.unwrap().instructions, expected);
}

#[test]
fn wasi_imports_declares_the_write_entry_point() {
    let mut codegen = Codegen::new(Vec::new(), false);
    codegen.wasi_imports();
    assert_eq!(codegen.types.len(), 1);
    assert_eq!(codegen.types[0].params.len(), 4);
    assert_eq!(codegen.types[0].results.len(), 1);
    assert_eq!(codegen.fn_map, vec!["fd_write"]);
    assert_eq!(codegen.imports.len(), 1);
    assert_eq!(codegen.imports[0].type_index, 0);
}

#[test]
fn a_host_request_lays_its_literal_out() {
    let mut codegen = Codegen::new(Vec::new(), false);
    codegen.current_func = Some(FunctionBody {
        locals: Vec::new(),
        instructions: Vec::new(),
    });
    codegen.data_end = 100;
    let request = Wasi::Println(StrLit::new("hey"));
    assert!(request.is_println());
    assert_eq!(request.literal().as_str(), "hey");
    assert_eq!(request.generate(&mut codegen), Ok(()));
    assert_eq!(codegen.data.len(), 1);
    assert_eq!(codegen.data[0].offset, 100);
    assert_eq!(codegen.data[0].data, b"hey".to_vec());
    assert_eq!(codegen.data_end, 103);
    assert_eq!(codegen.ctx.literal_offsets, vec![(100, 3)]);
    assert_eq!(codegen.literal_table[0].offset, 100);
    assert_eq!(
        codegen.current_func.as_ref().unwrap().instructions,
        println_call(100, 3)
    );
    assert!(!Wasi::Print(StrLit::new("")).is_println());
}

#[test]
fn a_host_request_that_does_not_fit_changes_nothing() {
    let mut codegen = Codegen::new(Vec::new(), false);
    codegen.current_func = Some(FunctionBody {
        locals: Vec::new(),
        instructions: Vec::new(),
    });
    codegen.data_end = SCRATCH_START - 2;
    assert_eq!(
        Wasi::Print(StrLit::new("abc")).generate(&mut codegen),
        Err(CompileError::LiteralOverflow)
    );
    assert!(codegen.data.is_empty());
    assert_eq!(codegen.data_end, SCRATCH_START - 2);
    assert!(codegen.current_func.as_ref().unwrap().instructions.is_empty());
    assert_eq!(Wasi::Print(StrLit::new("ab")).generate(&mut codegen), Ok(()));
    assert_eq!(codegen.data_end, SCRATCH_START);
}

#[test]
fn a_state_may_call_itself() {
    let mut codegen = Codegen::new(Vec::new(), false);
    codegen.wasi_imports();
    codegen.fn_map.push("a".to_string());
    let a = state(
        "a",
        false,
        vec![Statement::FnCall {
            name: Ident::new("a"),
            input: Vec::new(),
        }],
    );
    assert_eq!(a.generate(&mut codegen), Ok(()));
    assert_eq!(codegen.functions, vec![1]);
    assert_eq!(
        codegen.codes[0].instructions,
        vec![Instruction::Call(1), Instruction::End]
    );
    assert!(codegen.exports.is_empty());
    assert!(codegen.current_func.is_none());
    assert_eq!(
        Statement::Terminate.generate(&mut codegen),
        Err(CompileError::NotAState { index: 1 })
    );
    assert_eq!(codegen.functions, vec![1]);
}

#[test]
fn the_program_is_scanned_for_println_and_the_entry() {
    assert!(prints_line(&program("state a() { print(\"x\"); println(\"y\"); }")));
    assert!(!prints_line(&program("state a() { print(\"x\"); } state b() {}")));
    assert!(declares_entry(&program("state a() {} state main() {}")));
    assert!(!declares_entry(&program("state a() {} state Main() {}")));
}

#[test]
fn values_have_their_type() {
    assert_eq!(SycValue::from_i32(-3), SycValue::I32(-3));
    assert_eq!(SycValue::I32(0).as_val_type(), ValType::I32);
    assert_eq!(Ident::new("a"), Ident::new("a"));
    assert_ne!(Ident::new("a"), Ident::new("b"));
    assert_eq!(StrLit::new("é").len(), 2);
    assert_eq!(StrLit::new("x"), StrLit::new("x"));
    assert_ne!(StrLit::new("x"), StrLit::new("y"));
}

#[test]
fn a_copy_of_a_statement_holds_the_same() {
    let states = program(
        "terminating state main() { x <- 7; print(\"a\"); println(\"b\"); helper(); terminate; } state helper() {}",
    );
    let copies: Vec<Statement> = states.iter().map(|s| s.clone()).collect();
    assert_eq!(format!("{:?}", copies), format!("{:?}", states));
    let mut first = Codegen::new(states, false);
    let mut second = Codegen::new(copies, false);
    assert_eq!(first.lower(), Ok(()));
    assert_eq!(second.lower(), Ok(()));
    assert_eq!(first.assemble(), second.assemble());
}
