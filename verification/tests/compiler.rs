use cao_lang::compiler::compilation_error::{CompilationError, CompilationErrorPayload};
use cao_lang::compiler::module::CardIndex;
use cao_lang::compiler::{Compiler, MAX_LOCALS};
use cao_lang::instruction::Instruction;

#[test]
fn new_compiler_is_empty() {
    let c = Compiler::new();
    assert!(c.program.bytecode.is_empty());
    assert!(c.program.data.is_empty());
    assert!(c.locals.is_empty());
    assert_eq!(c.scope_depth, 0);
    assert_eq!(c.next_var.0, 0);
}

#[test]
fn closing_a_scope_drops_its_locals() {
    let mut c = Compiler::new();
    c.scope_begin();
    assert_eq!(c.add_local("a").unwrap(), 0);
    c.scope_begin();
    assert_eq!(c.scope_depth, 2);
    assert_eq!(c.add_local("b").unwrap(), 1);
    assert_eq!(c.add_local("c").unwrap(), 2);
    assert_eq!(c.locals[2].depth, 2);
    c.scope_end();
    assert_eq!(c.scope_depth, 1);
    assert_eq!(c.locals.len(), 1);
    assert_eq!(c.locals[0].name, "a");
    assert_eq!(c.resolve_var("b").unwrap(), None);
    c.scope_end();
    assert_eq!(c.scope_depth, 0);
    assert!(c.locals.is_empty());
}

#[test]
fn closing_an_empty_scope_keeps_the_outer_locals() {
    let mut c = Compiler::new();
    c.scope_begin();
    c.add_local("x").unwrap();
    c.add_local("y").unwrap();
    c.scope_begin();
    c.scope_end();
    assert_eq!(c.locals.len(), 2);
    assert_eq!(c.scope_depth, 1);
}

#[test]
fn empty_names_are_refused() {
    let mut c = Compiler::new();
    let err = c.add_local("").unwrap_err();
    assert_eq!(err.payload, CompilationErrorPayload::EmptyVariable);
    assert!(err.loc.is_some());
    assert!(c.locals.is_empty());
    let err = c.resolve_var("").unwrap_err();
    assert_eq!(err.payload, CompilationErrorPayload::EmptyVariable);
    assert!(c.validate_var_name("").is_err());
    assert!(c.validate_var_name("v").is_ok());
    // the unchecked form takes any name
    assert_eq!(c.add_local_unchecked("").unwrap(), 0);
}

#[test]
fn the_table_of_locals_has_a_limit() {
    let mut c = Compiler::new();
    for i in 0..MAX_LOCALS {
        assert_eq!(c.add_local_unchecked("").unwrap(), i as u32);
    }
    let err = c.add_local_unchecked("").unwrap_err();
    assert_eq!(err.payload, CompilationErrorPayload::TooManyLocals);
    assert_eq!(c.locals.len(), MAX_LOCALS);
    let err = c.add_local("named").unwrap_err();
    assert_eq!(err.payload, CompilationErrorPayload::TooManyLocals);
}

#[test]
fn names_resolve_to_the_innermost_local() {
    let mut c = Compiler::new();
    c.scope_begin();
    c.add_local("foo").unwrap();
    c.add_local("bar").unwrap();
    c.scope_begin();
    c.add_local("foo").unwrap();
    assert_eq!(c.resolve_var("foo").unwrap(), Some(2));
    assert_eq!(c.resolve_var("bar").unwrap(), Some(1));
    assert_eq!(c.resolve_var("baz").unwrap(), None);
    c.scope_end();
    assert_eq!(c.resolve_var("foo").unwrap(), Some(0));
}

#[test]
fn local_variable_instructions() {
    let mut c = Compiler::new();
    c.read_local_var(7);
    c.write_local_var(0x0102_0304);
    assert_eq!(
        c.program.bytecode,
        vec![
            Instruction::ReadLocalVar.as_u8(),
            7,
            0,
            0,
            0,
            Instruction::SetLocalVar.as_u8(),
            4,
            3,
            2,
            1
        ]
    );
}

#[test]
fn strings_go_to_the_data() {
    let mut c = Compiler::new();
    c.push_instruction(Instruction::StringLiteral);
    c.push_str("hi");
    c.push_str("x");
    assert_eq!(
        c.program.bytecode,
        vec![Instruction::StringLiteral.as_u8(), 0, 0, 0, 0, 6, 0, 0, 0]
    );
    assert_eq!(c.program.data, vec![2, 0, 0, 0, b'h', b'i', 1, 0, 0, 0, b'x']);
}

#[test]
fn a_skipped_block_jumps_to_its_end() {
    let mut c = Compiler::new();
    c.push_instruction(Instruction::ScalarNil);
    let idx = c.begin_skip(Instruction::GotoIfFalse);
    assert_eq!(idx, 2);
    assert_eq!(
        c.program.bytecode,
        vec![Instruction::ScalarNil.as_u8(), Instruction::GotoIfFalse.as_u8(), 0, 0, 0, 0]
    );
    c.push_instruction(Instruction::Pop);
    c.push_instruction(Instruction::Pop);
    c.end_skip(idx);
    assert_eq!(c.program.bytecode.len(), 8);
    assert_eq!(&c.program.bytecode[2..6], &8i32.to_le_bytes());
    assert_eq!(c.program.bytecode[6], Instruction::Pop.as_u8());
}

#[test]
fn errors_carry_the_card_index() {
    let e = CompilationError::with_loc(CompilationErrorPayload::NoMain, CardIndex::new(3, 4));
    assert_eq!(e.payload, CompilationErrorPayload::NoMain);
    let loc = e.loc.unwrap();
    assert_eq!(loc.function, 3);
    assert_eq!(loc.current_index(), 4);

    let mut c = Compiler::new();
    c.current_index = CardIndex::new(1, 2);
    let err = c.add_local("").unwrap_err();
    let loc = err.loc.unwrap();
    assert_eq!(loc.function, 1);
    assert_eq!(loc.current_index(), 2);
}

#[test]
fn the_default_compiler_is_new() {
    let c = Compiler::default();
    assert!(c.program.bytecode.is_empty());
    assert!(c.locals.is_empty());
    assert_eq!(c.scope_depth, 0);
}
