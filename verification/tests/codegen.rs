use cao_lang::collections::key_map::Handle;
use cao_lang::compiler::card::{Card, CardBody, Function};
use cao_lang::compiler::codegen::MAX_CARD_DEPTH;
use cao_lang::compiler::compilation_error::CompilationErrorPayload;
use cao_lang::compiler::{Compiler, FunctionMeta};
use cao_lang::instruction::Instruction;

fn op(i: Instruction) -> u8 {
    i.as_u8()
}

#[test]
fn compiles_an_integer() {
    let card = Card::scalar_int(5);
    let mut c = Compiler::new();
    c.process_card(&card, MAX_CARD_DEPTH).unwrap();
    let mut expected = vec![op(Instruction::ScalarInt)];
    expected.extend_from_slice(&5i64.to_le_bytes());
    assert_eq!(c.program.bytecode, expected);
}

#[test]
fn compiles_operands_before_the_operator() {
    let card = Card::new(CardBody::Add(Box::new([Card::scalar_int(1), Card::scalar_int(2)])));
    let mut c = Compiler::new();
    c.process_card(&card, MAX_CARD_DEPTH).unwrap();
    let mut expected = vec![op(Instruction::ScalarInt)];
    expected.extend_from_slice(&1i64.to_le_bytes());
    expected.push(op(Instruction::ScalarInt));
    expected.extend_from_slice(&2i64.to_le_bytes());
    expected.push(op(Instruction::Add));
    assert_eq!(c.program.bytecode, expected);
}

#[test]
fn a_local_is_declared_then_read() {
    let set = Card::set_var("x".to_string(), Card::scalar_int(1));
    let read = Card::read_var("x".to_string());
    let mut c = Compiler::new();
    c.scope_begin();
    c.process_card(&set, MAX_CARD_DEPTH).unwrap();
    c.process_card(&read, MAX_CARD_DEPTH).unwrap();
    let mut expected = vec![op(Instruction::ScalarInt)];
    expected.extend_from_slice(&1i64.to_le_bytes());
    expected.push(op(Instruction::SetLocalVar));
    expected.extend_from_slice(&0u32.to_le_bytes());
    expected.push(op(Instruction::ReadLocalVar));
    expected.extend_from_slice(&0u32.to_le_bytes());
    assert_eq!(c.program.bytecode, expected);
    assert_eq!(c.locals.len(), 1);
}

#[test]
fn unknown_variables_are_globals_with_ids_in_order() {
    let a = Card::read_var("a".to_string());
    let b = Card::read_var("b".to_string());
    let mut c = Compiler::new();
    c.process_card(&a, MAX_CARD_DEPTH).unwrap();
    c.process_card(&b, MAX_CARD_DEPTH).unwrap();
    c.process_card(&a, MAX_CARD_DEPTH).unwrap();
    let mut expected = Vec::new();
    for id in [0u32, 1, 0] {
        expected.push(op(Instruction::ReadGlobalVar));
        expected.extend_from_slice(&id.to_le_bytes());
    }
    assert_eq!(c.program.bytecode, expected);
    assert_eq!(c.globals.len(), 2);
    assert_eq!(c.next_var.0, 2);
}

#[test]
fn properties_follow_the_variable() {
    let card = Card::read_var("t.foo..bar".to_string());
    let mut c = Compiler::new();
    c.process_card(&card, MAX_CARD_DEPTH).unwrap();
    let mut expected = vec![op(Instruction::ReadGlobalVar)];
    expected.extend_from_slice(&0u32.to_le_bytes());
    expected.push(op(Instruction::StringLiteral));
    expected.extend_from_slice(&0u32.to_le_bytes());
    expected.push(op(Instruction::GetProperty));
    expected.push(op(Instruction::StringLiteral));
    expected.extend_from_slice(&7u32.to_le_bytes());
    expected.push(op(Instruction::GetProperty));
    assert_eq!(c.program.bytecode, expected);
    assert_eq!(c.program.data, vec![3, 0, 0, 0, b'f', b'o', b'o', 3, 0, 0, 0, b'b', b'a', b'r']);
}

#[test]
fn setting_a_property_reads_the_table_first() {
    let card = Card::set_var("t.k".to_string(), Card::new(CardBody::ScalarNil));
    let mut c = Compiler::new();
    c.process_card(&card, MAX_CARD_DEPTH).unwrap();
    let mut expected = vec![op(Instruction::ScalarNil), op(Instruction::ReadGlobalVar)];
    expected.extend_from_slice(&0u32.to_le_bytes());
    expected.push(op(Instruction::StringLiteral));
    expected.extend_from_slice(&0u32.to_le_bytes());
    expected.push(op(Instruction::SetProperty));
    assert_eq!(c.program.bytecode, expected);
}

#[test]
fn if_true_jumps_past_its_body() {
    let card = Card::new(CardBody::IfTrue(Box::new([
        Card::new(CardBody::ScalarNil),
        Card::new(CardBody::CreateTable),
    ])));
    let mut c = Compiler::new();
    c.process_card(&card, MAX_CARD_DEPTH).unwrap();
    let mut expected = vec![op(Instruction::ScalarNil), op(Instruction::GotoIfFalse)];
    expected.extend_from_slice(&7i32.to_le_bytes());
    expected.push(op(Instruction::InitTable));
    assert_eq!(c.program.bytecode, expected);
}

#[test]
fn while_jumps_back_to_its_condition() {
    let card = Card::new(CardBody::While(Box::new([
        Card::new(CardBody::ScalarNil),
        Card::new(CardBody::CreateTable),
    ])));
    let mut c = Compiler::new();
    c.push_instruction(Instruction::Pop);
    c.process_card(&card, MAX_CARD_DEPTH).unwrap();
    let mut expected = vec![op(Instruction::Pop), op(Instruction::ScalarNil), op(Instruction::GotoIfFalse)];
    expected.extend_from_slice(&13i32.to_le_bytes());
    expected.push(op(Instruction::InitTable));
    expected.push(op(Instruction::Goto));
    expected.extend_from_slice(&1i32.to_le_bytes());
    assert_eq!(c.program.bytecode, expected);
}

#[test]
fn calls_write_the_handle_and_arity_of_the_function() {
    let card = Card::call_function("foo".to_string(), vec![Card::scalar_int(3)]);
    let mut c = Compiler::new();
    c.functions.push(("lib.foo".to_string(), FunctionMeta { hash_key: Handle(7), arity: 1 }));
    c.namespace.push("lib".to_string());
    c.process_card(&card, MAX_CARD_DEPTH).unwrap();
    let mut expected = vec![op(Instruction::ScalarInt)];
    expected.extend_from_slice(&3i64.to_le_bytes());
    expected.push(op(Instruction::FunctionPointer));
    expected.extend_from_slice(&7u32.to_le_bytes());
    expected.extend_from_slice(&1u32.to_le_bytes());
    expected.push(op(Instruction::CallFunction));
    assert_eq!(c.program.bytecode, expected);
}

#[test]
fn calls_of_unknown_functions_fail() {
    let card = Card::new(CardBody::Function("nope".to_string()));
    let mut c = Compiler::new();
    let err = c.process_card(&card, MAX_CARD_DEPTH).unwrap_err();
    assert_eq!(err.payload, CompilationErrorPayload::InvalidJump { dst: "nope".to_string(), msg: None });
}

#[test]
fn an_empty_variable_name_fails() {
    let set = Card::set_var(String::new(), Card::scalar_int(1));
    let read = Card::read_var(String::new());
    let mut c = Compiler::new();
    let err = c.process_card(&set, MAX_CARD_DEPTH).unwrap_err();
    assert_eq!(err.payload, CompilationErrorPayload::EmptyVariable);
    let err = c.process_card(&read, MAX_CARD_DEPTH).unwrap_err();
    assert_eq!(err.payload, CompilationErrorPayload::EmptyVariable);
}

#[test]
fn nesting_deeper_than_the_limit_fails() {
    let card = Card::new(CardBody::Add(Box::new([Card::scalar_int(1), Card::scalar_int(2)])));
    let mut c = Compiler::new();
    let err = c.process_card(&card, 1).unwrap_err();
    assert_eq!(err.payload, CompilationErrorPayload::RecursionLimitReached(MAX_CARD_DEPTH));
    assert!(Compiler::new().process_card(&card, 2).is_ok());
}

#[test]
fn closures_are_not_compiled() {
    let card = Card::new(CardBody::Closure(Box::new(Function::default())));
    let mut c = Compiler::new();
    let err = c.process_card(&card, MAX_CARD_DEPTH).unwrap_err();
    assert_eq!(err.payload, CompilationErrorPayload::Unimplemented("closures"));
}

#[test]
fn repeat_counts_in_a_scope_of_its_own() {
    let card = Card::new(CardBody::Repeat(Box::new(cao_lang::compiler::card::Repeat {
        i: Some("i".to_string()),
        n: Card::scalar_int(2),
        body: Card::read_var("i".to_string()),
    })));
    let mut c = Compiler::new();
    c.scope_begin();
    c.process_card(&card, MAX_CARD_DEPTH).unwrap();
    assert!(c.locals.is_empty());
    assert_eq!(c.scope_depth, 1);
    let code = &c.program.bytecode;
    // the body reads the named counter, local 2
    let read_i = [op(Instruction::ReadLocalVar), 2, 0, 0, 0];
    assert!(code.windows(5).any(|w| w == read_i));
    assert_eq!(code[code.len() - 5], op(Instruction::Goto));
}
