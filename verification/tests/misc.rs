use cao_lang::disassembly::disassemble;
use cao_lang::bytecode::{decode_str, encode_str, read_from_bytes, write_to_vec};
use cao_lang::compiler::card_description::PropertyName;
use cao_lang::compiler::compile_options::CompileOptions;
use cao_lang::instruction::Instruction;
use cao_lang::procedures::ExecutionErrorPayload;
use cao_lang::program::{CaoProgram, Label};
use cao_lang::VariableId;

#[test]
fn bytecode_roundtrip() {
    let mut out = vec![];
    write_to_vec(0x0102_0304u32, &mut out);
    assert_eq!(out, vec![4, 3, 2, 1]);
    write_to_vec(-2i64, &mut out);
    let (n, v): (usize, u32) = read_from_bytes(&out).unwrap();
    assert_eq!((n, v), (4, 0x0102_0304));
    let (n, v): (usize, i64) = read_from_bytes(&out[4..]).unwrap();
    assert_eq!((n, v), (8, -2));
    assert!(read_from_bytes::<u64>(&out[6..]).is_none());
    let mut ids = vec![];
    write_to_vec(VariableId(7), &mut ids);
    assert_eq!(read_from_bytes::<VariableId>(&ids), Some((4, VariableId(7))));
}

#[test]
fn str_roundtrip() {
    let mut out = vec![];
    encode_str("winnie", &mut out);
    assert_eq!(&out[..4], &[6, 0, 0, 0]);
    out.push(99);
    assert_eq!(decode_str(&out), Some((10, "winnie")));
    assert_eq!(decode_str(&out[..5]), None);
    assert_eq!(decode_str(&[2, 0, 0, 0, 0xff, 0xfe]), None);
}

#[test]
fn property_names() {
    let all = PropertyName::all_props();
    assert_eq!(all.len(), 8);
    assert_eq!(all[0].to_str(), "Integer");
    assert_eq!(PropertyName::Boolean.to_str(), "Boolean");
}

#[test]
fn defaults() {
    assert_eq!(CompileOptions::new().recursion_limit, 64);
    assert_eq!(CompileOptions::default().recursion_limit, 64);
    assert_eq!(Label::new(3).pos, 3);
    let program = CaoProgram::default();
    assert!(program.bytecode.is_empty());
    assert_eq!(program.variable_id("x"), None);
    match ExecutionErrorPayload::invalid_argument("bad".to_string()) {
        ExecutionErrorPayload::InvalidArgument { context } => assert_eq!(context.as_deref(), Some("bad")),
        _ => panic!("wrong variant"),
    }
}

#[test]
fn instruction_codes() {
    for b in 0..=255u8 {
        if let Some(i) = Instruction::from_u8(b) {
            assert_eq!(i.as_u8(), b);
        }
    }
    assert!(Instruction::from_u8(255).is_none());
}

#[test]
fn disassembly_lists_instructions_and_invalid_bytes() {
    let mut program = CaoProgram::default();
    program.bytecode = vec![0, 5, 1, 2, 3, 4, 5, 6, 7, 8, 255, 22];
    assert_eq!(
        disassemble(&program),
        "Add\nScalarInt\n<Invalid instruction: TryFromPrimitiveError { number: 255 }>\nReturn\n"
    );
    program.bytecode = vec![];
    assert_eq!(disassemble(&program), "");
}

#[test]
fn compiled_program_disassembly_has_positions() {
    use_compiled_program();
}

fn use_compiled_program() {
    let mut program = cao_lang::compiled_program::CaoCompiledProgram::default();
    program.bytecode = vec![0, 5, 1, 2, 3, 4, 5, 6, 7, 8, 22];
    assert_eq!(program.disassemble(), "0\tAdd\n1\tScalarInt\n10\tReturn\n");
    assert_eq!(program.variable_id("x"), None);
}

#[test]
fn trace_text() {
    let t = cao_lang::compiled_program::Trace {
        namespace: vec!["foo".to_string(), "bar".to_string()],
        index: cao_lang::compiler::module::CardIndex::new(2, 5),
    };
    assert_eq!(t.to_string(), "foo.bar.2.5");
}

#[test]
fn super_depth_counts_super_steps() {
    use_super_depth();
}

fn use_super_depth() {
    let f = cao_lang::compiler::imports::super_depth;
    assert_eq!(f("super.super.foo"), (2, Some("foo")));
    assert_eq!(f("foo.bar"), (0, None));
    assert_eq!(f("a.super.b"), (1, Some("b")));
    assert_eq!(f("super."), (1, Some("")));
    assert_eq!(f("supersuper.x"), (1, Some("x")));
    assert_eq!(f("super.ü.super.é"), (2, Some("é")));
}

#[test]
fn instruction_names_and_spans() {
    assert_eq!(cao_lang::disassembly::instruction_name(Instruction::Add), "Add");
    assert_eq!(Instruction::Add.span(), 1);
    assert!(Instruction::ScalarInt.span() > 1);
}

#[test]
fn disassembly_with_positions() {
    let bytes = vec![Instruction::Add.as_u8(), Instruction::Sub.as_u8()];
    let text = cao_lang::disassembly::disassemble_positioned(&bytes);
    assert_eq!(text, "0\tAdd\n1\tSub\n");
}

#[test]
fn well_formed_bytecode_check() {
    let ok = vec![Instruction::Add.as_u8(), Instruction::Sub.as_u8()];
    assert!(cao_lang::disassembly::is_well_formed(&ok));
    assert!(!cao_lang::disassembly::is_well_formed(&vec![255u8]));
    assert!(cao_lang::disassembly::is_well_formed(&vec![]));
}
