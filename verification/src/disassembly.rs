//! Human-readable listings of bytecode.
use vstd::prelude::*;
use crate::instruction::{Instruction, NUM_INSTRUCTIONS, data_span, lemma_opcode_roundtrip, opcode};
use crate::program::CaoProgram;

verus! {

/// The name of an instruction, as its `Debug` form writes it.
pub open spec fn spec_instruction_name(i: Instruction) -> Seq<char> {
    match i {
        Instruction::Add => "Add"@,
        Instruction::Sub => "Sub"@,
        Instruction::Mul => "Mul"@,
        Instruction::Div => "Div"@,
        Instruction::CallNative => "CallNative"@,
        Instruction::ScalarInt => "ScalarInt"@,
        Instruction::ScalarFloat => "ScalarFloat"@,
        Instruction::ScalarNil => "ScalarNil"@,
        Instruction::StringLiteral => "StringLiteral"@,
        Instruction::CopyLast => "CopyLast"@,
        Instruction::Exit => "Exit"@,
        Instruction::CallFunction => "CallFunction"@,
        Instruction::Equals => "Equals"@,
        Instruction::NotEquals => "NotEquals"@,
        Instruction::Less => "Less"@,
        Instruction::LessOrEq => "LessOrEq"@,
        Instruction::Pop => "Pop"@,
        Instruction::SetGlobalVar => "SetGlobalVar"@,
        Instruction::ReadGlobalVar => "ReadGlobalVar"@,
        Instruction::SetLocalVar => "SetLocalVar"@,
        Instruction::ReadLocalVar => "ReadLocalVar"@,
        Instruction::ClearStack => "ClearStack"@,
        Instruction::Return => "Return"@,
        Instruction::SwapLast => "SwapLast"@,
        Instruction::And => "And"@,
        Instruction::Or => "Or"@,
        Instruction::Xor => "Xor"@,
        Instruction::Not => "Not"@,
        Instruction::Goto => "Goto"@,
        Instruction::GotoIfTrue => "GotoIfTrue"@,
        Instruction::GotoIfFalse => "GotoIfFalse"@,
        Instruction::InitTable => "InitTable"@,
        Instruction::GetProperty => "GetProperty"@,
        Instruction::SetProperty => "SetProperty"@,
        Instruction::Len => "Len"@,
        Instruction::BeginForEach => "BeginForEach"@,
        Instruction::ForEach => "ForEach"@,
        Instruction::FunctionPointer => "FunctionPointer"@,
        Instruction::NativeFunctionPointer => "NativeFunctionPointer"@,
        Instruction::NthRow => "NthRow"@,
        Instruction::AppendTable => "AppendTable"@,
        Instruction::PopTable => "PopTable"@,
        Instruction::Closure => "Closure"@,
        Instruction::SetUpvalue => "SetUpvalue"@,
        Instruction::ReadUpvalue => "ReadUpvalue"@,
        Instruction::RegisterUpvalue => "RegisterUpvalue"@,
        Instruction::CloseUpvalue => "CloseUpvalue"@,
    }
}

/// The name of an instruction, as its `Debug` form writes it.
pub fn instruction_name(i: Instruction) -> (r: &'static str)
    ensures
        r@ == spec_instruction_name(i),
{
    match i {
        Instruction::Add => "Add",
        Instruction::Sub => "Sub",
        Instruction::Mul => "Mul",
        Instruction::Div => "Div",
        Instruction::CallNative => "CallNative",
        Instruction::ScalarInt => "ScalarInt",
        Instruction::ScalarFloat => "ScalarFloat",
        Instruction::ScalarNil => "ScalarNil",
        Instruction::StringLiteral => "StringLiteral",
        Instruction::CopyLast => "CopyLast",
        Instruction::Exit => "Exit",
        Instruction::CallFunction => "CallFunction",
        Instruction::Equals => "Equals",
        Instruction::NotEquals => "NotEquals",
        Instruction::Less => "Less",
        Instruction::LessOrEq => "LessOrEq",
        Instruction::Pop => "Pop",
        Instruction::SetGlobalVar => "SetGlobalVar",
        Instruction::ReadGlobalVar => "ReadGlobalVar",
        Instruction::SetLocalVar => "SetLocalVar",
        Instruction::ReadLocalVar => "ReadLocalVar",
        Instruction::ClearStack => "ClearStack",
        Instruction::Return => "Return",
        Instruction::SwapLast => "SwapLast",
        Instruction::And => "And",
        Instruction::Or => "Or",
        Instruction::Xor => "Xor",
        Instruction::Not => "Not",
        Instruction::Goto => "Goto",
        Instruction::GotoIfTrue => "GotoIfTrue",
        Instruction::GotoIfFalse => "GotoIfFalse",
        Instruction::InitTable => "InitTable",
        Instruction::GetProperty => "GetProperty",
        Instruction::SetProperty => "SetProperty",
        Instruction::Len => "Len",
        Instruction::BeginForEach => "BeginForEach",
        Instruction::ForEach => "ForEach",
        Instruction::FunctionPointer => "FunctionPointer",
        Instruction::NativeFunctionPointer => "NativeFunctionPointer",
        Instruction::NthRow => "NthRow",
        Instruction::AppendTable => "AppendTable",
        Instruction::PopTable => "PopTable",
        Instruction::Closure => "Closure",
        Instruction::SetUpvalue => "SetUpvalue",
        Instruction::ReadUpvalue => "ReadUpvalue",
        Instruction::RegisterUpvalue => "RegisterUpvalue",
        Instruction::CloseUpvalue => "CloseUpvalue",
    }
}

/// The instruction that opcode `b` encodes.
pub open spec fn decoded(b: u8) -> Option<Instruction> {
    if b < NUM_INSTRUCTIONS {
        Some(choose|i: Instruction| opcode(i) == b)
    } else {
        None
    }
}

/// The decimal digits of `n`.
pub open spec fn decimal(n: nat) -> Seq<char>
    decreases n,
{
    if n < 10 {
        seq![(48 + n) as char]
    } else {
        decimal(n / 10) + seq![(48 + n % 10) as char]
    }
}

/// The line written for a byte that encodes no instruction.
pub open spec fn invalid_line(b: u8) -> Seq<char> {
    "<Invalid instruction: TryFromPrimitiveError { number: "@ + decimal(b as nat) + " }>"@ + seq!['\n']
}

/// The listing of `bytes` from position `i` on: one line per instruction, each instruction
/// followed by its inline data, and one line for each byte that encodes no instruction.
pub open spec fn listing(bytes: Seq<u8>, i: nat) -> Seq<char>
    decreases bytes.len() + 32 - i,
{
    if i >= bytes.len() {
        seq![]
    } else {
        match decoded(bytes[i as int]) {
            Some(ins) => {
                proof {
                    lemma_data_span_bound(ins);
                }
                spec_instruction_name(ins) + seq!['\n'] + listing(bytes, i + 1 + data_span(ins))
            },
            None => invalid_line(bytes[i as int]) + listing(bytes, i + 1),
        }
    }
}

/// No instruction carries more than 20 bytes of inline data.
pub proof fn lemma_data_span_bound(i: Instruction)
    ensures
        data_span(i) <= 20,
{
}

/// `String::push_str`: appends `t` to `s`.
#[verifier::external_body]
pub(crate) fn push_str(s: &mut String, t: &str)
    ensures
        final(s)@ == old(s)@ + t@,
{
    s.push_str(t);
}

/// `String::push`: appends `c` to `s`.
#[verifier::external_body]
pub(crate) fn push_char(s: &mut String, c: char)
    ensures
        final(s)@ == old(s)@.push(c),
{
    s.push(c);
}

/// Appends the decimal digits of `n`.
fn push_decimal(s: &mut String, n: u8)
    ensures
        final(s)@ == old(s)@ + decimal(n as nat),
{
    if n >= 100 {
        push_char(s, (48 + n / 100) as char);
    }
    if n >= 10 {
        push_char(s, (48 + (n / 10) % 10) as char);
    }
    push_char(s, (48 + n % 10) as char);
    proof {
        let k = n as nat;
        if k >= 100 {
            assert(decimal(k / 100) == seq![(48 + k / 100) as char]);
            assert(decimal(k / 10) == decimal(k / 100) + seq![(48 + (k / 10) % 10) as char]);
        } else if k >= 10 {
            assert(decimal(k / 10) == seq![(48 + k / 10) as char]);
            assert((k / 10) % 10 == k / 10);
        }
        assert(final(s)@ =~= old(s)@ + decimal(k));
    }
}

/// Appends the decimal digits of `n`.
pub(crate) fn push_decimal_usize(s: &mut String, n: usize)
    ensures
        final(s)@ == old(s)@ + decimal(n as nat),
    decreases n,
{
    if n >= 10 {
        push_decimal_usize(s, n / 10);
    }
    push_char(s, ((n % 10) as u8 + 48) as char);
    proof {
        let k = n as nat;
        if k >= 10 {
            assert(final(s)@ =~= old(s)@ + decimal(k));
        } else {
            assert(final(s)@ =~= old(s)@ + decimal(k));
        }
    }
}

/// The bytes from position `i` on hold whole instructions: every position that a listing
/// reaches holds an opcode.
pub open spec fn well_formed_from(bytes: Seq<u8>, i: nat) -> bool
    decreases bytes.len() + 32 - i,
{
    if i >= bytes.len() {
        true
    } else {
        match decoded(bytes[i as int]) {
            Some(ins) => {
                proof {
                    lemma_data_span_bound(ins);
                }
                well_formed_from(bytes, i + 1 + data_span(ins))
            },
            None => false,
        }
    }
}

/// The listing of well-formed `bytes` from position `i` on: one line per instruction, its
/// position, a tab and its name.
pub open spec fn positioned_listing(bytes: Seq<u8>, i: nat) -> Seq<char>
    decreases bytes.len() + 32 - i,
{
    if i >= bytes.len() {
        seq![]
    } else {
        match decoded(bytes[i as int]) {
            Some(ins) => {
                proof {
                    lemma_data_span_bound(ins);
                }
                decimal(i) + seq!['\t'] + spec_instruction_name(ins) + seq!['\n'] + positioned_listing(
                    bytes,
                    i + 1 + data_span(ins),
                )
            },
            None => seq![],
        }
    }
}

/// Whether `bytes` holds whole instructions, as the positioned listing needs.
pub fn is_well_formed(bytes: &Vec<u8>) -> (r: bool)
    requires
        bytes@.len() < usize::MAX - 32,
    ensures
        r == well_formed_from(bytes@, 0),
{
    let mut i: usize = 0;
    while i < bytes.len()
        invariant
            bytes@.len() < usize::MAX - 32,
            i <= bytes@.len() + 32,
            well_formed_from(bytes@, 0) == well_formed_from(bytes@, i as nat),
        decreases bytes@.len() + 32 - i,
    {
        let b = bytes[i];
        match Instruction::from_u8(b) {
            Some(instr) => {
                proof {
                    lemma_opcode_roundtrip(instr);
                    lemma_data_span_bound(instr);
                    assert(decoded(b) == Some(instr));
                }
                i = i + instr.span();
            },
            None => {
                proof {
                    assert(decoded(b) is None);
                }
                return false;
            },
        }
    }
    true
}

/// Lists the instructions of well-formed bytecode, one per line, each after its position.
pub fn disassemble_positioned(bytes: &Vec<u8>) -> (r: String)
    requires
        bytes@.len() < usize::MAX - 32,
        well_formed_from(bytes@, 0),
    ensures
        r@ == positioned_listing(bytes@, 0),
{
    let mut result = String::new();
    let mut i: usize = 0;
    while i < bytes.len()
        invariant
            bytes@.len() < usize::MAX - 32,
            i <= bytes@.len() + 32,
            well_formed_from(bytes@, i as nat),
            result@ + positioned_listing(bytes@, i as nat) == positioned_listing(bytes@, 0),
        decreases bytes@.len() + 32 - i,
    {
        let b = bytes[i];
        let ghost before = result@;
        match Instruction::from_u8(b) {
            Some(instr) => {
                proof {
                    lemma_opcode_roundtrip(instr);
                    lemma_data_span_bound(instr);
                    assert(decoded(b) == Some(instr));
                }
                push_decimal_usize(&mut result, i);
                push_char(&mut result, '\t');
                push_str(&mut result, instruction_name(instr));
                push_char(&mut result, '\n');
                proof {
                    assert(result@ =~= before + (decimal(i as nat) + seq!['\t'] + spec_instruction_name(instr)
                        + seq!['\n']));
                }
                i = i + instr.span();
            },
            None => {
                proof {
                    assert(decoded(b) is None);
                    assert(false);
                }
                i = i + 1;
            },
        }
    }
    proof {
        assert(positioned_listing(bytes@, i as nat) == Seq::<char>::empty());
        assert(result@ + Seq::<char>::empty() =~= result@);
    }
    result
}

/// Lists the instructions of a program's bytecode, one per line.
pub fn disassemble(program: &CaoProgram) -> (r: String)
    requires
        program.bytecode@.len() < usize::MAX - 32,
    ensures
        r@ == listing(program.bytecode@, 0),
{
    let bytes = &program.bytecode;
    let mut result = String::new();
    let mut i: usize = 0;
    while i < bytes.len()
        invariant
            bytes@.len() < usize::MAX - 32,
            i <= bytes@.len() + 32,
            result@ + listing(bytes@, i as nat) == listing(bytes@, 0),
        decreases bytes@.len() + 32 - i,
    {
        let b = bytes[i];
        let ghost before = result@;
        match Instruction::from_u8(b) {
            Some(instr) => {
                proof {
                    lemma_opcode_roundtrip(instr);
                    lemma_data_span_bound(instr);
                    assert(decoded(b) == Some(instr));
                }
                push_str(&mut result, instruction_name(instr));
                push_char(&mut result, '\n');
                proof {
                    assert(result@ =~= before + (spec_instruction_name(instr) + seq!['\n']));
                }
                i = i + instr.span();
            },
            None => {
                proof {
                    assert(decoded(b) is None);
                }
                push_str(&mut result, "<Invalid instruction: TryFromPrimitiveError { number: ");
                push_decimal(&mut result, b);
                push_str(&mut result, " }>");
                push_char(&mut result, '\n');
                proof {
                    assert(result@ =~= before + invalid_line(b));
                }
                i = i + 1;
            },
        }
    }
    proof {
        assert(listing(bytes@, i as nat) == Seq::<char>::empty());
        assert(result@ + Seq::<char>::empty() =~= result@);
    }
    result
}


/// What tells the names of instructions and cards apart: the length and the first, middle and
/// last characters.
pub open spec fn name_marks(s: Seq<char>) -> (nat, char, char, char) {
    (s.len(), s[0], s[(s.len() / 2) as int], s[s.len() - 1])
}

/// The instruction whose name has the marks `m`.
spec fn instruction_of_marks(m: (nat, char, char, char)) -> Instruction {
    if m == (3nat, 'A', 'd', 'd') {
        Instruction::Add
    } else if m == (3nat, 'S', 'u', 'b') {
        Instruction::Sub
    } else if m == (3nat, 'M', 'u', 'l') {
        Instruction::Mul
    } else if m == (3nat, 'D', 'i', 'v') {
        Instruction::Div
    } else if m == (10nat, 'C', 'a', 'e') {
        Instruction::CallNative
    } else if m == (9nat, 'S', 'a', 't') {
        Instruction::ScalarInt
    } else if m == (11nat, 'S', 'r', 't') {
        Instruction::ScalarFloat
    } else if m == (9nat, 'S', 'a', 'l') {
        Instruction::ScalarNil
    } else if m == (13nat, 'S', 'L', 'l') {
        Instruction::StringLiteral
    } else if m == (8nat, 'C', 'L', 't') {
        Instruction::CopyLast
    } else if m == (4nat, 'E', 'i', 't') {
        Instruction::Exit
    } else if m == (12nat, 'C', 'n', 'n') {
        Instruction::CallFunction
    } else if m == (6nat, 'E', 'a', 's') {
        Instruction::Equals
    } else if m == (9nat, 'N', 'q', 's') {
        Instruction::NotEquals
    } else if m == (4nat, 'L', 's', 's') {
        Instruction::Less
    } else if m == (8nat, 'L', 'O', 'q') {
        Instruction::LessOrEq
    } else if m == (3nat, 'P', 'o', 'p') {
        Instruction::Pop
    } else if m == (12nat, 'S', 'b', 'r') {
        Instruction::SetGlobalVar
    } else if m == (13nat, 'R', 'o', 'r') {
        Instruction::ReadGlobalVar
    } else if m == (11nat, 'S', 'c', 'r') {
        Instruction::SetLocalVar
    } else if m == (12nat, 'R', 'c', 'r') {
        Instruction::ReadLocalVar
    } else if m == (10nat, 'C', 'S', 'k') {
        Instruction::ClearStack
    } else if m == (6nat, 'R', 'u', 'n') {
        Instruction::Return
    } else if m == (8nat, 'S', 'L', 't') {
        Instruction::SwapLast
    } else if m == (3nat, 'A', 'n', 'd') {
        Instruction::And
    } else if m == (2nat, 'O', 'r', 'r') {
        Instruction::Or
    } else if m == (3nat, 'X', 'o', 'r') {
        Instruction::Xor
    } else if m == (3nat, 'N', 'o', 't') {
        Instruction::Not
    } else if m == (4nat, 'G', 't', 'o') {
        Instruction::Goto
    } else if m == (10nat, 'G', 'f', 'e') {
        Instruction::GotoIfTrue
    } else if m == (11nat, 'G', 'f', 'e') {
        Instruction::GotoIfFalse
    } else if m == (9nat, 'I', 'T', 'e') {
        Instruction::InitTable
    } else if m == (11nat, 'G', 'o', 'y') {
        Instruction::GetProperty
    } else if m == (11nat, 'S', 'o', 'y') {
        Instruction::SetProperty
    } else if m == (3nat, 'L', 'e', 'n') {
        Instruction::Len
    } else if m == (12nat, 'B', 'o', 'h') {
        Instruction::BeginForEach
    } else if m == (7nat, 'F', 'E', 'h') {
        Instruction::ForEach
    } else if m == (15nat, 'F', 'n', 'r') {
        Instruction::FunctionPointer
    } else if m == (21nat, 'N', 't', 'r') {
        Instruction::NativeFunctionPointer
    } else if m == (6nat, 'N', 'R', 'w') {
        Instruction::NthRow
    } else if m == (11nat, 'A', 'd', 'e') {
        Instruction::AppendTable
    } else if m == (8nat, 'P', 'a', 'e') {
        Instruction::PopTable
    } else if m == (7nat, 'C', 's', 'e') {
        Instruction::Closure
    } else if m == (10nat, 'S', 'v', 'e') {
        Instruction::SetUpvalue
    } else if m == (11nat, 'R', 'p', 'e') {
        Instruction::ReadUpvalue
    } else if m == (15nat, 'R', 'r', 'e') {
        Instruction::RegisterUpvalue
    } else {
        Instruction::CloseUpvalue
    }
}

/// The marks of an instruction's name lead back to the instruction.
proof fn lemma_instruction_marks(i: Instruction)
    ensures
        instruction_of_marks(name_marks(spec_instruction_name(i))) == i,
{
    match i {
        Instruction::Add => {
            reveal_strlit("Add");
        },
        Instruction::Sub => {
            reveal_strlit("Sub");
        },
        Instruction::Mul => {
            reveal_strlit("Mul");
        },
        Instruction::Div => {
            reveal_strlit("Div");
        },
        Instruction::CallNative => {
            reveal_strlit("CallNative");
        },
        Instruction::ScalarInt => {
            reveal_strlit("ScalarInt");
        },
        Instruction::ScalarFloat => {
            reveal_strlit("ScalarFloat");
        },
        Instruction::ScalarNil => {
            reveal_strlit("ScalarNil");
        },
        Instruction::StringLiteral => {
            reveal_strlit("StringLiteral");
        },
        Instruction::CopyLast => {
            reveal_strlit("CopyLast");
        },
        Instruction::Exit => {
            reveal_strlit("Exit");
        },
        Instruction::CallFunction => {
            reveal_strlit("CallFunction");
        },
        Instruction::Equals => {
            reveal_strlit("Equals");
        },
        Instruction::NotEquals => {
            reveal_strlit("NotEquals");
        },
        Instruction::Less => {
            reveal_strlit("Less");
        },
        Instruction::LessOrEq => {
            reveal_strlit("LessOrEq");
        },
        Instruction::Pop => {
            reveal_strlit("Pop");
        },
        Instruction::SetGlobalVar => {
            reveal_strlit("SetGlobalVar");
        },
        Instruction::ReadGlobalVar => {
            reveal_strlit("ReadGlobalVar");
        },
        Instruction::SetLocalVar => {
            reveal_strlit("SetLocalVar");
        },
        Instruction::ReadLocalVar => {
            reveal_strlit("ReadLocalVar");
        },
        Instruction::ClearStack => {
            reveal_strlit("ClearStack");
        },
        Instruction::Return => {
            reveal_strlit("Return");
        },
        Instruction::SwapLast => {
            reveal_strlit("SwapLast");
        },
        Instruction::And => {
            reveal_strlit("And");
        },
        Instruction::Or => {
            reveal_strlit("Or");
        },
        Instruction::Xor => {
            reveal_strlit("Xor");
        },
        Instruction::Not => {
            reveal_strlit("Not");
        },
        Instruction::Goto => {
            reveal_strlit("Goto");
        },
        Instruction::GotoIfTrue => {
            reveal_strlit("GotoIfTrue");
        },
        Instruction::GotoIfFalse => {
            reveal_strlit("GotoIfFalse");
        },
        Instruction::InitTable => {
            reveal_strlit("InitTable");
        },
        Instruction::GetProperty => {
            reveal_strlit("GetProperty");
        },
        Instruction::SetProperty => {
            reveal_strlit("SetProperty");
        },
        Instruction::Len => {
            reveal_strlit("Len");
        },
        Instruction::BeginForEach => {
            reveal_strlit("BeginForEach");
        },
        Instruction::ForEach => {
            reveal_strlit("ForEach");
        },
        Instruction::FunctionPointer => {
            reveal_strlit("FunctionPointer");
        },
        Instruction::NativeFunctionPointer => {
            reveal_strlit("NativeFunctionPointer");
        },
        Instruction::NthRow => {
            reveal_strlit("NthRow");
        },
        Instruction::AppendTable => {
            reveal_strlit("AppendTable");
        },
        Instruction::PopTable => {
            reveal_strlit("PopTable");
        },
        Instruction::Closure => {
            reveal_strlit("Closure");
        },
        Instruction::SetUpvalue => {
            reveal_strlit("SetUpvalue");
        },
        Instruction::ReadUpvalue => {
            reveal_strlit("ReadUpvalue");
        },
        Instruction::RegisterUpvalue => {
            reveal_strlit("RegisterUpvalue");
        },
        Instruction::CloseUpvalue => {
            reveal_strlit("CloseUpvalue");
        },
    }
}

/// Distinct instructions have distinct names: a listing names each instruction apart from
/// every other, and a name identifies its instruction.
pub proof fn lemma_instruction_names_distinct(i: Instruction, j: Instruction)
    ensures
        (spec_instruction_name(i) == spec_instruction_name(j)) == (i == j),
{
    lemma_instruction_marks(i);
    lemma_instruction_marks(j);
}

} // verus!
