//! The instruction set of the Cao-Lang interpreter.
use vstd::prelude::*;

verus! {

/// Single instruction of the interpreter.
///
/// Each instruction is encoded in the bytecode as one byte, its opcode, followed by
/// [`Instruction::span`] - 1 bytes of inline data.
#[derive(Debug, Clone, Copy, PartialEq, Eq)]
pub enum Instruction {
    /// Add two numbers
    Add,
    /// Subtract two numbers
    Sub,
    /// Multiply two numbers
    Mul,
    /// Divide the first number by the second
    Div,
    /// Call a function provided by the runtime
    CallNative,
    /// Push an int onto the stack
    ScalarInt,
    /// Push a float onto the stack
    ScalarFloat,
    /// Push a `nil` value onto the stack
    ScalarNil,
    /// Write a string to memory and push a pointer to it onto the stack
    StringLiteral,
    /// Clone the last element on the stack
    CopyLast,
    /// Quit the program
    Exit,
    /// Jump to the function on the top of the stack
    CallFunction,
    /// Compare two values
    Equals,
    /// Compare two values
    NotEquals,
    /// Is the first param less than the second?
    Less,
    /// Is the first param less than or equal to the second?
    LessOrEq,
    /// Pop the top of the stack and discard it
    Pop,
    /// Set a global variable to the value on the top of the stack
    SetGlobalVar,
    /// Read a global variable and push its value onto the stack
    ReadGlobalVar,
    /// Set a local variable to the value on the top of the stack
    SetLocalVar,
    /// Read a local variable
    ReadLocalVar,
    /// Clear the last callframe's stack
    ClearStack,
    /// Return to right after the last call instruction
    Return,
    /// Swap the last two values on the stack
    SwapLast,
    And,
    Or,
    Xor,
    Not,
    /// Read a bytecode position and move there
    Goto,
    /// Pop a value and `goto` if it was truthy
    GotoIfTrue,
    /// Pop a value and `goto` if it was falsy
    GotoIfFalse,
    /// Create a new table and push it onto the stack
    InitTable,
    /// Get a property of a table
    GetProperty,
    /// Set a property of a table
    SetProperty,
    /// Push the length of the topmost table
    Len,
    BeginForEach,
    ForEach,
    FunctionPointer,
    NativeFunctionPointer,
    /// Get the given row of a table
    NthRow,
    /// Append a value to a table
    AppendTable,
    /// Pop the last row of a table
    PopTable,
    Closure,
    SetUpvalue,
    ReadUpvalue,
    RegisterUpvalue,
    CloseUpvalue,
}

/// Number of distinct instructions.
pub const NUM_INSTRUCTIONS: u8 = 47;

/// The opcode of an instruction: its position in the instruction list.
pub open spec fn opcode(i: Instruction) -> u8 {
    match i {
        Instruction::Add => 0,
        Instruction::Sub => 1,
        Instruction::Mul => 2,
        Instruction::Div => 3,
        Instruction::CallNative => 4,
        Instruction::ScalarInt => 5,
        Instruction::ScalarFloat => 6,
        Instruction::ScalarNil => 7,
        Instruction::StringLiteral => 8,
        Instruction::CopyLast => 9,
        Instruction::Exit => 10,
        Instruction::CallFunction => 11,
        Instruction::Equals => 12,
        Instruction::NotEquals => 13,
        Instruction::Less => 14,
        Instruction::LessOrEq => 15,
        Instruction::Pop => 16,
        Instruction::SetGlobalVar => 17,
        Instruction::ReadGlobalVar => 18,
        Instruction::SetLocalVar => 19,
        Instruction::ReadLocalVar => 20,
        Instruction::ClearStack => 21,
        Instruction::Return => 22,
        Instruction::SwapLast => 23,
        Instruction::And => 24,
        Instruction::Or => 25,
        Instruction::Xor => 26,
        Instruction::Not => 27,
        Instruction::Goto => 28,
        Instruction::GotoIfTrue => 29,
        Instruction::GotoIfFalse => 30,
        Instruction::InitTable => 31,
        Instruction::GetProperty => 32,
        Instruction::SetProperty => 33,
        Instruction::Len => 34,
        Instruction::BeginForEach => 35,
        Instruction::ForEach => 36,
        Instruction::FunctionPointer => 37,
        Instruction::NativeFunctionPointer => 38,
        Instruction::NthRow => 39,
        Instruction::AppendTable => 40,
        Instruction::PopTable => 41,
        Instruction::Closure => 42,
        Instruction::SetUpvalue => 43,
        Instruction::ReadUpvalue => 44,
        Instruction::RegisterUpvalue => 45,
        Instruction::CloseUpvalue => 46,
    }
}

/// Size, in bytes, of the inline data that follows the opcode of an instruction.
pub open spec fn data_span(i: Instruction) -> nat {
    match i {
        Instruction::Add => 0,
        Instruction::Sub => 0,
        Instruction::Mul => 0,
        Instruction::Div => 0,
        Instruction::CallNative => 4,
        Instruction::ScalarInt => 8,
        Instruction::ScalarFloat => 8,
        Instruction::ScalarNil => 0,
        Instruction::StringLiteral => 4,
        Instruction::CopyLast => 0,
        Instruction::Exit => 0,
        Instruction::CallFunction => 0,
        Instruction::Equals => 0,
        Instruction::NotEquals => 0,
        Instruction::Less => 0,
        Instruction::LessOrEq => 0,
        Instruction::Pop => 0,
        Instruction::SetGlobalVar => 4,
        Instruction::ReadGlobalVar => 4,
        Instruction::SetLocalVar => 4,
        Instruction::ReadLocalVar => 4,
        Instruction::ClearStack => 0,
        Instruction::Return => 0,
        Instruction::SwapLast => 0,
        Instruction::And => 0,
        Instruction::Or => 0,
        Instruction::Xor => 0,
        Instruction::Not => 0,
        Instruction::Goto => 4,
        Instruction::GotoIfTrue => 4,
        Instruction::GotoIfFalse => 4,
        Instruction::InitTable => 0,
        Instruction::GetProperty => 0,
        Instruction::SetProperty => 0,
        Instruction::Len => 0,
        Instruction::BeginForEach => 8,
        Instruction::ForEach => 20,
        Instruction::FunctionPointer => 8,
        Instruction::NativeFunctionPointer => 4,
        Instruction::NthRow => 0,
        Instruction::AppendTable => 0,
        Instruction::PopTable => 0,
        Instruction::Closure => 8,
        Instruction::SetUpvalue => 4,
        Instruction::ReadUpvalue => 4,
        Instruction::RegisterUpvalue => 2,
        Instruction::CloseUpvalue => 0,
    }
}

impl Instruction {
    /// The byte that encodes this instruction.
    pub fn as_u8(self) -> (r: u8)
        ensures
            r == opcode(self),
            r < NUM_INSTRUCTIONS,
    {
        match self {
            Instruction::Add => 0,
            Instruction::Sub => 1,
            Instruction::Mul => 2,
            Instruction::Div => 3,
            Instruction::CallNative => 4,
            Instruction::ScalarInt => 5,
            Instruction::ScalarFloat => 6,
            Instruction::ScalarNil => 7,
            Instruction::StringLiteral => 8,
            Instruction::CopyLast => 9,
            Instruction::Exit => 10,
            Instruction::CallFunction => 11,
            Instruction::Equals => 12,
            Instruction::NotEquals => 13,
            Instruction::Less => 14,
            Instruction::LessOrEq => 15,
            Instruction::Pop => 16,
            Instruction::SetGlobalVar => 17,
            Instruction::ReadGlobalVar => 18,
            Instruction::SetLocalVar => 19,
            Instruction::ReadLocalVar => 20,
            Instruction::ClearStack => 21,
            Instruction::Return => 22,
            Instruction::SwapLast => 23,
            Instruction::And => 24,
            Instruction::Or => 25,
            Instruction::Xor => 26,
            Instruction::Not => 27,
            Instruction::Goto => 28,
            Instruction::GotoIfTrue => 29,
            Instruction::GotoIfFalse => 30,
            Instruction::InitTable => 31,
            Instruction::GetProperty => 32,
            Instruction::SetProperty => 33,
            Instruction::Len => 34,
            Instruction::BeginForEach => 35,
            Instruction::ForEach => 36,
            Instruction::FunctionPointer => 37,
            Instruction::NativeFunctionPointer => 38,
            Instruction::NthRow => 39,
            Instruction::AppendTable => 40,
            Instruction::PopTable => 41,
            Instruction::Closure => 42,
            Instruction::SetUpvalue => 43,
            Instruction::ReadUpvalue => 44,
            Instruction::RegisterUpvalue => 45,
            Instruction::CloseUpvalue => 46,
        }
    }

    /// Decodes an opcode; `None` if the byte encodes no instruction.
    pub fn from_u8(b: u8) -> (r: Option<Instruction>)
        ensures
            b < NUM_INSTRUCTIONS <==> r is Some,
            r matches Some(i) ==> opcode(i) == b,
    {
        match b {
            0 => Some(Instruction::Add),
            1 => Some(Instruction::Sub),
            2 => Some(Instruction::Mul),
            3 => Some(Instruction::Div),
            4 => Some(Instruction::CallNative),
            5 => Some(Instruction::ScalarInt),
            6 => Some(Instruction::ScalarFloat),
            7 => Some(Instruction::ScalarNil),
            8 => Some(Instruction::StringLiteral),
            9 => Some(Instruction::CopyLast),
            10 => Some(Instruction::Exit),
            11 => Some(Instruction::CallFunction),
            12 => Some(Instruction::Equals),
            13 => Some(Instruction::NotEquals),
            14 => Some(Instruction::Less),
            15 => Some(Instruction::LessOrEq),
            16 => Some(Instruction::Pop),
            17 => Some(Instruction::SetGlobalVar),
            18 => Some(Instruction::ReadGlobalVar),
            19 => Some(Instruction::SetLocalVar),
            20 => Some(Instruction::ReadLocalVar),
            21 => Some(Instruction::ClearStack),
            22 => Some(Instruction::Return),
            23 => Some(Instruction::SwapLast),
            24 => Some(Instruction::And),
            25 => Some(Instruction::Or),
            26 => Some(Instruction::Xor),
            27 => Some(Instruction::Not),
            28 => Some(Instruction::Goto),
            29 => Some(Instruction::GotoIfTrue),
            30 => Some(Instruction::GotoIfFalse),
            31 => Some(Instruction::InitTable),
            32 => Some(Instruction::GetProperty),
            33 => Some(Instruction::SetProperty),
            34 => Some(Instruction::Len),
            35 => Some(Instruction::BeginForEach),
            36 => Some(Instruction::ForEach),
            37 => Some(Instruction::FunctionPointer),
            38 => Some(Instruction::NativeFunctionPointer),
            39 => Some(Instruction::NthRow),
            40 => Some(Instruction::AppendTable),
            41 => Some(Instruction::PopTable),
            42 => Some(Instruction::Closure),
            43 => Some(Instruction::SetUpvalue),
            44 => Some(Instruction::ReadUpvalue),
            45 => Some(Instruction::RegisterUpvalue),
            46 => Some(Instruction::CloseUpvalue),
            _ => None,
        }
    }

    /// Returns the span of this instruction in bytecode: the opcode byte and its inline data.
    pub fn span(self) -> (r: usize)
        ensures
            r == 1 + data_span(self),
    {
        let data_span: usize = match self {
            Instruction::Add => 0,
            Instruction::Sub => 0,
            Instruction::Mul => 0,
            Instruction::Div => 0,
            Instruction::CallNative => 4,
            Instruction::ScalarInt => 8,
            Instruction::ScalarFloat => 8,
            Instruction::ScalarNil => 0,
            Instruction::StringLiteral => 4,
            Instruction::CopyLast => 0,
            Instruction::Exit => 0,
            Instruction::CallFunction => 0,
            Instruction::Equals => 0,
            Instruction::NotEquals => 0,
            Instruction::Less => 0,
            Instruction::LessOrEq => 0,
            Instruction::Pop => 0,
            Instruction::SetGlobalVar => 4,
            Instruction::ReadGlobalVar => 4,
            Instruction::SetLocalVar => 4,
            Instruction::ReadLocalVar => 4,
            Instruction::ClearStack => 0,
            Instruction::Return => 0,
            Instruction::SwapLast => 0,
            Instruction::And => 0,
            Instruction::Or => 0,
            Instruction::Xor => 0,
            Instruction::Not => 0,
            Instruction::Goto => 4,
            Instruction::GotoIfTrue => 4,
            Instruction::GotoIfFalse => 4,
            Instruction::InitTable => 0,
            Instruction::GetProperty => 0,
            Instruction::SetProperty => 0,
            Instruction::Len => 0,
            Instruction::BeginForEach => 8,
            Instruction::ForEach => 20,
            Instruction::FunctionPointer => 8,
            Instruction::NativeFunctionPointer => 4,
            Instruction::NthRow => 0,
            Instruction::AppendTable => 0,
            Instruction::PopTable => 0,
            Instruction::Closure => 8,
            Instruction::SetUpvalue => 4,
            Instruction::ReadUpvalue => 4,
            Instruction::RegisterUpvalue => 2,
            Instruction::CloseUpvalue => 0,
        };
        1 + data_span
    }
}

/// Decoding an instruction's opcode gives back the instruction.
pub proof fn lemma_opcode_roundtrip(i: Instruction)
    ensures
        opcode(i) < NUM_INSTRUCTIONS,
        forall|j: Instruction| opcode(j) == opcode(i) ==> j == i,
{
}

} // verus!
