//! Errors of a program's execution.
use vstd::prelude::*;
use crate::collections::key_map::Handle;
use crate::disassembly::{decimal, push_char, push_decimal_usize, push_str};

verus! {

/// Why an execution failed.
#[derive(Debug, PartialEq, Eq)]
pub enum ExecutionErrorPayload {
    /// The program overflowed its call stack.
    CallStackOverflow,
    /// The input ended unexpectedly.
    UnexpectedEndOfInput,
    /// The program exited with a status code.
    ExitCode(i32),
    /// An instruction code was not valid.
    InvalidInstruction(u8),
    /// An argument was not valid.
    InvalidArgument { context: Option<String> },
    /// The variable was not found.
    VarNotFound(String),
    /// No procedure has the hash.
    ProcedureNotFound(Handle),
    /// Not implemented.
    Unimplemented,
    /// The program ran out of memory.
    OutOfMemory,
    /// An argument of a function call was missing.
    MissingArgument,
    /// The program timed out.
    Timeout,
    /// A subtask failed.
    TaskFailure { name: String, error: Box<ExecutionErrorPayload> },
    /// The program overflowed its stack.
    Stackoverflow,
    /// Returning from a lane failed.
    BadReturn { reason: String },
    /// An object that can not be hashed was hashed.
    Unhashable,
    /// An assertion failed.
    AssertionError(String),
    /// A closure requested an upvalue that does not exist.
    InvalidUpvalue,
    /// A closure was expected.
    NotClosure,
}

impl ExecutionErrorPayload {
    /// An invalid argument error with `reason` as its context.
    pub fn invalid_argument(reason: String) -> (r: Self)
        ensures
            r == (ExecutionErrorPayload::InvalidArgument { context: Some(reason) }),
    {
        ExecutionErrorPayload::InvalidArgument { context: Some(reason) }
    }
}

/// The decimal text of `n`, with a `-` before it when it is negative.
pub open spec fn signed_decimal(n: int) -> Seq<char> {
    if n < 0 {
        seq!['-'] + decimal((-n) as nat)
    } else {
        decimal(n as nat)
    }
}

/// The text that describes an execution error.
pub open spec fn spec_message(e: ExecutionErrorPayload) -> Seq<char>
    decreases e,
{
    match e {
        ExecutionErrorPayload::CallStackOverflow => "The program has overflown its call stack"@,
        ExecutionErrorPayload::UnexpectedEndOfInput => "Input ended unexpectedly"@,
        ExecutionErrorPayload::ExitCode(c) => "Program exited with status code: "@ + signed_decimal(c as int),
        ExecutionErrorPayload::InvalidInstruction(b) => "Got an invalid instruction code "@ + decimal(b as nat),
        ExecutionErrorPayload::InvalidArgument { context } => "Got an invalid argument: "@ + match context {
            Some(c) => c@,
            None => Seq::empty(),
        },
        ExecutionErrorPayload::VarNotFound(v) => "Variable "@ + v@ + " was not found!"@,
        ExecutionErrorPayload::ProcedureNotFound(h) => "Procedure by the hash Handle("@ + decimal(h.0 as nat)
            + ") could not be found"@,
        ExecutionErrorPayload::Unimplemented => "Unimplemented"@,
        ExecutionErrorPayload::OutOfMemory => "The program ran out of memory"@,
        ExecutionErrorPayload::MissingArgument => "Missing argument to function call"@,
        ExecutionErrorPayload::Timeout => "Program timed out"@,
        ExecutionErrorPayload::TaskFailure { name, error } => "Subtask ["@ + name@ + "] failed "@
            + spec_message(*error),
        ExecutionErrorPayload::Stackoverflow => "The program has overflowns its stack"@,
        ExecutionErrorPayload::BadReturn { reason } => "Failed to return from a lane "@ + reason@,
        ExecutionErrorPayload::Unhashable => "Trying to hash an unhashable object"@,
        ExecutionErrorPayload::AssertionError(a) => "Assertion failed: "@ + a@,
        ExecutionErrorPayload::InvalidUpvalue => "Closure requested a non-existent upvalue"@,
        ExecutionErrorPayload::NotClosure => "Expected to be in the context of a closure"@,
    }
}

impl ExecutionErrorPayload {
    /// Appends the text that describes the error to `s`.
    fn write_message(&self, s: &mut String)
        ensures
            final(s)@ == old(s)@ + spec_message(*self),
        decreases self,
    {
        let ghost s0 = s@;
        match self {
            ExecutionErrorPayload::CallStackOverflow => push_str(s, "The program has overflown its call stack"),
            ExecutionErrorPayload::UnexpectedEndOfInput => push_str(s, "Input ended unexpectedly"),
            ExecutionErrorPayload::ExitCode(c) => {
                push_str(s, "Program exited with status code: ");
                let v = *c as i64;
                if v < 0 {
                    push_char(s, '-');
                    push_decimal_usize(s, (-v) as usize);
                } else {
                    push_decimal_usize(s, v as usize);
                }
            },
            ExecutionErrorPayload::InvalidInstruction(b) => {
                push_str(s, "Got an invalid instruction code ");
                push_decimal_usize(s, *b as usize);
            },
            ExecutionErrorPayload::InvalidArgument { context } => {
                push_str(s, "Got an invalid argument: ");
                match context {
                    Some(c) => push_str(s, c.as_str()),
                    None => {},
                }
            },
            ExecutionErrorPayload::VarNotFound(v) => {
                push_str(s, "Variable ");
                push_str(s, v.as_str());
                push_str(s, " was not found!");
            },
            ExecutionErrorPayload::ProcedureNotFound(h) => {
                push_str(s, "Procedure by the hash Handle(");
                push_decimal_usize(s, h.0 as usize);
                push_str(s, ") could not be found");
            },
            ExecutionErrorPayload::Unimplemented => push_str(s, "Unimplemented"),
            ExecutionErrorPayload::OutOfMemory => push_str(s, "The program ran out of memory"),
            ExecutionErrorPayload::MissingArgument => push_str(s, "Missing argument to function call"),
            ExecutionErrorPayload::Timeout => push_str(s, "Program timed out"),
            ExecutionErrorPayload::TaskFailure { name, error } => {
                push_str(s, "Subtask [");
                push_str(s, name.as_str());
                push_str(s, "] failed ");
                error.write_message(s);
            },
            ExecutionErrorPayload::Stackoverflow => push_str(s, "The program has overflowns its stack"),
            ExecutionErrorPayload::BadReturn { reason } => {
                push_str(s, "Failed to return from a lane ");
                push_str(s, reason.as_str());
            },
            ExecutionErrorPayload::Unhashable => push_str(s, "Trying to hash an unhashable object"),
            ExecutionErrorPayload::AssertionError(a) => {
                push_str(s, "Assertion failed: ");
                push_str(s, a.as_str());
            },
            ExecutionErrorPayload::InvalidUpvalue => push_str(s, "Closure requested a non-existent upvalue"),
            ExecutionErrorPayload::NotClosure => push_str(s, "Expected to be in the context of a closure"),
        }
        proof {
            assert(s@ =~= s0 + spec_message(*self));
        }
    }

    /// The text that describes the error.
    pub fn message(&self) -> (r: String)
        ensures
            r@ == spec_message(*self),
    {
        let mut s = String::new();
        self.write_message(&mut s);
        assert(s@ =~= spec_message(*self));
        s
    }
}

} // verus!
