//! Errors of a compilation.
use vstd::prelude::*;
use super::module::CardIndex;

verus! {

/// Why a compilation failed.
#[derive(Debug, Clone, PartialEq, Eq)]
pub enum CompilationErrorPayload {
    /// The requested functionality is not yet implemented.
    Unimplemented(&'static str),
    /// The entry point was not found.
    NoMain,
    /// The program was empty.
    EmptyProgram,
    /// There are too many lanes.
    TooManyLanes,
    /// A lane has more than 65535 cards.
    TooManyCards(usize),
    /// Lane names must be unique; this one is not.
    DuplicateName(String),
    /// The named sub-program was not found.
    MissingSubProgram(String),
    /// The jump to the named lane can not be performed.
    InvalidJump { dst: String, msg: Option<String> },
    /// Internal failure of the compiler.
    InternalError,
    /// There are too many locals in scope.
    TooManyLocals,
    /// The variable name can not be used.
    BadVariableName(String),
    /// A variable name is empty.
    EmptyVariable,
    /// The name is not a valid lane name.
    BadLaneName(String),
    /// The recursion limit was reached.
    RecursionLimitReached(u32),
    /// The import is not valid.
    BadImport(String),
    /// There are too many `super.` calls.
    SuperLimitReached,
}

/// A failed compilation: why, and at which card.
#[derive(Debug, Clone)]
pub struct CompilationError {
    pub payload: CompilationErrorPayload,
    pub loc: Option<CardIndex>,
}

impl CompilationError {
    /// The error `payload` at the card `index`.
    pub fn with_loc(payload: CompilationErrorPayload, index: CardIndex) -> (r: Self)
        ensures
            r.payload == payload,
            r.loc == Some(index),
    {
        CompilationError { payload, loc: Some(index) }
    }
}

} // verus!
