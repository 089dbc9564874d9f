//! Core data structures of the Cao-Lang runtime and compiler.
use vstd::prelude::*;

pub mod allocator;
pub mod bytecode;
pub mod collections;
pub mod compiled_program;
pub mod disassembly;
pub mod instruction;
pub mod procedures;
pub mod program;
pub mod compiler;

verus! {

/// Identifier of a global variable in a compiled program.
#[derive(Debug, Clone, Copy, Hash, PartialEq, Eq, PartialOrd, Ord)]
pub struct VariableId(pub u32);

} // verus!
