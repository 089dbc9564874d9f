//! Options of a compilation.
use vstd::prelude::*;

verus! {

/// The recursion limit of [`CompileOptions::new`].
pub const DEFAULT_RECURSION_LIMIT: u32 = 64;

/// Options of a compilation.
#[derive(Debug, Clone)]
pub struct CompileOptions {
    /// How deep the tree of submodules may grow.
    pub recursion_limit: u32,
}

impl CompileOptions {
    /// The default options: a recursion limit of 64.
    pub fn new() -> (r: Self)
        ensures
            r.recursion_limit == DEFAULT_RECURSION_LIMIT,
    {
        CompileOptions { recursion_limit: DEFAULT_RECURSION_LIMIT }
    }
}

impl Default for CompileOptions {
    fn default() -> (r: Self)
        ensures
            r.recursion_limit == DEFAULT_RECURSION_LIMIT,
    {
        Self::new()
    }
}

} // verus!
