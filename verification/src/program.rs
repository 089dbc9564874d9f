//! A compiled program: its bytecode and the tables that go with it.
use vstd::prelude::*;
use std::collections::HashMap;
use crate::collections::key_map::{Handle, KeyMap};
use crate::collections::fnv1a;
use crate::VariableId;
use vstd::string::StringSliceAdditionalSpecFns;

verus! {

/// The version of the language that compiled programs are tagged with.
pub const VERSION_MAJOR: u8 = 0;
/// The version of the language that compiled programs are tagged with.
pub const VERSION_MINOR: u8 = 1;
/// The version of the language that compiled programs are tagged with.
pub const VERSION_PATCH: u16 = 0;

/// Positions of the cards in the bytecode, by their handles.
#[derive(Debug, Default)]
pub struct Labels(pub KeyMap<Label>);

/// Variables of a program.
#[derive(Debug, Default)]
pub struct Variables {
    /// The ids of the variables, by the handles of their names.
    pub ids: KeyMap<VariableId>,
    /// The names of the variables, by their ids, for debugging.
    pub names: HashMap<VariableId, String>,
}

/// Position of a card in the bytecode of the program.
#[derive(Debug, Clone, Copy, Default, PartialEq, Eq)]
pub struct Label {
    pub pos: u32,
}

impl Label {
    /// The label of position `pos`.
    pub fn new(pos: u32) -> (r: Self)
        ensures
            r.pos == pos,
    {
        Label { pos }
    }
}

/// Identifies a card in the program.
#[derive(Debug, Clone, Copy, Default, PartialEq, Eq)]
pub struct TraceEntry {
    pub lane: i32,
    pub card: i32,
}

/// A compiled program.
#[derive(Debug)]
pub struct CaoProgram {
    /// Instructions.
    pub bytecode: Vec<u8>,
    /// Data used by instructions with inputs of variable length.
    pub data: Vec<u8>,
    pub labels: Labels,
    pub variables: Variables,
    pub cao_lang_version: (u8, u8, u16),
    pub trace: HashMap<usize, TraceEntry>,
}

impl CaoProgram {
    /// The tables of the program are well formed.
    pub open spec fn wf(&self) -> bool {
        &&& self.labels.0.wf()
        &&& self.variables.ids.wf()
    }

    /// The id of the variable named `name`: the id stored under the hash of the name.
    pub fn variable_id(&self, name: &str) -> (r: Option<VariableId>)
        requires
            self.wf(),
        ensures
            r is Some == self.variables.ids@.contains_key((fnv1a(name.spec_bytes()) as u32)),
            r matches Some(id) ==> id == self.variables.ids@[(fnv1a(name.spec_bytes()) as u32)],
    {
        let handle = Handle::from_bytes(name.as_bytes());
        match self.variables.ids.get(handle) {
            Some(id) => Some(*id),
            None => None,
        }
    }
}

impl Default for CaoProgram {
    /// An empty program of this version of the language.
    fn default() -> (r: Self)
        ensures
            r.wf(),
            r.bytecode@ == Seq::<u8>::empty(),
            r.data@ == Seq::<u8>::empty(),
            r.labels.0@ == Map::<u32, Label>::empty(),
            r.variables.ids@ == Map::<u32, VariableId>::empty(),
            r.cao_lang_version == (VERSION_MAJOR, VERSION_MINOR, VERSION_PATCH),
    {
        CaoProgram {
            bytecode: Vec::new(),
            data: Vec::new(),
            labels: Labels(KeyMap::default()),
            variables: Variables { ids: KeyMap::default(), names: HashMap::new() },
            cao_lang_version: (VERSION_MAJOR, VERSION_MINOR, VERSION_PATCH),
            trace: HashMap::new(),
        }
    }
}

} // verus!
