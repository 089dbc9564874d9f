//! The output of the compiler: bytecode and the tables that go with it.
use vstd::prelude::*;
use vstd::string::StringSliceAdditionalSpecFns;
use crate::collections::fnv1a;
use crate::collections::hash_map::CaoHashMap;
use crate::collections::key_map::{Handle, KeyMap};
use crate::compiler::module::{index_text, CardIndex};
use crate::disassembly::{disassemble_positioned, positioned_listing, push_char, push_str, well_formed_from};
use crate::program::{Labels, Variables, VERSION_MAJOR, VERSION_MINOR, VERSION_PATCH};
use crate::VariableId;
use std::collections::HashMap;

verus! {

/// Where a card comes from: the namespace of its function and its index.
#[derive(Debug, Clone)]
pub struct Trace {
    pub namespace: Vec<String>,
    pub index: CardIndex,
}

/// The namespaces of a trace, each followed by `.`.
pub open spec fn namespace_text(namespace: Seq<String>) -> Seq<char>
    decreases namespace.len(),
{
    if namespace.len() == 0 {
        Seq::empty()
    } else {
        namespace_text(namespace.drop_last()) + namespace.last()@ + seq!['.']
    }
}

impl Trace {
    /// The trace as text: each namespace followed by `.`, then the card index.
    pub fn to_string(&self) -> (r: String)
        ensures
            r@ == namespace_text(self.namespace@) + index_text(
                self.index.function as nat,
                self.index.card_index.path(),
            ),
    {
        let mut s = String::new();
        let mut i: usize = 0;
        assert(self.namespace@.take(0) =~= Seq::<String>::empty());
        while i < self.namespace.len()
            invariant
                i <= self.namespace@.len(),
                s@ == namespace_text(self.namespace@.take(i as int)),
            decreases self.namespace@.len() - i,
        {
            push_str(&mut s, self.namespace[i].as_str());
            push_char(&mut s, '.');
            proof {
                assert(self.namespace@.take(i + 1).drop_last() =~= self.namespace@.take(i as int));
            }
            i = i + 1;
        }
        assert(self.namespace@.take(i as int) =~= self.namespace@);
        let idx = self.index.to_string();
        push_str(&mut s, idx.as_str());
        s
    }
}

/// A compiled program.
#[derive(Debug)]
pub struct CaoCompiledProgram {
    /// Instructions.
    pub bytecode: Vec<u8>,
    /// Data used by instructions with inputs of variable length.
    pub data: Vec<u8>,
    pub labels: Labels,
    pub variables: Variables,
    pub cao_lang_version: (u8, u8, u16),
    pub trace: CaoHashMap<u32, Trace>,
}

impl CaoCompiledProgram {
    /// The tables of the program are well formed.
    pub open spec fn wf(&self) -> bool {
        &&& self.labels.0.wf()
        &&& self.variables.ids.wf()
        &&& self.trace.wf()
    }

    /// The id of the variable named `name`: the id stored under the hash of the name.
    pub fn variable_id(&self, name: &str) -> (r: Option<VariableId>)
        requires
            self.wf(),
        ensures
            r is Some == self.variables.ids@.contains_key(fnv1a(name.spec_bytes()) as u32),
            r matches Some(id) ==> id == self.variables.ids@[fnv1a(name.spec_bytes()) as u32],
    {
        let handle = Handle::from_bytes(name.as_bytes());
        match self.variables.ids.get(handle) {
            Some(id) => Some(*id),
            None => None,
        }
    }

    /// Lists the instructions of the bytecode, one per line, each after its position and a
    /// tab. The bytecode holds whole instructions.
    pub fn disassemble(&self) -> (r: String)
        requires
            self.bytecode@.len() < usize::MAX - 32,
            well_formed_from(self.bytecode@, 0),
        ensures
            r@ == positioned_listing(self.bytecode@, 0),
    {
        disassemble_positioned(&self.bytecode)
    }
}

impl Default for CaoCompiledProgram {
    /// An empty program of this version of the language.
    fn default() -> (r: Self)
        ensures
            r.wf(),
            r.bytecode@ == Seq::<u8>::empty(),
            r.data@ == Seq::<u8>::empty(),
            r.labels.0@ == Map::<u32, crate::program::Label>::empty(),
            r.variables.ids@ == Map::<u32, VariableId>::empty(),
            r.cao_lang_version == (VERSION_MAJOR, VERSION_MINOR, VERSION_PATCH),
    {
        CaoCompiledProgram {
            bytecode: Vec::new(),
            data: Vec::new(),
            labels: Labels(KeyMap::default()),
            variables: Variables { ids: KeyMap::default(), names: HashMap::new() },
            cao_lang_version: (VERSION_MAJOR, VERSION_MINOR, VERSION_PATCH),
            trace: CaoHashMap::default(),
        }
    }
}

} // verus!
