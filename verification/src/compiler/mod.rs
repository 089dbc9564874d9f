//! The program representation that the compiler reads, what a compilation reports, and the
//! state of a compilation: the bytecode written so far and the local variables in scope.
pub mod card;
pub mod card_description;
pub mod compilation_error;
pub mod compile_options;
pub mod imports;
pub mod module;
pub mod codegen;

use vstd::prelude::*;
use vstd::string::StringSliceAdditionalSpecFns;
use crate::bytecode::{encode_str, str_encoding, write_to_vec, TriviallyEncodable};
use crate::collections::hash_map::bytes_eq;
use crate::compiled_program::CaoCompiledProgram;
use crate::instruction::{opcode, Instruction};
use crate::VariableId;
use crate::collections::key_map::Handle;
use compilation_error::{CompilationError, CompilationErrorPayload};
use module::CardIndex;

verus! {

/// Most local variables a compilation holds in scope at once.
pub const MAX_LOCALS: usize = 255;

/// A local variable during compilation: its name and the depth of the scope that declared it.
#[derive(Debug, Clone, Copy)]
pub struct Local<'a> {
    pub name: &'a str,
    pub depth: i32,
}

/// The locals are declared in scopes of nondecreasing depth, none deeper than `depth`.
pub open spec fn locals_ordered(locals: Seq<Local>, depth: int) -> bool {
    &&& forall|i: int, j: int|
        0 <= i <= j < locals.len() ==> #[trigger] locals[i].depth <= #[trigger] locals[j].depth
    &&& forall|i: int| 0 <= i < locals.len() ==> #[trigger] locals[i].depth <= depth
}

/// The index of the innermost local named by the UTF-8 bytes `name`, if any.
pub open spec fn last_local_named(locals: Seq<Local>, name: Seq<u8>) -> Option<usize>
    decreases locals.len(),
{
    if locals.len() == 0 {
        None
    } else if locals.last().name.spec_bytes() == name {
        Some((locals.len() - 1) as usize)
    } else {
        last_local_named(locals.drop_last(), name)
    }
}

/// The locals as plain values: the UTF-8 bytes of each name and the depth of its scope.
pub open spec fn local_view(locals: Seq<Local>) -> Seq<(Seq<u8>, int)> {
    locals.map_values(|l: Local| (l.name.spec_bytes(), l.depth as int))
}

/// The locals that stay in scope when the scopes deeper than `depth` close: the locals up to
/// the first one declared deeper than it.
pub open spec fn drop_deeper(locals: Seq<(Seq<u8>, int)>, depth: int) -> Seq<(Seq<u8>, int)>
    decreases locals.len(),
{
    if locals.len() > 0 && locals.last().1 > depth {
        drop_deeper(locals.drop_last(), depth)
    } else {
        locals
    }
}

/// `a` and `b` index the same card.
pub open spec fn same_index(a: CardIndex, b: CardIndex) -> bool {
    a.function == b.function && a.card_index.path() == b.card_index.path()
}

/// `e` reports `payload` at the card `index`.
pub open spec fn reported_at(
    e: CompilationError,
    payload: CompilationErrorPayload,
    index: CardIndex,
) -> bool {
    &&& e.payload == payload
    &&& e.loc matches Some(l) && same_index(l, index)
}

/// `b` is `a` with a scope opened: one level deeper, with the same locals.
pub open spec fn opened_scope(a: Compiler, b: Compiler) -> bool {
    &&& b.depth() == a.depth() + 1
    &&& b.locals() == a.locals()
}

/// `b` is `a` with its scope closed: one level shallower, keeping the locals up to the first
/// one declared deeper than that.
pub open spec fn closed_scope(a: Compiler, b: Compiler) -> bool {
    &&& b.depth() == a.depth() - 1
    &&& b.locals().len() <= a.locals().len()
    &&& b.locals() == a.locals().take(b.locals().len() as int)
    &&& forall|i: int| 0 <= i < b.locals().len() ==> #[trigger] b.locals()[i].depth <= b.depth()
    &&& b.locals().len() < a.locals().len() ==> a.locals()[b.locals().len() as int].depth
        > b.depth()
}

/// What a call needs to know of a function: its handle and its number of arguments.
#[derive(Debug, Clone, Copy)]
pub struct FunctionMeta {
    pub hash_key: Handle,
    pub arity: u32,
}

/// `a` and `b` have the same global variables and see the same functions.
pub open spec fn same_tables(a: Compiler, b: Compiler) -> bool {
    &&& b.next_var == a.next_var
    &&& b.globals@ == a.globals@
    &&& b.functions@ == a.functions@
    &&& b.namespace@ == a.namespace@
}

/// The state of a compilation.
pub struct Compiler<'a> {
    /// The program written so far.
    pub program: CaoCompiledProgram,
    /// The id the next global variable gets.
    pub next_var: VariableId,
    /// The names of the global variables, by their ids.
    pub globals: Vec<&'a [u8]>,
    /// The functions that calls can reach, by their full names.
    pub functions: Vec<(String, FunctionMeta)>,
    /// The namespace of the function being compiled, outermost first.
    pub namespace: Vec<String>,
    /// The card being compiled.
    pub current_index: CardIndex,
    /// The local variables in scope, the outermost first.
    pub locals: Vec<Local<'a>>,
    /// The depth of the current scope.
    pub scope_depth: i32,
}

impl<'a> Compiler<'a> {
    /// The local variables in scope, the outermost first.
    pub open spec fn locals(&self) -> Seq<Local<'a>> {
        self.locals@
    }

    /// The depth of the current scope.
    pub open spec fn depth(&self) -> int {
        self.scope_depth as int
    }

    /// The locals fit their table and are ordered by the depth of their scopes.
    pub open spec fn wf(&self) -> bool {
        &&& self.globals@.len() < u32::MAX
        &&& self.next_var.0 == self.globals@.len()
        &&& self.locals().len() <= MAX_LOCALS
        &&& locals_ordered(self.locals(), self.depth())
    }

    /// A compiler with an empty program, no locals, at depth 0.
    pub fn new() -> (r: Self)
        ensures
            r.wf(),
            r.program.wf(),
            r.program.bytecode@ == Seq::<u8>::empty(),
            r.program.data@ == Seq::<u8>::empty(),
            r.next_var == VariableId(0),
            r.globals@.len() == 0,
            r.functions@.len() == 0,
            r.namespace@.len() == 0,
            r.locals() == Seq::<Local>::empty(),
            r.depth() == 0,
            r.current_index.function == 0,
            r.current_index.card_index.path() == Seq::<u32>::empty(),
    {
        Compiler {
            program: CaoCompiledProgram::default(),
            next_var: VariableId(0),
            globals: Vec::new(),
            functions: Vec::new(),
            namespace: Vec::new(),
            current_index: CardIndex::function(0),
            locals: Vec::new(),
            scope_depth: 0,
        }
    }

    /// The error `pl` at the card being compiled.
    pub fn error(&self, pl: CompilationErrorPayload) -> (r: CompilationError)
        ensures
            reported_at(r, pl, self.current_index),
    {
        CompilationError::with_loc(pl, self.current_index.clone())
    }

    /// Opens a scope one level deeper.
    pub fn scope_begin(&mut self)
        requires
            old(self).wf(),
            old(self).depth() < i32::MAX,
        ensures
            final(self).wf(),
            opened_scope(*old(self), *final(self)),
            final(self).program == old(self).program,
            same_tables(*old(self), *final(self)),
            final(self).current_index == old(self).current_index,
    {
        self.scope_depth = self.scope_depth + 1;
    }

    /// Closes the current scope: drops the locals that were declared deeper than the scope it
    /// returns to, and keeps the others.
    pub fn scope_end(&mut self)
        requires
            old(self).wf(),
            old(self).depth() > i32::MIN,
        ensures
            final(self).wf(),
            closed_scope(*old(self), *final(self)),
            local_view(final(self).locals()) == drop_deeper(
                local_view(old(self).locals()),
                old(self).depth() - 1,
            ),
            final(self).program == old(self).program,
            same_tables(*old(self), *final(self)),
            final(self).current_index == old(self).current_index,
    {
        self.scope_depth = self.scope_depth - 1;
        let ghost old_locals = self.locals@;
        let ghost program = self.program;
        let ghost snap = *self;
        let ghost current_index = self.current_index;
        let ghost depth = self.scope_depth;
        while self.locals.len() > 0 && self.locals[self.locals.len() - 1].depth > self.scope_depth
            invariant
                self.program == program,
                same_tables(snap, *self),
                self.current_index == current_index,
                self.scope_depth == depth,
                self.locals@.len() <= old_locals.len(),
                self.locals@ == old_locals.take(self.locals@.len() as int),
                old_locals.len() <= MAX_LOCALS,
                locals_ordered(old_locals, self.scope_depth + 1),
                drop_deeper(local_view(old_locals), depth as int) == drop_deeper(
                    local_view(self.locals@),
                    depth as int,
                ),
                self.locals@.len() < old_locals.len() ==> old_locals[self.locals@.len() as int].depth
                    > self.scope_depth,
            decreases self.locals@.len(),
        {
            proof {
                assert(local_view(self.locals@).drop_last() =~= local_view(self.locals@.drop_last()));
            }
            self.locals.pop();
        }
        proof {
            let n = self.locals@.len() as int;
            assert forall|i: int| 0 <= i < n implies #[trigger] self.locals@[i].depth
                <= self.scope_depth by {
                assert(self.locals@[i] == old_locals[i]);
                if n > 0 {
                    assert(self.locals@[n - 1] == old_locals[n - 1]);
                    assert(old_locals[i].depth <= old_locals[n - 1].depth);
                }
            }
        }
    }

    /// Fails with [`CompilationErrorPayload::EmptyVariable`] on an empty name.
    pub fn validate_var_name(&self, name: &str) -> (r: Result<(), CompilationError>)
        ensures
            r is Err == (name.spec_bytes().len() == 0),
            r matches Err(e) ==> reported_at(e, CompilationErrorPayload::EmptyVariable, self.current_index),
    {
        if name.as_bytes().len() == 0 {
            return Err(self.error(CompilationErrorPayload::EmptyVariable));
        }
        Ok(())
    }

    /// Declares a local in the current scope, whatever its name, and returns its index; fails
    /// with [`CompilationErrorPayload::TooManyLocals`] when the table of locals is full.
    pub fn add_local_unchecked(&mut self, name: &'a str) -> (r: Result<u32, CompilationError>)
        requires
            old(self).wf(),
        ensures
            final(self).wf(),
            final(self).depth() == old(self).depth(),
            final(self).program == old(self).program,
            same_tables(*old(self), *final(self)),
            final(self).current_index == old(self).current_index,
            r is Ok == (old(self).locals().len() < MAX_LOCALS),
            r matches Ok(i) ==> i == old(self).locals().len()
                && final(self).locals() == old(self).locals().push(
                    (Local { name, depth: old(self).depth() as i32 }),
                ),
            r matches Err(e) ==> reported_at(e, CompilationErrorPayload::TooManyLocals, old(self).current_index)
                && final(self).locals() == old(self).locals(),
    {
        let result = self.locals.len();
        if result >= MAX_LOCALS {
            return Err(self.error(CompilationErrorPayload::TooManyLocals));
        }
        self.locals.push(Local { name, depth: self.scope_depth });
        Ok(result as u32)
    }

    /// Declares a local named `name` in the current scope and returns its index; fails on an
    /// empty name, or when the table of locals is full.
    pub fn add_local(&mut self, name: &'a str) -> (r: Result<u32, CompilationError>)
        requires
            old(self).wf(),
        ensures
            final(self).wf(),
            final(self).depth() == old(self).depth(),
            final(self).program == old(self).program,
            same_tables(*old(self), *final(self)),
            final(self).current_index == old(self).current_index,
            r is Ok == (name.spec_bytes().len() > 0 && old(self).locals().len() < MAX_LOCALS),
            r matches Ok(i) ==> i == old(self).locals().len()
                && final(self).locals() == old(self).locals().push(
                    (Local { name, depth: old(self).depth() as i32 }),
                ),
            r matches Err(e) ==> final(self).locals() == old(self).locals() && (if name.spec_bytes().len()
                == 0 {
                reported_at(e, CompilationErrorPayload::EmptyVariable, old(self).current_index)
            } else {
                reported_at(e, CompilationErrorPayload::TooManyLocals, old(self).current_index)
            }),
    {
        match self.validate_var_name(name) {
            Err(e) => return Err(e),
            Ok(()) => {},
        }
        self.add_local_unchecked(name)
    }

    /// The index of the innermost local named `name`, `None` when no local has that name; fails
    /// on an empty name.
    pub fn resolve_var(&self, name: &str) -> (r: Result<Option<usize>, CompilationError>)
        ensures
            r is Err == (name.spec_bytes().len() == 0),
            r matches Err(e) ==> reported_at(e, CompilationErrorPayload::EmptyVariable, self.current_index),
            r matches Ok(o) ==> o == last_local_named(self.locals(), name.spec_bytes()),
    {
        match self.validate_var_name(name) {
            Err(e) => return Err(e),
            Ok(()) => {},
        }
        let ghost all = self.locals@;
        let ghost key = name.spec_bytes();
        let mut i = self.locals.len();
        assert(all.take(i as int) =~= all);
        while i > 0
            invariant
                i <= all.len(),
                all == self.locals@,
                key == name.spec_bytes(),
                key.len() > 0,
                last_local_named(all, key) == last_local_named(all.take(i as int), key),
            decreases i,
        {
            let ghost prefix = all.take(i as int);
            assert(prefix.drop_last() =~= all.take(i - 1));
            i = i - 1;
            if bytes_eq(self.locals[i].name.as_bytes(), name.as_bytes()) {
                assert(prefix.len() == i + 1);
                assert(prefix.last() == all[i as int]);
                assert(all[i as int].name.spec_bytes() == key);
                assert(last_local_named(prefix, key) == Some(i));
                return Ok(Some(i));
            }
        }
        assert(all.take(0) =~= Seq::<Local>::empty());
        Ok(None)
    }

    /// Appends the byte of `instruction` to the bytecode.
    pub fn push_instruction(&mut self, instruction: Instruction)
        ensures
            final(self).program.bytecode@ == old(self).program.bytecode@.push(opcode(instruction)),
            final(self).program.data == old(self).program.data,
            final(self).locals() == old(self).locals(),
            final(self).depth() == old(self).depth(),
            same_tables(*old(self), *final(self)),
            final(self).current_index == old(self).current_index,
    {
        self.program.bytecode.push(instruction.as_u8());
    }

    /// Writes the instruction that reads local `index`.
    pub fn read_local_var(&mut self, index: u32)
        ensures
            final(self).program.bytecode@ == old(self).program.bytecode@.push(
                opcode(Instruction::ReadLocalVar),
            ) + index.encoding(),
            final(self).program.data == old(self).program.data,
            final(self).locals() == old(self).locals(),
            final(self).depth() == old(self).depth(),
            same_tables(*old(self), *final(self)),
            final(self).current_index == old(self).current_index,
    {
        self.push_instruction(Instruction::ReadLocalVar);
        write_to_vec(index, &mut self.program.bytecode);
    }

    /// Writes the instruction that stores into local `index`.
    pub fn write_local_var(&mut self, index: u32)
        ensures
            final(self).program.bytecode@ == old(self).program.bytecode@.push(
                opcode(Instruction::SetLocalVar),
            ) + index.encoding(),
            final(self).program.data == old(self).program.data,
            final(self).locals() == old(self).locals(),
            final(self).depth() == old(self).depth(),
            same_tables(*old(self), *final(self)),
            final(self).current_index == old(self).current_index,
    {
        self.push_instruction(Instruction::SetLocalVar);
        write_to_vec(index, &mut self.program.bytecode);
    }

    /// Writes `data` to the data of the program, and its position there to the bytecode.
    pub fn push_str(&mut self, data: &str)
        requires
            data.spec_bytes().len() <= u32::MAX,
        ensures
            final(self).program.bytecode@ == old(self).program.bytecode@ + (
            old(self).program.data@.len() as u32).encoding(),
            final(self).program.data@ == old(self).program.data@ + str_encoding(data.spec_bytes()),
            final(self).locals() == old(self).locals(),
            final(self).depth() == old(self).depth(),
            same_tables(*old(self), *final(self)),
            final(self).current_index == old(self).current_index,
    {
        let handle = self.program.data.len() as u32;
        write_to_vec(handle, &mut self.program.bytecode);
        encode_str(data, &mut self.program.data);
    }

    /// Starts a block that the instruction `skip_instr` jumps over: writes the instruction and
    /// a placeholder for the position after the block, and returns where the placeholder
    /// stands.
    pub fn begin_skip(&mut self, skip_instr: Instruction) -> (r: usize)
        requires
            skip_instr is GotoIfTrue || skip_instr is GotoIfFalse,
        ensures
            r == old(self).program.bytecode@.len() + 1,
            final(self).program.bytecode@ == old(self).program.bytecode@.push(opcode(skip_instr))
                + 0i32.encoding(),
            final(self).program.data == old(self).program.data,
            final(self).locals() == old(self).locals(),
            final(self).depth() == old(self).depth(),
            same_tables(*old(self), *final(self)),
            final(self).current_index == old(self).current_index,
    {
        self.push_instruction(skip_instr);
        let idx = self.program.bytecode.len();
        write_to_vec(0i32, &mut self.program.bytecode);
        idx
    }

    /// Ends a block: points the placeholder at `idx` to the end of the bytecode.
    pub fn end_skip(&mut self, idx: usize)
        requires
            idx + 4 <= old(self).program.bytecode@.len(),
        ensures
            final(self).program.bytecode@ == old(self).program.bytecode@.take(idx as int) + (
            old(self).program.bytecode@.len() as i32).encoding() + old(self).program.bytecode@.skip(
                idx + 4,
            ),
            <i32 as TriviallyEncodable>::from_encoding(
                final(self).program.bytecode@.subrange(idx as int, idx + 4),
            ) == old(self).program.bytecode@.len() as i32,
            final(self).program.data == old(self).program.data,
            final(self).locals() == old(self).locals(),
            final(self).depth() == old(self).depth(),
            same_tables(*old(self), *final(self)),
            final(self).current_index == old(self).current_index,
    {
        let pos = self.program.bytecode.len() as i32;
        let mut bytes: Vec<u8> = Vec::new();
        write_to_vec(pos, &mut bytes);
        let ghost before = self.program.bytecode@;
        let ghost data = self.program.data;
        let ghost locals = self.locals;
        let ghost depth = self.scope_depth;
        let ghost snap = *self;
        let ghost current_index = self.current_index;
        let mut k: usize = 0;
        while k < 4
            invariant
                self.program.data == data,
                self.locals == locals,
                self.scope_depth == depth,
                same_tables(snap, *self),
                self.current_index == current_index,
                before.len() <= usize::MAX,
                k <= 4,
                bytes@ == pos.encoding(),
                bytes@.len() == 4,
                idx + 4 <= before.len(),
                self.program.bytecode@.len() == before.len(),
                forall|j: int| 0 <= j < idx ==> #[trigger] self.program.bytecode@[j] == before[j],
                forall|j: int| idx + 4 <= j < before.len() ==> #[trigger] self.program.bytecode@[j] == before[j],
                forall|j: int| 0 <= j < k ==> #[trigger] self.program.bytecode@[idx + j] == bytes@[j],
                forall|j: int| k <= j < 4 ==> #[trigger] self.program.bytecode@[idx + j] == before[idx + j],
            decreases 4 - k,
        {
            let b = bytes[k];
            self.program.bytecode.set(idx + k, b);
            k = k + 1;
        }
        proof {
            let expect = before.take(idx as int) + pos.encoding() + before.skip(idx + 4);
            assert forall|j: int| 0 <= j < before.len() implies #[trigger] self.program.bytecode@[j]
                == expect[j] by {
                if idx <= j < idx + 4 {
                    assert(self.program.bytecode@[idx + (j - idx)] == bytes@[j - idx]);
                }
            }
            assert(self.program.bytecode@ =~= expect);
            assert(self.program.bytecode@.subrange(idx as int, idx + 4) =~= pos.encoding());
            <i32 as TriviallyEncodable>::lemma_roundtrip(pos);
        }
    }
}

/// Closing a scope drops exactly the locals declared since it was opened: starting from a
/// well formed compiler `c0`, opening a scope (`c1`), declaring any locals in it (`c2`) and
/// closing it (`c3`) gives back the locals and the depth of `c0`.
pub proof fn lemma_scope_drops_its_locals(c0: Compiler, c1: Compiler, c2: Compiler, c3: Compiler)
    requires
        c0.wf(),
        opened_scope(c0, c1),
        c2.depth() == c1.depth(),
        c2.locals().len() >= c1.locals().len(),
        c2.locals().take(c1.locals().len() as int) == c1.locals(),
        forall|i: int|
            c1.locals().len() <= i < c2.locals().len() ==> #[trigger] c2.locals()[i].depth
                == c1.depth(),
        closed_scope(c2, c3),
    ensures
        c3.locals() == c0.locals(),
        c3.depth() == c0.depth(),
{
    let n0 = c0.locals().len() as int;
    let n3 = c3.locals().len() as int;
    assert forall|i: int| 0 <= i < n0 implies #[trigger] c2.locals()[i] == c0.locals()[i] by {
        assert(c2.locals().take(n0)[i] == c2.locals()[i]);
    }
    assert forall|i: int| 0 <= i < n3 implies #[trigger] c3.locals()[i] == c2.locals()[i] by {
        assert(c2.locals().take(n3)[i] == c2.locals()[i]);
    }
    if n3 < n0 {
        assert(c2.locals()[n3] == c0.locals()[n3]);
        assert(c0.locals()[n3].depth <= c0.depth());
        assert(false);
    }
    if n3 > n0 {
        assert(c3.locals()[n0] == c2.locals()[n0]);
        assert(c2.locals()[n0].depth == c1.depth());
        assert(c3.locals()[n0].depth <= c3.depth());
        assert(false);
    }
    assert(c3.locals() =~= c0.locals());
}

/// A name resolves to the local declared last: after a local named `l.name` is pushed onto
/// `locals`, resolving that name gives its index.
pub proof fn lemma_resolve_finds_last_added(locals: Seq<Local>, l: Local)
    ensures
        last_local_named(locals.push(l), l.name.spec_bytes()) == Some(locals.len() as usize),
{
    assert(locals.push(l).last() == l);
}

impl<'a> Default for Compiler<'a> {
    /// A compiler with an empty program, no locals, at depth 0.
    fn default() -> (r: Self)
        ensures
            r.wf(),
            r.program.bytecode@ == Seq::<u8>::empty(),
            r.locals() == Seq::<Local>::empty(),
            r.depth() == 0,
    {
        Self::new()
    }
}

} // verus!
