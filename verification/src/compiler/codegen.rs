//! Compiling cards into bytecode.
//!
//! The translation is stated by [`process`]: from what a compilation has written so far, the
//! functions it can call and a card, the bytecode, data, locals and globals after the card,
//! or the error the card raises. [`Compiler::process_card`] carries it out.
use vstd::prelude::*;
use vstd::string::StringSliceAdditionalSpecFns;
use vstd::utf8::encode_utf8;
use vstd::slice::slice_subrange;
use crate::bytecode::{str_encoding, write_to_vec, TriviallyEncodable};
use crate::collections::fnv1a;
use crate::collections::hash_map::bytes_eq;
use crate::collections::key_map::Handle;
use crate::instruction::{data_span, opcode, Instruction};
use super::card::{Card, CardBody};
use super::compilation_error::{CompilationError, CompilationErrorPayload};
use super::{drop_deeper, local_view, Compiler, FunctionMeta, MAX_LOCALS};

verus! {

/// How deeply nested cards may be; deeper cards fail with
/// [`CompilationErrorPayload::RecursionLimitReached`].
pub const MAX_CARD_DEPTH: u32 = 0x10_0000;

/// What a compilation has written and keeps in scope, as plain values.
pub struct Emit {
    /// The bytecode.
    pub code: Seq<u8>,
    /// The data of the program.
    pub data: Seq<u8>,
    /// The locals in scope: the UTF-8 bytes of each name and the depth of its scope.
    pub locals: Seq<(Seq<u8>, int)>,
    /// The depth of the current scope.
    pub depth: int,
    /// The names of the global variables, by id.
    pub globals: Seq<Seq<u8>>,
}

/// What a compilation reads: the functions it can call, by full name with their handles and
/// arities, and the namespace of the function being compiled.
pub struct Context {
    pub functions: Seq<(Seq<u8>, Handle, u32)>,
    pub namespace: Seq<Seq<u8>>,
}

/// The UTF-8 bytes of a string.
pub open spec fn text_bytes(s: String) -> Seq<u8> {
    encode_utf8(s@)
}

/// The byte `.`.
pub open spec fn dot() -> u8 {
    0x2eu8
}

/// `e` with instruction `i` written.
pub open spec fn op(e: Emit, i: Instruction) -> Emit {
    Emit { code: e.code.push(opcode(i)), ..e }
}

/// `e` with `bytes` written.
pub open spec fn put(e: Emit, bytes: Seq<u8>) -> Emit {
    Emit { code: e.code + bytes, ..e }
}

/// `e` with the text `t` appended to the data, and its position there written.
pub open spec fn text(e: Emit, t: Seq<u8>) -> Emit {
    Emit { code: e.code + (e.data.len() as u32).encoding(), data: e.data + str_encoding(t), ..e }
}

/// `e` with the instruction that reads local `i`.
pub open spec fn read_local(e: Emit, i: u32) -> Emit {
    put(op(e, Instruction::ReadLocalVar), i.encoding())
}

/// `e` with the instruction that stores into local `i`.
pub open spec fn write_local(e: Emit, i: u32) -> Emit {
    put(op(e, Instruction::SetLocalVar), i.encoding())
}

/// `e` with the jump `i` and a placeholder for its target.
pub open spec fn skip_over(e: Emit, i: Instruction) -> Emit {
    put(op(e, i), 0i32.encoding())
}

/// `e` with the four bytes at `idx` replaced by the length of the bytecode.
pub open spec fn patch(e: Emit, idx: nat) -> Emit {
    Emit {
        code: e.code.take(idx as int) + (e.code.len() as i32).encoding() + e.code.skip(idx as int + 4),
        ..e
    }
}

/// `e` one scope deeper.
pub open spec fn open_scope(e: Emit) -> Emit {
    Emit { depth: e.depth + 1, ..e }
}

/// `e` with its scope closed and the locals declared in it dropped.
pub open spec fn close_scope(e: Emit) -> Emit {
    Emit { depth: e.depth - 1, locals: drop_deeper(e.locals, e.depth - 1), ..e }
}

/// Declares a local named `name` in the current scope: the new state and the local's index,
/// or [`CompilationErrorPayload::TooManyLocals`].
pub open spec fn declare(e: Emit, name: Seq<u8>) -> Result<(Emit, u32), CompilationErrorPayload> {
    if e.locals.len() >= MAX_LOCALS {
        Err(CompilationErrorPayload::TooManyLocals)
    } else {
        Ok((Emit { locals: e.locals.push((name, e.depth)), ..e }, e.locals.len() as u32))
    }
}

/// Declares a local named `name`, which may not be empty.
pub open spec fn declare_named(e: Emit, name: Seq<u8>) -> Result<(Emit, u32), CompilationErrorPayload> {
    if name.len() == 0 {
        Err(CompilationErrorPayload::EmptyVariable)
    } else {
        declare(e, name)
    }
}

/// Declares the named local, or an unnamed one.
pub open spec fn declare_opt(e: Emit, name: Option<String>) -> Result<(Emit, u32), CompilationErrorPayload> {
    match name {
        Some(s) => declare_named(e, text_bytes(s)),
        None => declare(e, Seq::empty()),
    }
}

/// The index of the innermost local named `name`.
pub open spec fn find_local(locals: Seq<(Seq<u8>, int)>, name: Seq<u8>) -> Option<int>
    decreases locals.len(),
{
    if locals.len() == 0 {
        None
    } else if locals.last().0 == name {
        Some(locals.len() - 1)
    } else {
        find_local(locals.drop_last(), name)
    }
}

/// The id of the global named `name`.
pub open spec fn find_global(globals: Seq<Seq<u8>>, name: Seq<u8>) -> Option<int>
    decreases globals.len(),
{
    if globals.len() == 0 {
        None
    } else if globals.last() == name {
        Some(globals.len() - 1)
    } else {
        find_global(globals.drop_last(), name)
    }
}

/// The id of the global named `name`; a name seen for the first time gets the next id.
pub open spec fn global_id(e: Emit, name: Seq<u8>) -> Result<(Emit, u32), CompilationErrorPayload> {
    match find_global(e.globals, name) {
        Some(i) => Ok((e, i as u32)),
        None => if e.globals.len() + 1 >= u32::MAX {
            Err(CompilationErrorPayload::InternalError)
        } else {
            Ok((Emit { globals: e.globals.push(name), ..e }, e.globals.len() as u32))
        },
    }
}

/// `k` is the position of the first `.` in `b`.
pub open spec fn is_first_dot(b: Seq<u8>, k: int) -> bool {
    &&& 0 <= k < b.len()
    &&& b[k] == dot()
    &&& forall|j: int| 0 <= j < k ==> b[j] != dot()
}

/// `k` is the position of the last `.` in `b`.
pub open spec fn is_last_dot(b: Seq<u8>, k: int) -> bool {
    &&& 0 <= k < b.len()
    &&& b[k] == dot()
    &&& forall|j: int| k < j < b.len() ==> b[j] != dot()
}

/// `e` with the property named `seg` read from the table on the stack.
pub open spec fn prop(e: Emit, seg: Seq<u8>) -> Emit {
    op(text(op(e, Instruction::StringLiteral), seg), Instruction::GetProperty)
}

/// `e` with the properties of the `.`-separated path `p` read one after the other; empty
/// parts are skipped.
pub open spec fn props(e: Emit, p: Seq<u8>) -> Emit
    decreases p.len(),
{
    if p.len() == 0 {
        e
    } else if exists|k: int| is_first_dot(p, k) {
        let k = choose|k: int| is_first_dot(p, k);
        let e1 = if k > 0 {
            prop(e, p.take(k))
        } else {
            e
        };
        props(e1, p.skip(k + 1))
    } else {
        prop(e, p)
    }
}

/// Reads the variable `name`: a local if one is in scope, else a global; after its first `.`,
/// the name is a path of properties read from it.
pub open spec fn read_var(e: Emit, name: Seq<u8>) -> Result<Emit, CompilationErrorPayload> {
    let (v, rest) = if exists|k: int| is_first_dot(name, k) {
        let k = choose|k: int| is_first_dot(name, k);
        (name.take(k), name.skip(k + 1))
    } else {
        (name, Seq::<u8>::empty())
    };
    if v.len() == 0 {
        Err(CompilationErrorPayload::EmptyVariable)
    } else {
        match find_local(e.locals, v) {
            Some(i) => Ok(props(read_local(e, i as u32), rest)),
            None => match global_id(e, v) {
                Ok((e1, id)) => Ok(props(put(op(e1, Instruction::ReadGlobalVar), id.encoding()), rest)),
                Err(x) => Err(x),
            },
        }
    }
}

/// Stores the value on the stack into `name`: into the property after its last `.`, of the
/// variable before it; else into the local in scope of that name, declared if there is none.
pub open spec fn set_var(e: Emit, name: Seq<u8>) -> Result<Emit, CompilationErrorPayload> {
    if exists|k: int| is_last_dot(name, k) {
        let k = choose|k: int| is_last_dot(name, k);
        match read_var(e, name.take(k)) {
            Ok(e1) => Ok(
                op(text(op(e1, Instruction::StringLiteral), name.skip(k + 1)), Instruction::SetProperty),
            ),
            Err(x) => Err(x),
        }
    } else if name.len() == 0 {
        Err(CompilationErrorPayload::EmptyVariable)
    } else {
        match find_local(e.locals, name) {
            Some(i) => Ok(write_local(e, i as u32)),
            None => match declare(e, name) {
                Ok((e1, i)) => Ok(write_local(e1, i)),
                Err(x) => Err(x),
            },
        }
    }
}

/// Stores the value on the stack into the global `name`.
pub open spec fn set_global(e: Emit, name: Seq<u8>) -> Result<Emit, CompilationErrorPayload> {
    let e1 = op(e, Instruction::SetGlobalVar);
    if name.len() == 0 {
        Err(CompilationErrorPayload::EmptyVariable)
    } else {
        match global_id(e1, name) {
            Ok((e2, id)) => Ok(put(e2, id.encoding())),
            Err(x) => Err(x),
        }
    }
}

/// The handle and arity of the first function named `name`.
pub open spec fn find_fn(fs: Seq<(Seq<u8>, Handle, u32)>, name: Seq<u8>) -> Option<(Handle, u32)>
    decreases fs.len(),
{
    if fs.len() == 0 {
        None
    } else if fs[0].0 == name {
        Some((fs[0].1, fs[0].2))
    } else {
        find_fn(fs.drop_first(), name)
    }
}

/// The namespaces, each followed by `.`.
pub open spec fn dotted(ns: Seq<Seq<u8>>) -> Seq<u8>
    decreases ns.len(),
{
    if ns.len() == 0 {
        Seq::empty()
    } else {
        dotted(ns.drop_last()) + ns.last() + seq![dot()]
    }
}

/// The function a call of `lane` reaches: by its name, else by its name in the current
/// namespace.
pub open spec fn lookup(cx: Context, lane: Seq<u8>) -> Option<(Handle, u32)> {
    match find_fn(cx.functions, lane) {
        Some(m) => Some(m),
        None => find_fn(cx.functions, dotted(cx.namespace) + lane),
    }
}

/// `e` with the handle and arity of the function `lane` written.
pub open spec fn jump(e: Emit, cx: Context, lane: String) -> Result<Emit, CompilationErrorPayload> {
    match lookup(cx, text_bytes(lane)) {
        Some((h, a)) => Ok(put(put(e, h.encoding()), a.encoding())),
        None => Err(CompilationErrorPayload::InvalidJump { dst: lane, msg: None }),
    }
}

/// `r` with instruction `i` written after it.
pub open spec fn then_op(r: Result<Emit, CompilationErrorPayload>, i: Instruction) -> Result<Emit, CompilationErrorPayload> {
    match r {
        Ok(e) => Ok(op(e, i)),
        Err(x) => Err(x),
    }
}

/// The strings of a card that go into the data fit their 32 bit lengths.
pub open spec fn own_texts_fit(c: Card) -> bool {
    match c.body {
        CardBody::StringLiteral(s) => text_bytes(s).len() <= u32::MAX,
        CardBody::NativeFunction(s) => text_bytes(s).len() <= u32::MAX,
        CardBody::ReadVar(s) => text_bytes(s).len() <= u32::MAX,
        CardBody::SetVar(sv) => text_bytes(sv.name).len() <= u32::MAX,
        _ => true,
    }
}

/// The strings of a card and of the cards nested in it, down to `fuel` levels, fit their
/// 32 bit lengths.
pub open spec fn texts_fit(c: Card, fuel: nat) -> bool
    decreases fuel,
{
    &&& own_texts_fit(c)
    &&& fuel > 0 ==> forall|i: int|
        0 <= i < c.children().len() ==> texts_fit(#[trigger] c.children()[i], (fuel - 1) as nat)
}

/// Compiling a card with `f` levels of nesting left, as a function of the state before it.
pub open spec fn rec(cx: Context, f: nat) -> spec_fn(Emit, Card) -> Result<Emit, CompilationErrorPayload>
    decreases f + 1, 0nat,
{
    |e: Emit, c: Card| process(e, cx, c, f)
}

/// Compiles card `c`, following at most `fuel` levels of nesting.
pub open spec fn process(e: Emit, cx: Context, c: Card, fuel: nat) -> Result<Emit, CompilationErrorPayload>
    decreases fuel, 1nat,
{
    if fuel == 0 {
        Err(CompilationErrorPayload::RecursionLimitReached(MAX_CARD_DEPTH))
    } else {
        let f = (fuel - 1) as nat;
        match c.body {
            CardBody::Add(b) => then_op(process_two(e, b[0], b[1], rec(cx, f)), Instruction::Add),
            CardBody::Sub(b) => then_op(process_two(e, b[0], b[1], rec(cx, f)), Instruction::Sub),
            CardBody::Mul(b) => then_op(process_two(e, b[0], b[1], rec(cx, f)), Instruction::Mul),
            CardBody::Div(b) => then_op(process_two(e, b[0], b[1], rec(cx, f)), Instruction::Div),
            CardBody::Less(b) => then_op(process_two(e, b[0], b[1], rec(cx, f)), Instruction::Less),
            CardBody::LessOrEq(b) => then_op(process_two(e, b[0], b[1], rec(cx, f)), Instruction::LessOrEq),
            CardBody::Equals(b) => then_op(process_two(e, b[0], b[1], rec(cx, f)), Instruction::Equals),
            CardBody::NotEquals(b) => then_op(process_two(e, b[0], b[1], rec(cx, f)), Instruction::NotEquals),
            CardBody::And(b) => then_op(process_two(e, b[0], b[1], rec(cx, f)), Instruction::And),
            CardBody::Or(b) => then_op(process_two(e, b[0], b[1], rec(cx, f)), Instruction::Or),
            CardBody::Xor(b) => then_op(process_two(e, b[0], b[1], rec(cx, f)), Instruction::Xor),
            CardBody::GetProperty(b) => then_op(process_two(e, b[0], b[1], rec(cx, f)), Instruction::GetProperty),
            CardBody::Get(b) => then_op(process_two(e, b[0], b[1], rec(cx, f)), Instruction::NthRow),
            CardBody::AppendTable(b) => then_op(process_two(e, b[0], b[1], rec(cx, f)), Instruction::AppendTable),
            CardBody::SetProperty(t) => then_op(process_three(e, t[0], t[1], t[2], rec(cx, f)), Instruction::SetProperty),
            CardBody::Not(u) => then_op(process(e, cx, *u.card, f), Instruction::Not),
            CardBody::Return(u) => then_op(process(e, cx, *u.card, f), Instruction::Return),
            CardBody::Len(u) => then_op(process(e, cx, *u.card, f), Instruction::Len),
            CardBody::PopTable(u) => then_op(process(e, cx, *u.card, f), Instruction::PopTable),
            CardBody::ScalarNil => Ok(op(e, Instruction::ScalarNil)),
            CardBody::CreateTable => Ok(op(e, Instruction::InitTable)),
            CardBody::Abort => Ok(op(e, Instruction::Exit)),
            CardBody::Comment(_) => Ok(e),
            CardBody::ScalarInt(x) => Ok(put(op(e, Instruction::ScalarInt), x.encoding())),
            CardBody::ScalarFloat(x) => Ok(put(op(e, Instruction::ScalarFloat), x.encoding())),
            CardBody::StringLiteral(s) => Ok(text(op(e, Instruction::StringLiteral), text_bytes(s))),
            CardBody::NativeFunction(s) => Ok(text(op(e, Instruction::NativeFunctionPointer), text_bytes(s))),
            CardBody::IfTrue(b) => process_if(e, b[0], b[1], Instruction::GotoIfFalse, rec(cx, f)),
            CardBody::IfFalse(b) => process_if(e, b[0], b[1], Instruction::GotoIfTrue, rec(cx, f)),
            CardBody::IfElse(t) => process_if_else(e, t[0], t[1], t[2], rec(cx, f)),
            CardBody::While(b) => process_while(e, b[0], b[1], rec(cx, f)),
            CardBody::CompositeCard(cc) => process_seq(e, cc.cards@, rec(cx, f)),
            CardBody::Array(a) => process_array(e, a@, rec(cx, f)),
            CardBody::ReadVar(s) => read_var(e, text_bytes(s)),
            CardBody::SetVar(sv) => match process(e, cx, sv.value, f) {
                Ok(e1) => set_var(e1, text_bytes(sv.name)),
                Err(x) => Err(x),
            },
            CardBody::SetGlobalVar(sv) => match process(e, cx, sv.value, f) {
                Ok(e1) => set_global(e1, text_bytes(sv.name)),
                Err(x) => Err(x),
            },
            CardBody::Repeat(r) => process_repeat(e, r.n, r.i, r.body, rec(cx, f)),
            CardBody::ForEach(fe) => process_for_each(e, *fe.iterable, fe.i, fe.k, fe.v, *fe.body, rec(cx, f)),
            CardBody::Call(j) => match process_seq(e, j.args.0@, rec(cx, f)) {
                Ok(e1) => then_op(jump(op(e1, Instruction::FunctionPointer), cx, j.function_name), Instruction::CallFunction),
                Err(x) => Err(x),
            },
            CardBody::Function(name) => jump(op(e, Instruction::FunctionPointer), cx, name),
            CardBody::CallNative(j) => match process_seq(e, j.args.0@, rec(cx, f)) {
                Ok(e1) => Ok(put(op(e1, Instruction::CallNative), Handle(fnv1a(text_bytes(j.name)) as u32).encoding())),
                Err(x) => Err(x),
            },
            CardBody::DynamicCall(j) => match process_seq(e, j.args.0@, rec(cx, f)) {
                Ok(e1) => then_op(process(e1, cx, j.function, f), Instruction::CallFunction),
                Err(x) => Err(x),
            },
            CardBody::Closure(_) => Err(CompilationErrorPayload::Unimplemented("closures")),
        }
    }
}

/// Compiles `x`, then `y`.
pub open spec fn process_two(e: Emit, x: Card, y: Card, p: spec_fn(Emit, Card) -> Result<Emit, CompilationErrorPayload>) -> Result<Emit, CompilationErrorPayload>
{
    match p(e, x) {
        Ok(e1) => p(e1, y),
        Err(r) => Err(r),
    }
}

/// Compiles `x`, `y`, then `z`.
pub open spec fn process_three(e: Emit, x: Card, y: Card, z: Card, p: spec_fn(Emit, Card) -> Result<Emit, CompilationErrorPayload>) -> Result<Emit, CompilationErrorPayload>
{
    match p(e, x) {
        Ok(e1) => match p(e1, y) {
            Ok(e2) => p(e2, z),
            Err(r) => Err(r),
        },
        Err(r) => Err(r),
    }
}

/// Compiles the cards one after the other.
pub open spec fn process_seq(e: Emit, cards: Seq<Card>, p: spec_fn(Emit, Card) -> Result<Emit, CompilationErrorPayload>) -> Result<Emit, CompilationErrorPayload>
    decreases cards.len(),
{
    if cards.len() == 0 {
        Ok(e)
    } else {
        match p(e, cards[0]) {
            Ok(e1) => process_seq(e1, cards.drop_first(), p),
            Err(r) => Err(r),
        }
    }
}

/// Compiles `cond`, then `body`, which the jump `skip` passes over.
pub open spec fn process_if(e: Emit, cond: Card, body: Card, skip: Instruction, p: spec_fn(Emit, Card) -> Result<Emit, CompilationErrorPayload>) -> Result<Emit, CompilationErrorPayload>
{
    match p(e, cond) {
        Ok(e1) => match p(skip_over(e1, skip), body) {
            Ok(e2) => Ok(patch(e2, e1.code.len() + 1)),
            Err(r) => Err(r),
        },
        Err(r) => Err(r),
    }
}

/// Compiles `cond`, then `then_card` ending in a jump over `else_card`, then `else_card`.
pub open spec fn process_if_else(e: Emit, cond: Card, then_card: Card, else_card: Card, p: spec_fn(Emit, Card) -> Result<Emit, CompilationErrorPayload>) -> Result<Emit, CompilationErrorPayload>
{
    match p(e, cond) {
        Ok(e1) => match p(skip_over(e1, Instruction::GotoIfFalse), then_card) {
            Ok(e2) => {
                let e3 = patch(put(op(e2, Instruction::Goto), 0xEEFi32.encoding()), e1.code.len() + 1);
                match p(e3, else_card) {
                    Ok(e4) => Ok(patch(e4, e2.code.len() + 1)),
                    Err(r) => Err(r),
                }
            },
            Err(r) => Err(r),
        },
        Err(r) => Err(r),
    }
}

/// Compiles `cond`, then `body` ending in a jump back to `cond`; a false `cond` jumps past it.
pub open spec fn process_while(e: Emit, cond: Card, body: Card, p: spec_fn(Emit, Card) -> Result<Emit, CompilationErrorPayload>) -> Result<Emit, CompilationErrorPayload>
{
    let begin = e.code.len() as i32;
    match p(e, cond) {
        Ok(e1) => match p(skip_over(e1, Instruction::GotoIfFalse), body) {
            Ok(e2) => Ok(patch(put(op(e2, Instruction::Goto), begin.encoding()), e1.code.len() + 1)),
            Err(r) => Err(r),
        },
        Err(r) => Err(r),
    }
}

/// Compiles a table of the results of `cards`, built in an unnamed local.
pub open spec fn process_array(e: Emit, cards: Seq<Card>, p: spec_fn(Emit, Card) -> Result<Emit, CompilationErrorPayload>) -> Result<Emit, CompilationErrorPayload>
{
    match declare(op(e, Instruction::InitTable), Seq::empty()) {
        Ok((e1, tv)) => match array_items(write_local(e1, tv), cards, tv, p) {
            Ok(e2) => Ok(read_local(e2, tv)),
            Err(r) => Err(r),
        },
        Err(r) => Err(r),
    }
}

/// Appends the result of each card, `nil` where it gives none, to the table in local `tv`.
pub open spec fn array_items(e: Emit, cards: Seq<Card>, tv: u32, p: spec_fn(Emit, Card) -> Result<Emit, CompilationErrorPayload>) -> Result<Emit, CompilationErrorPayload>
    decreases cards.len(),
{
    if cards.len() == 0 {
        Ok(e)
    } else {
        match p(op(e, Instruction::ScalarNil), cards[0]) {
            Ok(e1) => array_items(op(read_local(e1, tv), Instruction::AppendTable), cards.drop_first(), tv, p),
            Err(r) => Err(r),
        }
    }
}

/// Declares the local `i` of a loop, if it is named.
pub open spec fn declare_some(e: Emit, i: Option<String>) -> Result<(Emit, Option<u32>), CompilationErrorPayload> {
    match i {
        Some(s) => match declare_named(e, text_bytes(s)) {
            Ok((e1, x)) => Ok((e1, Some(x))),
            Err(r) => Err(r),
        },
        None => Ok((e, None)),
    }
}

/// The loop condition of a repetition: the counter in local `c` below the count in `n`.
pub open spec fn repeat_head(e: Emit, c: u32, n: u32) -> Emit {
    op(read_local(read_local(e, c), n), Instruction::Less)
}

/// Adds one to the counter in local `c`.
pub open spec fn repeat_step(e: Emit, c: u32) -> Emit {
    write_local(op(read_local(put(op(e, Instruction::ScalarInt), 1i64.encoding()), c), Instruction::Add), c)
}

/// Compiles `n`, then `body` repeated that many times, in a scope of its own with unnamed
/// locals for the count and the counter, and the counter in `i` when it is named.
pub open spec fn process_repeat(e: Emit, n: Card, i: Option<String>, body: Card, p: spec_fn(Emit, Card) -> Result<Emit, CompilationErrorPayload>) -> Result<Emit, CompilationErrorPayload>
{
    match p(e, n) {
        Ok(e1) => match declare(open_scope(e1), Seq::empty()) {
            Ok((e2, ni)) => match declare(e2, Seq::empty()) {
                Ok((e3, ci)) => match declare_some(e3, i) {
                    Ok((e4, ii)) => {
                        let e5 = write_local(put(op(write_local(e4, ni), Instruction::ScalarInt), 0i64.encoding()), ci);
                        let begin = e5.code.len() as i32;
                        let e6 = repeat_head(e5, ci, ni);
                        let e7 = skip_over(e6, Instruction::GotoIfFalse);
                        let e8 = match ii {
                            Some(x) => write_local(read_local(e7, ci), x),
                            None => e7,
                        };
                        match p(e8, body) {
                            Ok(e9) => Ok(close_scope(patch(
                                put(op(repeat_step(e9, ci), Instruction::Goto), begin.encoding()),
                                e6.code.len() + 1,
                            ))),
                            Err(r) => Err(r),
                        }
                    },
                    Err(r) => Err(r),
                },
                Err(r) => Err(r),
            },
            Err(r) => Err(r),
        },
        Err(r) => Err(r),
    }
}

/// The five locals of an iteration, written after `instr`.
pub open spec fn for_each_locals(e: Emit, lv: u32, li: u32, ii: u32, ki: u32, vi: u32) -> Emit {
    put(put(put(put(put(op(e, Instruction::ForEach), lv.encoding()), li.encoding()), ii.encoding()), ki.encoding()), vi.encoding())
}

/// Compiles `iterable`, then `body` run for each of its entries, in a scope of its own with
/// unnamed locals for the iteration and locals for the value, key and index.
pub open spec fn process_for_each(
    e: Emit,
    iterable: Card,
    i: Option<String>,
    k: Option<String>,
    v: Option<String>,
    body: Card,
    p: spec_fn(Emit, Card) -> Result<Emit, CompilationErrorPayload>,
) -> Result<Emit, CompilationErrorPayload>
{
    match p(e, iterable) {
        Ok(e1) => match declare(open_scope(e1), Seq::empty()) {
            Ok((e2, lv)) => match declare(e2, Seq::empty()) {
                Ok((e3, li)) => match declare_opt(e3, v) {
                    Ok((e4, vi)) => match declare_opt(e4, k) {
                        Ok((e5, ki)) => match declare_opt(e5, i) {
                            Ok((e6, ii)) => {
                                let e7 = put(put(op(e6, Instruction::BeginForEach), lv.encoding()), li.encoding());
                                let begin = e7.code.len() as i32;
                                let e8 = for_each_locals(e7, lv, li, ii, ki, vi);
                                match p(skip_over(e8, Instruction::GotoIfFalse), body) {
                                    Ok(e9) => Ok(close_scope(patch(
                                        put(op(e9, Instruction::Goto), begin.encoding()),
                                        e8.code.len() + 1,
                                    ))),
                                    Err(r) => Err(r),
                                }
                            },
                            Err(r) => Err(r),
                        },
                        Err(r) => Err(r),
                    },
                    Err(r) => Err(r),
                },
                Err(r) => Err(r),
            },
            Err(r) => Err(r),
        },
        Err(r) => Err(r),
    }
}

/// `e2` is `e` followed by instruction `i` and exactly as many bytes of inline data as `i`
/// spans: the bytes a decoder steps over to reach the next instruction.
pub open spec fn writes_instruction(e: Emit, e2: Emit, i: Instruction) -> bool {
    &&& e2.code.len() == e.code.len() + 1 + data_span(i)
    &&& e2.code.take(e.code.len() as int) == e.code
    &&& e2.code[e.code.len() as int] == opcode(i)
}

/// The instructions the compiler writes on their own, with no inline data after them.
pub open spec fn written_alone(i: Instruction) -> bool {
    i is Add
        || i is Sub
        || i is Mul
        || i is Div
        || i is Less
        || i is LessOrEq
        || i is Equals
        || i is NotEquals
        || i is And
        || i is Or
        || i is Xor
        || i is Not
        || i is Return
        || i is Len
        || i is PopTable
        || i is GetProperty
        || i is SetProperty
        || i is NthRow
        || i is AppendTable
        || i is ScalarNil
        || i is InitTable
        || i is Exit
        || i is CallFunction
}

/// Every instruction the compiler writes is followed by exactly the inline data that its span
/// counts, so decoding compiled code steps from one instruction to the next.
pub proof fn lemma_compiled_spans(
    e: Emit,
    cx: Context,
    x: u32,
    y: u32,
    z: u32,
    u: u32,
    w: u32,
    n: i64,
    bits: u64,
    t: Seq<u8>,
    k: i32,
    h: Handle,
    lane: String,
)
    ensures
        writes_instruction(e, read_local(e, x), Instruction::ReadLocalVar),
        writes_instruction(e, write_local(e, x), Instruction::SetLocalVar),
        writes_instruction(e, skip_over(e, Instruction::GotoIfTrue), Instruction::GotoIfTrue),
        writes_instruction(e, skip_over(e, Instruction::GotoIfFalse), Instruction::GotoIfFalse),
        writes_instruction(e, put(op(e, Instruction::Goto), k.encoding()), Instruction::Goto),
        writes_instruction(e, for_each_locals(e, x, y, z, u, w), Instruction::ForEach),
        writes_instruction(
            e,
            put(put(op(e, Instruction::BeginForEach), x.encoding()), y.encoding()),
            Instruction::BeginForEach,
        ),
        writes_instruction(e, put(op(e, Instruction::ScalarInt), n.encoding()), Instruction::ScalarInt),
        writes_instruction(e, put(op(e, Instruction::ScalarFloat), bits.encoding()), Instruction::ScalarFloat),
        writes_instruction(e, text(op(e, Instruction::StringLiteral), t), Instruction::StringLiteral),
        writes_instruction(
            e,
            text(op(e, Instruction::NativeFunctionPointer), t),
            Instruction::NativeFunctionPointer,
        ),
        writes_instruction(e, put(op(e, Instruction::ReadGlobalVar), x.encoding()), Instruction::ReadGlobalVar),
        writes_instruction(e, put(op(e, Instruction::SetGlobalVar), x.encoding()), Instruction::SetGlobalVar),
        writes_instruction(e, put(op(e, Instruction::CallNative), h.encoding()), Instruction::CallNative),
        jump(op(e, Instruction::FunctionPointer), cx, lane) matches Ok(e2) ==> writes_instruction(
            e,
            e2,
            Instruction::FunctionPointer,
        ),
        forall|i: Instruction| written_alone(i) ==> #[trigger] writes_instruction(e, op(e, i), i),
{
    <u32 as TriviallyEncodable>::lemma_roundtrip(x);
    <u32 as TriviallyEncodable>::lemma_roundtrip(y);
    <u32 as TriviallyEncodable>::lemma_roundtrip(z);
    <u32 as TriviallyEncodable>::lemma_roundtrip(u);
    <u32 as TriviallyEncodable>::lemma_roundtrip(w);
    <u32 as TriviallyEncodable>::lemma_roundtrip(e.data.len() as u32);
    <i32 as TriviallyEncodable>::lemma_roundtrip(k);
    <i32 as TriviallyEncodable>::lemma_roundtrip(0i32);
    <i64 as TriviallyEncodable>::lemma_roundtrip(n);
    <u64 as TriviallyEncodable>::lemma_roundtrip(bits);
    <Handle as TriviallyEncodable>::lemma_roundtrip(h);
    let c = e.code;
    assert(read_local(e, x).code.take(c.len() as int) =~= c);
    assert(write_local(e, x).code.take(c.len() as int) =~= c);
    assert(skip_over(e, Instruction::GotoIfTrue).code.take(c.len() as int) =~= c);
    assert(skip_over(e, Instruction::GotoIfFalse).code.take(c.len() as int) =~= c);
    assert(put(op(e, Instruction::Goto), k.encoding()).code.take(c.len() as int) =~= c);
    assert(for_each_locals(e, x, y, z, u, w).code.take(c.len() as int) =~= c);
    assert(put(put(op(e, Instruction::BeginForEach), x.encoding()), y.encoding()).code.take(c.len() as int) =~= c);
    assert(put(op(e, Instruction::ScalarInt), n.encoding()).code.take(c.len() as int) =~= c);
    assert(put(op(e, Instruction::ScalarFloat), bits.encoding()).code.take(c.len() as int) =~= c);
    assert(text(op(e, Instruction::StringLiteral), t).code.take(c.len() as int) =~= c);
    assert(text(op(e, Instruction::NativeFunctionPointer), t).code.take(c.len() as int) =~= c);
    assert(put(op(e, Instruction::ReadGlobalVar), x.encoding()).code.take(c.len() as int) =~= c);
    assert(put(op(e, Instruction::SetGlobalVar), x.encoding()).code.take(c.len() as int) =~= c);
    assert(put(op(e, Instruction::CallNative), h.encoding()).code.take(c.len() as int) =~= c);
    if let Some((hh, a)) = lookup(cx, text_bytes(lane)) {
        <Handle as TriviallyEncodable>::lemma_roundtrip(hh);
        <u32 as TriviallyEncodable>::lemma_roundtrip(a);
        let e2 = put(put(op(e, Instruction::FunctionPointer), hh.encoding()), a.encoding());
        assert(e2.code.take(c.len() as int) =~= c);
    }
    assert forall|i: Instruction| written_alone(i) implies #[trigger] writes_instruction(e, op(e, i), i) by {
        assert(op(e, i).code.take(c.len() as int) =~= c);
    }
}

/// The outcome `r` of a step is the one `s` states, reaching the state `after` when it
/// succeeds.
pub open spec fn outcome(
    r: Result<(), CompilationError>,
    s: Result<Emit, CompilationErrorPayload>,
    after: Emit,
) -> bool {
    match s {
        Ok(e) => r is Ok && after == e,
        Err(p) => r matches Err(x) && x.payload == p,
    }
}

/// `b` is well formed and calls in it reach the same functions as in `a`.
pub open spec fn kept(a: Compiler, b: Compiler) -> bool {
    &&& b.wf()
    &&& b.functions@ == a.functions@
    &&& b.namespace@ == a.namespace@
}

/// `k` is no `.` in `b` past `from`... the positions before `k` hold no `.`.
proof fn lemma_first_dot_unique(b: Seq<u8>, k1: int, k2: int)
    requires
        is_first_dot(b, k1),
        is_first_dot(b, k2),
    ensures
        k1 == k2,
{
    if k1 < k2 {
        assert(b[k1] != dot());
    }
    if k2 < k1 {
        assert(b[k2] != dot());
    }
}

proof fn lemma_last_dot_unique(b: Seq<u8>, k1: int, k2: int)
    requires
        is_last_dot(b, k1),
        is_last_dot(b, k2),
    ensures
        k1 == k2,
{
    if k1 < k2 {
        assert(b[k2] != dot());
    }
    if k2 < k1 {
        assert(b[k1] != dot());
    }
}

/// The position of the first `.` in `b`.
fn first_dot(b: &[u8]) -> (r: Option<usize>)
    ensures
        r matches Some(k) ==> is_first_dot(b@, k as int),
        r is None ==> forall|j: int| 0 <= j < b@.len() ==> b@[j] != dot(),
{
    let mut i: usize = 0;
    while i < b.len()
        invariant
            i <= b@.len(),
            forall|j: int| 0 <= j < i ==> b@[j] != dot(),
        decreases b@.len() - i,
    {
        if b[i] == 0x2e {
            return Some(i);
        }
        i = i + 1;
    }
    None
}

/// The position of the last `.` in `b`.
fn last_dot(b: &[u8]) -> (r: Option<usize>)
    ensures
        r matches Some(k) ==> is_last_dot(b@, k as int),
        r is None ==> forall|j: int| 0 <= j < b@.len() ==> b@[j] != dot(),
{
    let mut i: usize = b.len();
    while i > 0
        invariant
            i <= b@.len(),
            forall|j: int| i <= j < b@.len() ==> b@[j] != dot(),
        decreases i,
    {
        if b[i - 1] == 0x2e {
            return Some(i - 1);
        }
        i = i - 1;
    }
    None
}

/// Operator cards: their operands, then one instruction.
pub open spec fn is_operator(c: Card) -> bool {
    c.body is Add
        || c.body is Sub
        || c.body is Mul
        || c.body is Div
        || c.body is Less
        || c.body is LessOrEq
        || c.body is Equals
        || c.body is NotEquals
        || c.body is And
        || c.body is Or
        || c.body is Xor
        || c.body is GetProperty
        || c.body is Get
        || c.body is AppendTable
        || c.body is SetProperty
        || c.body is Not
        || c.body is Return
        || c.body is Len
        || c.body is PopTable
}

/// Cards that branch, loop or group cards.
pub open spec fn is_control(c: Card) -> bool {
    c.body is IfTrue
        || c.body is IfFalse
        || c.body is IfElse
        || c.body is While
        || c.body is CompositeCard
        || c.body is Array
        || c.body is Repeat
        || c.body is ForEach
}

/// The other cards: values, variable accesses and calls.
pub open spec fn is_other(c: Card) -> bool {
    !is_operator(c) && !is_control(c)
}

/// Which group a card is in: 0 for operators, 1 for control cards, 2 for the others.
fn card_kind(c: &Card) -> (r: u8)
    ensures
        r == 0 <==> is_operator(*c),
        r == 1 <==> is_control(*c),
        r == 2 <==> is_other(*c),
{
    match &c.body {
        CardBody::Add(..) => 0,
        CardBody::Sub(..) => 0,
        CardBody::Mul(..) => 0,
        CardBody::Div(..) => 0,
        CardBody::Less(..) => 0,
        CardBody::LessOrEq(..) => 0,
        CardBody::Equals(..) => 0,
        CardBody::NotEquals(..) => 0,
        CardBody::And(..) => 0,
        CardBody::Or(..) => 0,
        CardBody::Xor(..) => 0,
        CardBody::GetProperty(..) => 0,
        CardBody::Get(..) => 0,
        CardBody::AppendTable(..) => 0,
        CardBody::SetProperty(..) => 0,
        CardBody::Not(..) => 0,
        CardBody::Return(..) => 0,
        CardBody::Len(..) => 0,
        CardBody::PopTable(..) => 0,
        CardBody::IfTrue(..) => 1,
        CardBody::IfFalse(..) => 1,
        CardBody::IfElse(..) => 1,
        CardBody::While(..) => 1,
        CardBody::CompositeCard(..) => 1,
        CardBody::Array(..) => 1,
        CardBody::Repeat(..) => 1,
        CardBody::ForEach(..) => 1,
        _ => 2,
    }
}

/// The nested cards of a card whose strings fit fit down to one level less.
proof fn lemma_children_fit(c: Card, fuel: nat)
    requires
        texts_fit(c, fuel),
        fuel > 0,
    ensures
        own_texts_fit(c),
        forall|i: int| 0 <= i < c.children().len() ==> #[trigger] texts_fit(c.children()[i], (fuel - 1) as nat),
{
    reveal_with_fuel(texts_fit, 1);
}

impl<'a> Compiler<'a> {
    /// What the compiler has written and keeps in scope.
    pub open spec fn emitted(&self) -> Emit {
        Emit {
            code: self.program.bytecode@,
            data: self.program.data@,
            locals: local_view(self.locals@),
            depth: self.scope_depth as int,
            globals: self.globals@.map_values(|g: &[u8]| g@),
        }
    }

    /// The functions calls can reach and the current namespace.
    pub open spec fn context(&self) -> Context {
        Context {
            functions: self.functions@.map_values(
                |p: (String, FunctionMeta)| (text_bytes(p.0), p.1.hash_key, p.1.arity),
            ),
            namespace: self.namespace@.map_values(|s: String| text_bytes(s)),
        }
    }

    /// Scopes can open `fuel` levels deeper without the depth overflowing.
    pub open spec fn room(&self, fuel: nat) -> bool {
        0 <= self.depth() && self.depth() + fuel <= i32::MAX
    }

    fn emit_op(&mut self, i: Instruction)
        requires
            old(self).wf(),
        ensures
            kept(*old(self), *final(self)),
            final(self).emitted() == op(old(self).emitted(), i),
    {
        self.push_instruction(i);
    }

    fn emit_value<T: TriviallyEncodable>(&mut self, v: T)
        requires
            old(self).wf(),
        ensures
            kept(*old(self), *final(self)),
            final(self).emitted() == put(old(self).emitted(), v.encoding()),
    {
        write_to_vec(v, &mut self.program.bytecode);
    }

    fn emit_text(&mut self, t: &[u8])
        requires
            old(self).wf(),
            t@.len() <= u32::MAX,
        ensures
            kept(*old(self), *final(self)),
            final(self).emitted() == text(old(self).emitted(), t@),
    {
        let handle = self.program.data.len() as u32;
        write_to_vec(handle, &mut self.program.bytecode);
        let len = t.len() as u32;
        write_to_vec(len, &mut self.program.data);
        let ghost mid = self.program.data@;
        self.program.data.extend_from_slice(t);
        proof {
            assert(self.program.data@ =~= mid + t@);
            assert(str_encoding(t@) =~= len.encoding() + t@);
            assert(self.program.data@ =~= old(self).program.data@ + str_encoding(t@));
        }
    }

    fn emit_read_local(&mut self, i: u32)
        requires
            old(self).wf(),
        ensures
            kept(*old(self), *final(self)),
            final(self).emitted() == read_local(old(self).emitted(), i),
    {
        self.read_local_var(i);
    }

    fn emit_write_local(&mut self, i: u32)
        requires
            old(self).wf(),
        ensures
            kept(*old(self), *final(self)),
            final(self).emitted() == write_local(old(self).emitted(), i),
    {
        self.write_local_var(i);
    }

    fn emit_skip(&mut self, i: Instruction) -> (r: usize)
        requires
            old(self).wf(),
            i is GotoIfTrue || i is GotoIfFalse,
        ensures
            kept(*old(self), *final(self)),
            final(self).emitted() == skip_over(old(self).emitted(), i),
            r == old(self).emitted().code.len() + 1,
    {
        self.begin_skip(i)
    }

    fn emit_patch(&mut self, idx: usize)
        requires
            old(self).wf(),
            idx + 4 <= old(self).emitted().code.len(),
        ensures
            kept(*old(self), *final(self)),
            final(self).emitted() == patch(old(self).emitted(), idx as nat),
    {
        self.end_skip(idx);
    }

    fn open_scope(&mut self)
        requires
            old(self).wf(),
            old(self).room(1),
        ensures
            kept(*old(self), *final(self)),
            final(self).emitted() == open_scope(old(self).emitted()),
    {
        self.scope_begin();
    }

    fn close_scope(&mut self)
        requires
            old(self).wf(),
            old(self).depth() > 0,
        ensures
            kept(*old(self), *final(self)),
            final(self).emitted() == close_scope(old(self).emitted()),
    {
        self.scope_end();
    }

    /// Declares an unnamed local.
    fn declare_anon(&mut self) -> (r: Result<u32, CompilationError>)
        requires
            old(self).wf(),
        ensures
            kept(*old(self), *final(self)),
            final(self).depth() == old(self).depth(),
            match declare(old(self).emitted(), Seq::empty()) {
                Ok((e, i)) => r == Ok::<u32, CompilationError>(i) && final(self).emitted() == e,
                Err(p) => r matches Err(x) && x.payload == p,
            },
    {
        let r = self.add_local_unchecked("");
        proof {
            reveal_strlit("");
            assert(""@ =~= Seq::<char>::empty());
            assert(encode_utf8(Seq::<char>::empty()) =~= Seq::<u8>::empty());
            if r is Ok {
                assert(local_view(self.locals@) =~= local_view(old(self).locals@).push(
                    (Seq::<u8>::empty(), old(self).depth()),
                ));
            }
        }
        r
    }

    /// Declares a local named `name`.
    fn declare_named(&mut self, name: &'a str) -> (r: Result<u32, CompilationError>)
        requires
            old(self).wf(),
        ensures
            kept(*old(self), *final(self)),
            final(self).depth() == old(self).depth(),
            match declare_named(old(self).emitted(), name.spec_bytes()) {
                Ok((e, i)) => r == Ok::<u32, CompilationError>(i) && final(self).emitted() == e,
                Err(p) => r matches Err(x) && x.payload == p,
            },
    {
        let r = self.add_local(name);
        proof {
            if r is Ok {
                assert(local_view(self.locals@) =~= local_view(old(self).locals@).push(
                    (name.spec_bytes(), old(self).depth()),
                ));
            }
        }
        r
    }

    /// Declares the named local, or an unnamed one.
    fn declare_opt(&mut self, name: &'a Option<String>) -> (r: Result<u32, CompilationError>)
        requires
            old(self).wf(),
        ensures
            kept(*old(self), *final(self)),
            final(self).depth() == old(self).depth(),
            match declare_opt(old(self).emitted(), *name) {
                Ok((e, i)) => r == Ok::<u32, CompilationError>(i) && final(self).emitted() == e,
                Err(p) => r matches Err(x) && x.payload == p,
            },
    {
        match name {
            Some(s) => self.declare_named(s.as_str()),
            None => self.declare_anon(),
        }
    }

    /// The index of the innermost local named `name`.
    fn find_local(&self, name: &[u8]) -> (r: Option<usize>)
        ensures
            r is None == find_local(self.emitted().locals, name@) is None,
            r matches Some(i) ==> find_local(self.emitted().locals, name@) == Some(i as int),
    {
        let ghost all = local_view(self.locals@);
        let mut i = self.locals.len();
        assert(all.take(i as int) =~= all);
        while i > 0
            invariant
                i <= all.len(),
                all == local_view(self.locals@),
                find_local(all, name@) == find_local(all.take(i as int), name@),
            decreases i,
        {
            let ghost prefix = all.take(i as int);
            assert(prefix.drop_last() =~= all.take(i - 1));
            i = i - 1;
            if bytes_eq(self.locals[i].name.as_bytes(), name) {
                assert(prefix.last() == all[i as int]);
                return Some(i);
            }
        }
        assert(all.take(0) =~= Seq::<(Seq<u8>, int)>::empty());
        None
    }

    /// The id of the global named `name`, given the next id when it has none.
    fn global_id(&mut self, name: &'a [u8]) -> (r: Result<u32, CompilationError>)
        requires
            old(self).wf(),
        ensures
            kept(*old(self), *final(self)),
            final(self).depth() == old(self).depth(),
            match global_id(old(self).emitted(), name@) {
                Ok((e, i)) => r == Ok::<u32, CompilationError>(i) && final(self).emitted() == e,
                Err(p) => r matches Err(x) && x.payload == p,
            },
    {
        let ghost all = self.globals@.map_values(|g: &[u8]| g@);
        let mut i = self.globals.len();
        assert(all.take(i as int) =~= all);
        while i > 0
            invariant
                i <= all.len(),
                all == self.globals@.map_values(|g: &[u8]| g@),
                *self == *old(self),
                old(self).wf(),
                find_global(all, name@) == find_global(all.take(i as int), name@),
            decreases i,
        {
            let ghost prefix = all.take(i as int);
            assert(prefix.drop_last() =~= all.take(i - 1));
            i = i - 1;
            if bytes_eq(self.globals[i], name) {
                assert(prefix.last() == all[i as int]);
                return Ok(i as u32);
            }
        }
        assert(all.take(0) =~= Seq::<Seq<u8>>::empty());
        if self.globals.len() + 1 >= u32::MAX as usize {
            return Err(self.error(CompilationErrorPayload::InternalError));
        }
        let id = self.globals.len() as u32;
        self.globals.push(name);
        self.next_var = crate::VariableId(id + 1);
        proof {
            assert(self.globals@.map_values(|g: &[u8]| g@) =~= all.push(name@));
        }
        Ok(id)
    }

    fn emit_prop(&mut self, seg: &[u8])
        requires
            old(self).wf(),
            seg@.len() <= u32::MAX,
        ensures
            kept(*old(self), *final(self)),
            final(self).emitted() == prop(old(self).emitted(), seg@),
    {
        self.emit_op(Instruction::StringLiteral);
        self.emit_text(seg);
        self.emit_op(Instruction::GetProperty);
    }

    /// Reads the properties of the `.`-separated path `p`.
    fn emit_props(&mut self, p: &[u8])
        requires
            old(self).wf(),
            p@.len() <= u32::MAX,
        ensures
            kept(*old(self), *final(self)),
            final(self).emitted() == props(old(self).emitted(), p@),
            final(self).depth() == old(self).depth(),
            old(self).emitted().code.len() <= final(self).emitted().code.len(),
        decreases p@.len(),
    {
        if p.len() == 0 {
            return;
        }
        match first_dot(p) {
            Some(k) => {
                proof {
                    lemma_first_dot_unique(p@, choose|j: int| is_first_dot(p@, j), k as int);
                }
                if k > 0 {
                    let seg = slice_subrange(p, 0, k);
                    assert(seg@ =~= p@.take(k as int));
                    self.emit_prop(seg);
                }
                let rest = slice_subrange(p, k + 1, p.len());
                assert(rest@ =~= p@.skip(k + 1));
                self.emit_props(rest);
            },
            None => {
                assert(!exists|j: int| is_first_dot(p@, j));
                self.emit_prop(p);
            },
        }
    }

    /// Reads the variable `name`, then the path of properties after its first `.`.
    fn read_var(&mut self, name: &'a [u8]) -> (r: Result<(), CompilationError>)
        requires
            old(self).wf(),
            name@.len() <= u32::MAX,
        ensures
            kept(*old(self), *final(self)),
            r is Ok ==> final(self).depth() == old(self).depth(),
            r is Ok ==> old(self).emitted().code.len() <= final(self).emitted().code.len(),
            outcome(r, read_var(old(self).emitted(), name@), final(self).emitted()),
    {
        let (v, rest) = match first_dot(name) {
            Some(k) => {
                proof {
                    lemma_first_dot_unique(name@, choose|j: int| is_first_dot(name@, j), k as int);
                }
                (slice_subrange(name, 0, k), slice_subrange(name, k + 1, name.len()))
            },
            None => {
                assert(!exists|j: int| is_first_dot(name@, j));
                (name, slice_subrange(name, name.len(), name.len()))
            },
        };
        assert(rest@.len() == 0 ==> rest@ =~= Seq::<u8>::empty());
        if v.len() == 0 {
            return Err(self.error(CompilationErrorPayload::EmptyVariable));
        }
        match self.find_local(v) {
            Some(i) => {
                self.emit_read_local(i as u32);
            },
            None => {
                let id = match self.global_id(v) {
                    Ok(id) => id,
                    Err(e) => return Err(e),
                };
                self.emit_op(Instruction::ReadGlobalVar);
                self.emit_value(id);
            },
        }
        self.emit_props(rest);
        Ok(())
    }

    /// Stores the value on the stack into the variable or property `name`.
    fn set_var(&mut self, name: &'a str) -> (r: Result<(), CompilationError>)
        requires
            old(self).wf(),
            name.spec_bytes().len() <= u32::MAX,
        ensures
            kept(*old(self), *final(self)),
            r is Ok ==> final(self).depth() == old(self).depth(),
            r is Ok ==> old(self).emitted().code.len() <= final(self).emitted().code.len(),
            outcome(r, set_var(old(self).emitted(), name.spec_bytes()), final(self).emitted()),
    {
        let nb = name.as_bytes();
        match last_dot(nb) {
            Some(k) => {
                proof {
                    lemma_last_dot_unique(nb@, choose|j: int| is_last_dot(nb@, j), k as int);
                }
                let pre = slice_subrange(nb, 0, k);
                assert(pre@ =~= nb@.take(k as int));
                match self.read_var(pre) {
                    Ok(()) => {},
                    Err(e) => return Err(e),
                }
                let suf = slice_subrange(nb, k + 1, nb.len());
                assert(suf@ =~= nb@.skip(k + 1));
                self.emit_op(Instruction::StringLiteral);
                self.emit_text(suf);
                self.emit_op(Instruction::SetProperty);
                Ok(())
            },
            None => {
                assert(!exists|j: int| is_last_dot(nb@, j));
                if nb.len() == 0 {
                    return Err(self.error(CompilationErrorPayload::EmptyVariable));
                }
                let index = match self.find_local(nb) {
                    Some(i) => i as u32,
                    None => match self.declare_named(name) {
                        Ok(i) => i,
                        Err(e) => return Err(e),
                    },
                };
                self.emit_write_local(index);
                Ok(())
            },
        }
    }

    /// Stores the value on the stack into the global `name`.
    fn set_global(&mut self, name: &'a [u8]) -> (r: Result<(), CompilationError>)
        requires
            old(self).wf(),
        ensures
            kept(*old(self), *final(self)),
            r is Ok ==> final(self).depth() == old(self).depth(),
            r is Ok ==> old(self).emitted().code.len() <= final(self).emitted().code.len(),
            outcome(r, set_global(old(self).emitted(), name@), final(self).emitted()),
    {
        self.emit_op(Instruction::SetGlobalVar);
        if name.len() == 0 {
            return Err(self.error(CompilationErrorPayload::EmptyVariable));
        }
        let id = match self.global_id(name) {
            Ok(id) => id,
            Err(e) => return Err(e),
        };
        self.emit_value(id);
        Ok(())
    }

    /// The first function named `name`.
    fn find_function(&self, name: &[u8]) -> (r: Option<FunctionMeta>)
        ensures
            r is None == find_fn(self.context().functions, name@) is None,
            r matches Some(m) ==> find_fn(self.context().functions, name@) == Some((m.hash_key, m.arity)),
    {
        let ghost fs = self.context().functions;
        let mut i: usize = 0;
        assert(fs.skip(0) =~= fs);
        while i < self.functions.len()
            invariant
                i <= fs.len(),
                fs == self.context().functions,
                fs.len() == self.functions@.len(),
                find_fn(fs, name@) == find_fn(fs.skip(i as int), name@),
            decreases fs.len() - i,
        {
            let ghost rest = fs.skip(i as int);
            assert(rest.drop_first() =~= fs.skip(i + 1));
            assert(rest[0] == fs[i as int]);
            if bytes_eq(self.functions[i].0.as_str().as_bytes(), name) {
                return Some(self.functions[i].1);
            }
            i = i + 1;
        }
        assert(fs.skip(i as int) =~= Seq::<(Seq<u8>, Handle, u32)>::empty());
        None
    }

    /// Writes the handle and arity of the function a call of `lane` reaches.
    fn encode_jump(&mut self, lane: &String) -> (r: Result<(), CompilationError>)
        requires
            old(self).wf(),
        ensures
            kept(*old(self), *final(self)),
            r is Ok ==> final(self).depth() == old(self).depth(),
            r is Ok ==> old(self).emitted().code.len() <= final(self).emitted().code.len(),
            outcome(r, jump(old(self).emitted(), old(self).context(), *lane), final(self).emitted()),
    {
        let lb = lane.as_str().as_bytes();
        let found = match self.find_function(lb) {
            Some(m) => Some(m),
            None => {
                let ghost ns = self.context().namespace;
                let mut name: Vec<u8> = Vec::new();
                let mut i: usize = 0;
                assert(ns.take(0) =~= Seq::<Seq<u8>>::empty());
                while i < self.namespace.len()
                    invariant
                        i <= ns.len(),
                        ns == self.context().namespace,
                        ns.len() == self.namespace@.len(),
                        name@ == dotted(ns.take(i as int)),
                    decreases ns.len() - i,
                {
                    let part = self.namespace[i].as_str().as_bytes();
                    let ghost before = name@;
                    name.extend_from_slice(part);
                    name.push(0x2e);
                    proof {
                        assert(ns.take(i + 1).drop_last() =~= ns.take(i as int));
                        assert(ns[i as int] == part@);
                        assert(name@ =~= before + part@ + seq![dot()]);
                    }
                    i = i + 1;
                }
                assert(ns.take(i as int) =~= ns);
                let ghost prefix = name@;
                name.extend_from_slice(lb);
                assert(name@ =~= prefix + lb@);
                self.find_function(name.as_slice())
            },
        };
        match found {
            Some(m) => {
                self.emit_value(m.hash_key);
                self.emit_value(m.arity);
                Ok(())
            },
            None => Err(self.error(CompilationErrorPayload::InvalidJump { dst: lane.clone(), msg: None })),
        }
    }

    /// Compiles `card`, following at most `fuel` levels of nesting.
    pub fn process_card(&mut self, card: &'a Card, fuel: u32) -> (r: Result<(), CompilationError>)
        requires
            old(self).wf(),
            old(self).room(fuel as nat),
            texts_fit(*card, fuel as nat),
        ensures
            kept(*old(self), *final(self)),
            r is Ok ==> final(self).depth() == old(self).depth(),
            r is Ok ==> old(self).emitted().code.len() <= final(self).emitted().code.len(),
            outcome(r, process(old(self).emitted(), old(self).context(), *card, fuel as nat), final(self).emitted()),
        decreases fuel, 2nat,
    {
        if fuel == 0 {
            return Err(self.error(CompilationErrorPayload::RecursionLimitReached(MAX_CARD_DEPTH)));
        }
        let f = fuel - 1;
        proof {
            lemma_children_fit(*card, fuel as nat);
        }
        match card_kind(card) {
            0 => self.process_operator(card, f),
            1 => self.process_control(card, f),
            _ => self.process_other(card, f),
        }
    }

    /// Compiles an operator card: its operands, then its instruction.
    #[verifier::rlimit(100)]
    #[verifier::spinoff_prover]
    fn process_operator(&mut self, card: &'a Card, f: u32) -> (r: Result<(), CompilationError>)
        requires
            old(self).wf(),
            old(self).room(f as nat + 1),
            is_operator(*card),
            forall|i: int| 0 <= i < card.children().len() ==> #[trigger] texts_fit(card.children()[i], f as nat),
            own_texts_fit(*card),
        ensures
            kept(*old(self), *final(self)),
            r is Ok ==> final(self).depth() == old(self).depth(),
            r is Ok ==> old(self).emitted().code.len() <= final(self).emitted().code.len(),
            outcome(r, process(old(self).emitted(), old(self).context(), *card, f as nat + 1), final(self).emitted()),
        decreases f + 1, 1nat,
    {
        let ghost kids = card.children();
        match &card.body {
            CardBody::Add(b) => self.process_binary(&b[0], &b[1], Instruction::Add, f),
            CardBody::Sub(b) => self.process_binary(&b[0], &b[1], Instruction::Sub, f),
            CardBody::Mul(b) => self.process_binary(&b[0], &b[1], Instruction::Mul, f),
            CardBody::Div(b) => self.process_binary(&b[0], &b[1], Instruction::Div, f),
            CardBody::Less(b) => self.process_binary(&b[0], &b[1], Instruction::Less, f),
            CardBody::LessOrEq(b) => self.process_binary(&b[0], &b[1], Instruction::LessOrEq, f),
            CardBody::Equals(b) => self.process_binary(&b[0], &b[1], Instruction::Equals, f),
            CardBody::NotEquals(b) => self.process_binary(&b[0], &b[1], Instruction::NotEquals, f),
            CardBody::And(b) => self.process_binary(&b[0], &b[1], Instruction::And, f),
            CardBody::Or(b) => self.process_binary(&b[0], &b[1], Instruction::Or, f),
            CardBody::Xor(b) => self.process_binary(&b[0], &b[1], Instruction::Xor, f),
            CardBody::GetProperty(b) => self.process_binary(&b[0], &b[1], Instruction::GetProperty, f),
            CardBody::Get(b) => self.process_binary(&b[0], &b[1], Instruction::NthRow, f),
            CardBody::AppendTable(b) => self.process_binary(&b[0], &b[1], Instruction::AppendTable, f),
            CardBody::SetProperty(t) => {
                assert(kids[0] == t[0] && kids[1] == t[1] && kids[2] == t[2]);
                self.process_ternary(&t[0], &t[1], &t[2], Instruction::SetProperty, f)
            },
            CardBody::Not(u) => {
                assert(kids[0] == *u.card);
                self.process_unary(&u.card, Instruction::Not, f)
            },
            CardBody::Return(u) => {
                assert(kids[0] == *u.card);
                self.process_unary(&u.card, Instruction::Return, f)
            },
            CardBody::Len(u) => {
                assert(kids[0] == *u.card);
                self.process_unary(&u.card, Instruction::Len, f)
            },
            CardBody::PopTable(u) => {
                assert(kids[0] == *u.card);
                self.process_unary(&u.card, Instruction::PopTable, f)
            },
            _ => {
                assert(false);
                Ok(())
            },
        }
    }

    /// Compiles a card that branches, loops or groups cards.
    #[verifier::rlimit(100)]
    #[verifier::spinoff_prover]
    fn process_control(&mut self, card: &'a Card, f: u32) -> (r: Result<(), CompilationError>)
        requires
            old(self).wf(),
            old(self).room(f as nat + 1),
            is_control(*card),
            forall|i: int| 0 <= i < card.children().len() ==> #[trigger] texts_fit(card.children()[i], f as nat),
            own_texts_fit(*card),
        ensures
            kept(*old(self), *final(self)),
            r is Ok ==> final(self).depth() == old(self).depth(),
            r is Ok ==> old(self).emitted().code.len() <= final(self).emitted().code.len(),
            outcome(r, process(old(self).emitted(), old(self).context(), *card, f as nat + 1), final(self).emitted()),
        decreases f + 1, 1nat,
    {
        let ghost kids = card.children();
        match &card.body {
            CardBody::IfTrue(b) => self.process_if(&b[0], &b[1], Instruction::GotoIfFalse, f),
            CardBody::IfFalse(b) => self.process_if(&b[0], &b[1], Instruction::GotoIfTrue, f),
            CardBody::IfElse(t) => {
                assert(kids[0] == t[0] && kids[1] == t[1] && kids[2] == t[2]);
                self.process_if_else(&t[0], &t[1], &t[2], f)
            },
            CardBody::While(b) => self.process_while(&b[0], &b[1], f),
            CardBody::CompositeCard(cc) => self.process_seq(cc.cards.as_slice(), f),
            CardBody::Array(a) => self.process_array(a.as_slice(), f),
            CardBody::Repeat(rp) => {
                assert(kids[0] == rp.n && kids[1] == rp.body);
                self.process_repeat(&rp.n, &rp.i, &rp.body, f)
            },
            CardBody::ForEach(fe) => {
                assert(kids[0] == *fe.iterable && kids[1] == *fe.body);
                self.process_for_each(&fe.iterable, &fe.i, &fe.k, &fe.v, &fe.body, f)
            },
            _ => {
                assert(false);
                Ok(())
            },
        }
    }

    /// Compiles a value, a variable access or a call.
    #[verifier::rlimit(50)]
    fn process_other(&mut self, card: &'a Card, f: u32) -> (r: Result<(), CompilationError>)
        requires
            old(self).wf(),
            old(self).room(f as nat + 1),
            is_other(*card),
            forall|i: int| 0 <= i < card.children().len() ==> #[trigger] texts_fit(card.children()[i], f as nat),
            own_texts_fit(*card),
        ensures
            kept(*old(self), *final(self)),
            r is Ok ==> final(self).depth() == old(self).depth(),
            r is Ok ==> old(self).emitted().code.len() <= final(self).emitted().code.len(),
            outcome(r, process(old(self).emitted(), old(self).context(), *card, f as nat + 1), final(self).emitted()),
        decreases f + 1, 1nat,
    {
        let ghost kids = card.children();
        match &card.body {
            CardBody::ScalarNil => {
                self.emit_op(Instruction::ScalarNil);
                Ok(())
            },
            CardBody::CreateTable => {
                self.emit_op(Instruction::InitTable);
                Ok(())
            },
            CardBody::Abort => {
                self.emit_op(Instruction::Exit);
                Ok(())
            },
            CardBody::Comment(_) => Ok(()),
            CardBody::ScalarInt(x) => {
                self.emit_op(Instruction::ScalarInt);
                self.emit_value(*x);
                Ok(())
            },
            CardBody::ScalarFloat(x) => {
                self.emit_op(Instruction::ScalarFloat);
                self.emit_value(*x);
                Ok(())
            },
            CardBody::StringLiteral(s) => {
                self.emit_op(Instruction::StringLiteral);
                self.emit_text(s.as_str().as_bytes());
                Ok(())
            },
            CardBody::NativeFunction(s) => {
                self.emit_op(Instruction::NativeFunctionPointer);
                self.emit_text(s.as_str().as_bytes());
                Ok(())
            },
            CardBody::ReadVar(s) => self.read_var(s.as_str().as_bytes()),
            CardBody::SetVar(sv) => {
                assert(kids[0] == sv.value);
                match self.process_card(&sv.value, f) {
                    Ok(()) => {},
                    Err(e) => return Err(e),
                }
                self.set_var(sv.name.as_str())
            },
            CardBody::SetGlobalVar(sv) => {
                assert(kids[0] == sv.value);
                match self.process_card(&sv.value, f) {
                    Ok(()) => {},
                    Err(e) => return Err(e),
                }
                self.set_global(sv.name.as_str().as_bytes())
            },
            CardBody::Call(j) => {
                match self.process_seq(j.args.0.as_slice(), f) {
                    Ok(()) => {},
                    Err(e) => return Err(e),
                }
                self.emit_op(Instruction::FunctionPointer);
                match self.encode_jump(&j.function_name) {
                    Ok(()) => {},
                    Err(e) => return Err(e),
                }
                self.emit_op(Instruction::CallFunction);
                Ok(())
            },
            CardBody::Function(name) => {
                self.emit_op(Instruction::FunctionPointer);
                self.encode_jump(name)
            },
            CardBody::CallNative(j) => {
                match self.process_seq(j.args.0.as_slice(), f) {
                    Ok(()) => {},
                    Err(e) => return Err(e),
                }
                self.emit_op(Instruction::CallNative);
                let key = Handle::from_bytes(j.name.as_str().as_bytes());
                self.emit_value(key);
                Ok(())
            },
            CardBody::DynamicCall(j) => {
                assert(kids[0] == j.function);
                assert forall|i: int| 0 <= i < j.args.0@.len() implies #[trigger] texts_fit(
                    j.args.0@[i],
                    f as nat,
                ) by {
                    assert(kids[i + 1] == j.args.0@[i]);
                }
                match self.process_seq(j.args.0.as_slice(), f) {
                    Ok(()) => {},
                    Err(e) => return Err(e),
                }
                self.process_unary(&j.function, Instruction::CallFunction, f)
            },
            CardBody::Closure(_) => Err(self.error(CompilationErrorPayload::Unimplemented("closures"))),

            _ => {
                assert(false);
                Ok(())
            },
        }
    }

    /// Compiles `x` and `y`, then writes `i`.
    fn process_binary(&mut self, x: &'a Card, y: &'a Card, i: Instruction, f: u32) -> (r: Result<(), CompilationError>)
        requires
            old(self).wf(),
            old(self).room(f as nat + 1),
            texts_fit(*x, f as nat),
            texts_fit(*y, f as nat),
        ensures
            kept(*old(self), *final(self)),
            r is Ok ==> final(self).depth() == old(self).depth(),
            r is Ok ==> old(self).emitted().code.len() <= final(self).emitted().code.len(),
            outcome(r, then_op(process_two(old(self).emitted(), *x, *y, rec(old(self).context(), f as nat)), i), final(self).emitted()),
        decreases f + 1, 0nat,
    {
        match self.process_card(x, f) {
            Ok(()) => {},
            Err(e) => return Err(e),
        }
        match self.process_card(y, f) {
            Ok(()) => {},
            Err(e) => return Err(e),
        }
        self.emit_op(i);
        Ok(())
    }

    /// Compiles `x`, `y` and `z`, then writes `i`.
    fn process_ternary(&mut self, x: &'a Card, y: &'a Card, z: &'a Card, i: Instruction, f: u32) -> (r: Result<(), CompilationError>)
        requires
            old(self).wf(),
            old(self).room(f as nat + 1),
            texts_fit(*x, f as nat),
            texts_fit(*y, f as nat),
            texts_fit(*z, f as nat),
        ensures
            kept(*old(self), *final(self)),
            r is Ok ==> final(self).depth() == old(self).depth(),
            r is Ok ==> old(self).emitted().code.len() <= final(self).emitted().code.len(),
            outcome(r, then_op(process_three(old(self).emitted(), *x, *y, *z, rec(old(self).context(), f as nat)), i), final(self).emitted()),
        decreases f + 1, 0nat,
    {
        match self.process_card(x, f) {
            Ok(()) => {},
            Err(e) => return Err(e),
        }
        match self.process_card(y, f) {
            Ok(()) => {},
            Err(e) => return Err(e),
        }
        match self.process_card(z, f) {
            Ok(()) => {},
            Err(e) => return Err(e),
        }
        self.emit_op(i);
        Ok(())
    }

    /// Compiles `x`, then writes `i`.
    fn process_unary(&mut self, x: &'a Card, i: Instruction, f: u32) -> (r: Result<(), CompilationError>)
        requires
            old(self).wf(),
            old(self).room(f as nat + 1),
            texts_fit(*x, f as nat),
        ensures
            kept(*old(self), *final(self)),
            r is Ok ==> final(self).depth() == old(self).depth(),
            r is Ok ==> old(self).emitted().code.len() <= final(self).emitted().code.len(),
            outcome(r, then_op(process(old(self).emitted(), old(self).context(), *x, f as nat), i), final(self).emitted()),
        decreases f + 1, 0nat,
    {
        match self.process_card(x, f) {
            Ok(()) => {},
            Err(e) => return Err(e),
        }
        self.emit_op(i);
        Ok(())
    }

    /// Compiles the cards one after the other.
    fn process_seq(&mut self, cards: &'a [Card], f: u32) -> (r: Result<(), CompilationError>)
        requires
            old(self).wf(),
            old(self).room(f as nat),
            forall|i: int| 0 <= i < cards@.len() ==> #[trigger] texts_fit(cards@[i], f as nat),
        ensures
            kept(*old(self), *final(self)),
            r is Ok ==> final(self).depth() == old(self).depth(),
            r is Ok ==> old(self).emitted().code.len() <= final(self).emitted().code.len(),
            outcome(r, process_seq(old(self).emitted(), cards@, rec(old(self).context(), f as nat)), final(self).emitted()),
        decreases f, cards@.len() + 3,
    {
        let ghost e0 = self.emitted();
        let ghost cx = self.context();
        let mut i: usize = 0;
        assert(cards@.skip(0) =~= cards@);
        while i < cards.len()
            invariant
                i <= cards@.len(),
                kept(*old(self), *self),
                self.depth() == old(self).depth(),
                self.room(f as nat),
                cx == old(self).context(),
                e0 == old(self).emitted(),
                e0.code.len() <= self.emitted().code.len(),
                forall|j: int| 0 <= j < cards@.len() ==> #[trigger] texts_fit(cards@[j], f as nat),
                process_seq(e0, cards@, rec(cx, f as nat)) == process_seq(self.emitted(), cards@.skip(i as int), rec(cx, f as nat)),
            decreases cards@.len() - i,
        {
            let ghost rest = cards@.skip(i as int);
            assert(rest.drop_first() =~= cards@.skip(i + 1));
            assert(rest[0] == cards@[i as int]);
            match self.process_card(&cards[i], f) {
                Ok(()) => {},
                Err(e) => return Err(e),
            }
            i = i + 1;
        }
        assert(cards@.skip(i as int) =~= Seq::<Card>::empty());
        Ok(())
    }

    /// Compiles `cond`, then `body`, which the jump `skip` passes over.
    #[verifier::rlimit(40)]
    fn process_if(&mut self, cond: &'a Card, body: &'a Card, skip: Instruction, f: u32) -> (r: Result<(), CompilationError>)
        requires
            old(self).wf(),
            old(self).room(f as nat + 1),
            texts_fit(*cond, f as nat),
            texts_fit(*body, f as nat),
            skip is GotoIfTrue || skip is GotoIfFalse,
        ensures
            kept(*old(self), *final(self)),
            r is Ok ==> final(self).depth() == old(self).depth(),
            r is Ok ==> old(self).emitted().code.len() <= final(self).emitted().code.len(),
            outcome(r, process_if(old(self).emitted(), *cond, *body, skip, rec(old(self).context(), f as nat)), final(self).emitted()),
        decreases f + 1, 0nat,
    {
        match self.process_card(cond, f) {
            Ok(()) => {},
            Err(e) => return Err(e),
        }
        let idx = self.emit_skip(skip);
        match self.process_card(body, f) {
            Ok(()) => {},
            Err(e) => return Err(e),
        }
        self.emit_patch(idx);
        Ok(())
    }

    /// Compiles `cond`, then `then_card` ending in a jump over `else_card`, then `else_card`.
    #[verifier::rlimit(100)]
    #[verifier::spinoff_prover]
    fn process_if_else(&mut self, cond: &'a Card, then_card: &'a Card, else_card: &'a Card, f: u32) -> (r: Result<(), CompilationError>)
        requires
            old(self).wf(),
            old(self).room(f as nat + 1),
            texts_fit(*cond, f as nat),
            texts_fit(*then_card, f as nat),
            texts_fit(*else_card, f as nat),
        ensures
            kept(*old(self), *final(self)),
            r is Ok ==> final(self).depth() == old(self).depth(),
            r is Ok ==> old(self).emitted().code.len() <= final(self).emitted().code.len(),
            outcome(r, process_if_else(old(self).emitted(), *cond, *then_card, *else_card, rec(old(self).context(), f as nat)), final(self).emitted()),
        decreases f + 1, 0nat,
    {
        match self.process_card(cond, f) {
            Ok(()) => {},
            Err(e) => return Err(e),
        }
        let idx = self.emit_skip(Instruction::GotoIfFalse);
        match self.process_card(then_card, f) {
            Ok(()) => {},
            Err(e) => return Err(e),
        }
        self.emit_op(Instruction::Goto);
        let idx2 = self.program.bytecode.len();
        self.emit_value(0xEEFi32);
        self.emit_patch(idx);
        match self.process_card(else_card, f) {
            Ok(()) => {},
            Err(e) => return Err(e),
        }
        self.emit_patch(idx2);
        Ok(())
    }

    /// Compiles `cond`, then `body` ending in a jump back to `cond`.
    #[verifier::rlimit(40)]
    fn process_while(&mut self, cond: &'a Card, body: &'a Card, f: u32) -> (r: Result<(), CompilationError>)
        requires
            old(self).wf(),
            old(self).room(f as nat + 1),
            texts_fit(*cond, f as nat),
            texts_fit(*body, f as nat),
        ensures
            kept(*old(self), *final(self)),
            r is Ok ==> final(self).depth() == old(self).depth(),
            r is Ok ==> old(self).emitted().code.len() <= final(self).emitted().code.len(),
            outcome(r, process_while(old(self).emitted(), *cond, *body, rec(old(self).context(), f as nat)), final(self).emitted()),
        decreases f + 1, 0nat,
    {
        let begin = self.program.bytecode.len() as i32;
        match self.process_card(cond, f) {
            Ok(()) => {},
            Err(e) => return Err(e),
        }
        let idx = self.emit_skip(Instruction::GotoIfFalse);
        match self.process_card(body, f) {
            Ok(()) => {},
            Err(e) => return Err(e),
        }
        self.emit_op(Instruction::Goto);
        self.emit_value(begin);
        self.emit_patch(idx);
        Ok(())
    }

    /// Compiles a table of the results of `cards`.
    fn process_array(&mut self, cards: &'a [Card], f: u32) -> (r: Result<(), CompilationError>)
        requires
            old(self).wf(),
            old(self).room(f as nat + 1),
            forall|i: int| 0 <= i < cards@.len() ==> #[trigger] texts_fit(cards@[i], f as nat),
        ensures
            kept(*old(self), *final(self)),
            r is Ok ==> final(self).depth() == old(self).depth(),
            r is Ok ==> old(self).emitted().code.len() <= final(self).emitted().code.len(),
            outcome(r, process_array(old(self).emitted(), cards@, rec(old(self).context(), f as nat)), final(self).emitted()),
        decreases f + 1, 0nat,
    {
        let ghost cx = self.context();
        self.emit_op(Instruction::InitTable);
        let tv = match self.declare_anon() {
            Ok(tv) => tv,
            Err(e) => return Err(e),
        };
        self.emit_write_local(tv);
        let ghost e0 = self.emitted();
        let ghost start = old(self).emitted();
        let mut i: usize = 0;
        assert(cards@.skip(0) =~= cards@);
        while i < cards.len()
            invariant
                i <= cards@.len(),
                kept(*old(self), *self),
                self.depth() == old(self).depth(),
                self.room(f as nat + 1),
                cx == old(self).context(),
                start == old(self).emitted(),
                start.code.len() <= e0.code.len() <= self.emitted().code.len(),
                declare(op(start, Instruction::InitTable), Seq::empty()) matches Ok((e1, t)) && t == tv
                    && write_local(e1, tv) == e0,
                forall|j: int| 0 <= j < cards@.len() ==> #[trigger] texts_fit(cards@[j], f as nat),
                array_items(e0, cards@, tv, rec(cx, f as nat)) == array_items(self.emitted(), cards@.skip(i as int), tv, rec(cx, f as nat)),
            decreases cards@.len() - i,
        {
            let ghost rest = cards@.skip(i as int);
            assert(rest.drop_first() =~= cards@.skip(i + 1));
            assert(rest[0] == cards@[i as int]);
            self.emit_op(Instruction::ScalarNil);
            match self.process_card(&cards[i], f) {
                Ok(()) => {},
                Err(e) => return Err(e),
            }
            self.emit_read_local(tv);
            self.emit_op(Instruction::AppendTable);
            i = i + 1;
        }
        assert(cards@.skip(i as int) =~= Seq::<Card>::empty());
        self.emit_read_local(tv);
        Ok(())
    }

    /// Declares the named loop local, if there is one.
    fn declare_some(&mut self, name: &'a Option<String>) -> (r: Result<Option<u32>, CompilationError>)
        requires
            old(self).wf(),
        ensures
            kept(*old(self), *final(self)),
            final(self).depth() == old(self).depth(),
            match declare_some(old(self).emitted(), *name) {
                Ok((e, x)) => r == Ok::<Option<u32>, CompilationError>(x) && final(self).emitted() == e,
                Err(p) => r matches Err(y) && y.payload == p,
            },
    {
        match name {
            Some(s) => match self.declare_named(s.as_str()) {
                Ok(x) => Ok(Some(x)),
                Err(e) => Err(e),
            },
            None => Ok(None),
        }
    }

    /// Compiles `n`, then `body` repeated that many times.
    fn process_repeat(&mut self, n: &'a Card, i: &'a Option<String>, body: &'a Card, f: u32) -> (r: Result<(), CompilationError>)
        requires
            old(self).wf(),
            old(self).room(f as nat + 1),
            texts_fit(*n, f as nat),
            texts_fit(*body, f as nat),
        ensures
            kept(*old(self), *final(self)),
            r is Ok ==> final(self).depth() == old(self).depth(),
            r is Ok ==> old(self).emitted().code.len() <= final(self).emitted().code.len(),
            outcome(r, process_repeat(old(self).emitted(), *n, *i, *body, rec(old(self).context(), f as nat)), final(self).emitted()),
        decreases f + 1, 0nat,
    {
        match self.process_card(n, f) {
            Ok(()) => {},
            Err(e) => return Err(e),
        }
        self.open_scope();
        let ni = match self.declare_anon() {
            Ok(x) => x,
            Err(e) => return Err(e),
        };
        let ci = match self.declare_anon() {
            Ok(x) => x,
            Err(e) => return Err(e),
        };
        let ii = match self.declare_some(i) {
            Ok(x) => x,
            Err(e) => return Err(e),
        };
        self.emit_write_local(ni);
        self.emit_op(Instruction::ScalarInt);
        self.emit_value(0i64);
        self.emit_write_local(ci);
        let begin = self.program.bytecode.len() as i32;
        self.emit_read_local(ci);
        self.emit_read_local(ni);
        self.emit_op(Instruction::Less);
        let idx = self.emit_skip(Instruction::GotoIfFalse);
        match ii {
            Some(x) => {
                self.emit_read_local(ci);
                self.emit_write_local(x);
            },
            None => {},
        }
        match self.process_card(body, f) {
            Ok(()) => {},
            Err(e) => return Err(e),
        }
        self.emit_op(Instruction::ScalarInt);
        self.emit_value(1i64);
        self.emit_read_local(ci);
        self.emit_op(Instruction::Add);
        self.emit_write_local(ci);
        self.emit_op(Instruction::Goto);
        self.emit_value(begin);
        self.emit_patch(idx);
        self.close_scope();
        Ok(())
    }

    /// Compiles `iterable`, then `body` run for each of its entries.
    #[verifier::rlimit(60)]
    fn process_for_each(
        &mut self,
        iterable: &'a Card,
        i: &'a Option<String>,
        k: &'a Option<String>,
        v: &'a Option<String>,
        body: &'a Card,
        f: u32,
    ) -> (r: Result<(), CompilationError>)
        requires
            old(self).wf(),
            old(self).room(f as nat + 1),
            texts_fit(*iterable, f as nat),
            texts_fit(*body, f as nat),
        ensures
            kept(*old(self), *final(self)),
            r is Ok ==> final(self).depth() == old(self).depth(),
            r is Ok ==> old(self).emitted().code.len() <= final(self).emitted().code.len(),
            outcome(r, process_for_each(old(self).emitted(), *iterable, *i, *k, *v, *body, rec(old(self).context(), f as nat)), final(self).emitted()),
        decreases f + 1, 0nat,
    {
        match self.process_card(iterable, f) {
            Ok(()) => {},
            Err(e) => return Err(e),
        }
        self.open_scope();
        let lv = match self.declare_anon() {
            Ok(x) => x,
            Err(e) => return Err(e),
        };
        let li = match self.declare_anon() {
            Ok(x) => x,
            Err(e) => return Err(e),
        };
        let vi = match self.declare_opt(v) {
            Ok(x) => x,
            Err(e) => return Err(e),
        };
        let ki = match self.declare_opt(k) {
            Ok(x) => x,
            Err(e) => return Err(e),
        };
        let ii = match self.declare_opt(i) {
            Ok(x) => x,
            Err(e) => return Err(e),
        };
        self.emit_op(Instruction::BeginForEach);
        self.emit_value(lv);
        self.emit_value(li);
        let begin = self.program.bytecode.len() as i32;
        self.emit_op(Instruction::ForEach);
        self.emit_value(lv);
        self.emit_value(li);
        self.emit_value(ii);
        self.emit_value(ki);
        self.emit_value(vi);
        let idx = self.emit_skip(Instruction::GotoIfFalse);
        match self.process_card(body, f) {
            Ok(()) => {},
            Err(e) => return Err(e),
        }
        self.emit_op(Instruction::Goto);
        self.emit_value(begin);
        self.emit_patch(idx);
        self.close_scope();
        Ok(())
    }
}

} // verus!
