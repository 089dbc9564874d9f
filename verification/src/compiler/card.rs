//! The cards that programs are made of: a tree of operations.
use vstd::prelude::*;
use crate::disassembly::name_marks;
use std::collections::hash_map::RandomState;
use std::hash::BuildHasher;

verus! {

broadcast use vstd::array::group_array_axioms;

/// Identifies a card.
#[derive(Default, Debug, Clone, Hash, PartialEq, Eq, PartialOrd, Ord)]
pub struct CardId(pub u64);

/// A fresh `RandomState`; std initializes it with random keys, which differ from call to call.
/// Nothing is stated of the keys.
#[verifier::external_body]
fn new_random_state() -> (r: RandomState) {
    RandomState::new()
}

/// The hash of `()` under the keys of `state` (`BuildHasher::hash_one`). Nothing is stated of
/// the result: it depends on the random keys.
#[verifier::external_body]
fn hash_unit(state: &RandomState) -> (r: u64) {
    state.hash_one(())
}

/// A random id for a new card.
fn random_id() -> CardId {
    let state = new_random_state();
    CardId(hash_unit(&state))
}

/// A node of a program: an id and what the card does.
#[derive(Default, Debug)]
pub struct Card {
    pub id: CardId,
    pub body: CardBody,
}

/// What a card does, with its children.
///
/// A float scalar is held as the bits of its `f64`.
#[derive(Default, Debug)]
pub enum CardBody {
    Add(Box<[Card; 2]>),
    Sub(Box<[Card; 2]>),
    Mul(Box<[Card; 2]>),
    Div(Box<[Card; 2]>),
    Less(Box<[Card; 2]>),
    LessOrEq(Box<[Card; 2]>),
    Equals(Box<[Card; 2]>),
    NotEquals(Box<[Card; 2]>),
    And(Box<[Card; 2]>),
    Or(Box<[Card; 2]>),
    Xor(Box<[Card; 2]>),
    Not(UnaryExpression),
    Return(UnaryExpression),
    #[default]
    ScalarNil,
    CreateTable,
    Abort,
    Len(UnaryExpression),
    /// Insert value at key into the table: `[Value, Table, Key]`
    SetProperty(Box<[Card; 3]>),
    /// `[Table, Key]`
    GetProperty(Box<[Card; 2]>),
    ScalarInt(i64),
    ScalarFloat(u64),
    StringLiteral(String),
    CallNative(Box<CallNode>),
    /// Children: `[condition, then]`
    IfTrue(Box<[Card; 2]>),
    /// Children: `[condition, else]`
    IfFalse(Box<[Card; 2]>),
    /// Children: `[condition, then, else]`
    IfElse(Box<[Card; 3]>),
    /// Calls the function of the given name.
    Call(Box<StaticJump>),
    /// A pointer to the cao-lang function of the given name.
    Function(String),
    /// A pointer to the native function of the given name.
    NativeFunction(String),
    SetGlobalVar(Box<SetVar>),
    SetVar(Box<SetVar>),
    ReadVar(String),
    /// Repeats the `body` N times.
    Repeat(Box<Repeat>),
    /// Children: `[condition, body]`
    While(Box<[Card; 2]>),
    ForEach(Box<ForEach>),
    /// A single card that decomposes into multiple cards.
    CompositeCard(Box<CompositeCard>),
    /// Jumps to the function on the top of the stack.
    DynamicCall(Box<DynamicJump>),
    /// Gets the given integer row of a table: `[Table, Index]`
    Get(Box<[Card; 2]>),
    /// `[Value, Table]`
    AppendTable(Box<[Card; 2]>),
    PopTable(UnaryExpression),
    /// A table of the results of the given cards.
    Array(Vec<Card>),
    Closure(Box<Function>),
    Comment(String),
}

/// Writes a value into a variable.
#[derive(Debug, Default)]
pub struct SetVar {
    pub name: String,
    pub value: Card,
}

/// Arguments of a call.
#[derive(Debug, Default)]
pub struct Arguments(pub Vec<Card>);

/// A call of the function that a card evaluates to.
#[derive(Debug, Default)]
pub struct DynamicJump {
    pub args: Arguments,
    pub function: Card,
}

/// A call of a function by name.
#[derive(Debug, Default)]
pub struct StaticJump {
    pub args: Arguments,
    pub function_name: String,
}

/// Iterates over a table.
#[derive(Debug, Default)]
pub struct ForEach {
    /// The loop counter is written into this variable.
    pub i: Option<String>,
    /// The key is written into this variable.
    pub k: Option<String>,
    /// The value is written into this variable.
    pub v: Option<String>,
    /// The table iterated over.
    pub iterable: Box<Card>,
    pub body: Box<Card>,
}

/// A call of a native function.
#[derive(Debug, Default)]
pub struct CallNode {
    pub name: String,
    pub args: Arguments,
}

/// A card that stands for several cards.
#[derive(Debug, Default)]
pub struct CompositeCard {
    /// Metadata of the implementation.
    pub ty: String,
    pub cards: Vec<Card>,
}

/// A card with a single child.
#[derive(Debug, Default)]
pub struct UnaryExpression {
    pub card: Box<Card>,
}

/// Repeats the `body` N times.
#[derive(Debug, Default)]
pub struct Repeat {
    /// The loop counter is written into this variable.
    pub i: Option<String>,
    pub n: Card,
    pub body: Card,
}

/// `a` and `b` have the same id and the same number of children, and are the same kind of card
/// with the same data apart from their children.
pub open spec fn same_frame(a: Card, b: Card) -> bool {
    &&& same_kind(a, b)
    &&& a.children().len() == b.children().len()
}

/// `a` and `b` have the same id and are the same kind of card with the same data, apart from
/// their children.
pub open spec fn same_kind(a: Card, b: Card) -> bool {
    &&& a.id == b.id
    &&& match (a.body, b.body) {
        (CardBody::Add(_), CardBody::Add(_)) => true,
        (CardBody::Sub(_), CardBody::Sub(_)) => true,
        (CardBody::Mul(_), CardBody::Mul(_)) => true,
        (CardBody::Div(_), CardBody::Div(_)) => true,
        (CardBody::Less(_), CardBody::Less(_)) => true,
        (CardBody::LessOrEq(_), CardBody::LessOrEq(_)) => true,
        (CardBody::Equals(_), CardBody::Equals(_)) => true,
        (CardBody::NotEquals(_), CardBody::NotEquals(_)) => true,
        (CardBody::And(_), CardBody::And(_)) => true,
        (CardBody::Or(_), CardBody::Or(_)) => true,
        (CardBody::Xor(_), CardBody::Xor(_)) => true,
        (CardBody::Not(_), CardBody::Not(_)) => true,
        (CardBody::Return(_), CardBody::Return(_)) => true,
        (CardBody::ScalarNil, CardBody::ScalarNil) => true,
        (CardBody::CreateTable, CardBody::CreateTable) => true,
        (CardBody::Abort, CardBody::Abort) => true,
        (CardBody::Len(_), CardBody::Len(_)) => true,
        (CardBody::SetProperty(_), CardBody::SetProperty(_)) => true,
        (CardBody::GetProperty(_), CardBody::GetProperty(_)) => true,
        (CardBody::ScalarInt(x), CardBody::ScalarInt(y)) => x == y,
        (CardBody::ScalarFloat(x), CardBody::ScalarFloat(y)) => x == y,
        (CardBody::StringLiteral(x), CardBody::StringLiteral(y)) => x == y,
        (CardBody::CallNative(x), CardBody::CallNative(y)) => x.name == y.name,
        (CardBody::IfTrue(_), CardBody::IfTrue(_)) => true,
        (CardBody::IfFalse(_), CardBody::IfFalse(_)) => true,
        (CardBody::IfElse(_), CardBody::IfElse(_)) => true,
        (CardBody::Call(x), CardBody::Call(y)) => x.function_name == y.function_name,
        (CardBody::Function(x), CardBody::Function(y)) => x == y,
        (CardBody::NativeFunction(x), CardBody::NativeFunction(y)) => x == y,
        (CardBody::SetGlobalVar(x), CardBody::SetGlobalVar(y)) => x.name == y.name,
        (CardBody::SetVar(x), CardBody::SetVar(y)) => x.name == y.name,
        (CardBody::ReadVar(x), CardBody::ReadVar(y)) => x == y,
        (CardBody::Repeat(x), CardBody::Repeat(y)) => x.i == y.i,
        (CardBody::While(_), CardBody::While(_)) => true,
        (CardBody::ForEach(x), CardBody::ForEach(y)) => x.i == y.i && x.k == y.k && x.v == y.v,
        (CardBody::CompositeCard(x), CardBody::CompositeCard(y)) => x.ty == y.ty,
        (CardBody::DynamicCall(_), CardBody::DynamicCall(_)) => true,
        (CardBody::Get(_), CardBody::Get(_)) => true,
        (CardBody::AppendTable(_), CardBody::AppendTable(_)) => true,
        (CardBody::PopTable(_), CardBody::PopTable(_)) => true,
        (CardBody::Array(_), CardBody::Array(_)) => true,
        (CardBody::Closure(x), CardBody::Closure(y)) => x.arguments@ == y.arguments@,
        (CardBody::Comment(x), CardBody::Comment(y)) => x == y,
        _ => false,
    }
}

/// The children of a card whose children are the elements of a list: the items of a
/// composite card, a closure or an array, and the arguments of a call.
pub open spec fn is_list_card(c: Card) -> bool {
    match c.body {
        CardBody::CompositeCard(_) | CardBody::Closure(_) | CardBody::CallNative(_)
        | CardBody::Call(_) | CardBody::Array(_) => true,
        _ => false,
    }
}

impl Card {
    /// The children of the card, in order.
    pub open spec fn children(&self) -> Seq<Card> {
        match self.body {
            CardBody::Add(b) => seq![b[0], b[1]],
            CardBody::Sub(b) => seq![b[0], b[1]],
            CardBody::Mul(b) => seq![b[0], b[1]],
            CardBody::Div(b) => seq![b[0], b[1]],
            CardBody::Less(b) => seq![b[0], b[1]],
            CardBody::LessOrEq(b) => seq![b[0], b[1]],
            CardBody::Equals(b) => seq![b[0], b[1]],
            CardBody::NotEquals(b) => seq![b[0], b[1]],
            CardBody::And(b) => seq![b[0], b[1]],
            CardBody::Or(b) => seq![b[0], b[1]],
            CardBody::Xor(b) => seq![b[0], b[1]],
            CardBody::GetProperty(b) => seq![b[0], b[1]],
            CardBody::IfTrue(b) => seq![b[0], b[1]],
            CardBody::IfFalse(b) => seq![b[0], b[1]],
            CardBody::While(b) => seq![b[0], b[1]],
            CardBody::Get(b) => seq![b[0], b[1]],
            CardBody::AppendTable(b) => seq![b[0], b[1]],
            CardBody::Not(u) => seq![*u.card],
            CardBody::Return(u) => seq![*u.card],
            CardBody::Len(u) => seq![*u.card],
            CardBody::PopTable(u) => seq![*u.card],
            CardBody::SetProperty(t) => seq![t[0], t[1], t[2]],
            CardBody::IfElse(t) => seq![t[0], t[1], t[2]],
            CardBody::CallNative(c) => c.args.0@,
            CardBody::Call(c) => c.args.0@,
            CardBody::SetGlobalVar(s) => seq![s.value],
            CardBody::SetVar(s) => seq![s.value],
            CardBody::Repeat(r) => seq![r.n, r.body],
            CardBody::ForEach(f) => seq![*f.iterable, *f.body],
            CardBody::CompositeCard(c) => c.cards@,
            CardBody::DynamicCall(c) => seq![c.function] + c.args.0@,
            CardBody::Array(a) => a@,
            CardBody::Closure(c) => c.cards@,
            _ => Seq::empty(),
        }
    }

    /// The display name of the card.
    pub open spec fn spec_name(&self) -> Seq<char> {
        match self.body {
            CardBody::SetVar(_) => "SetVar"@,
            CardBody::Add(_) => "Add"@,
            CardBody::Sub(_) => "Sub"@,
            CardBody::CreateTable => "CreateTable"@,
            CardBody::Mul(_) => "Mul"@,
            CardBody::Div(_) => "Div"@,
            CardBody::Not(_) => "Not"@,
            CardBody::Less(_) => "Less"@,
            CardBody::LessOrEq(_) => "LessOrEq"@,
            CardBody::Equals(_) => "Equals"@,
            CardBody::NotEquals(_) => "NotEquals"@,
            CardBody::And(_) => "And"@,
            CardBody::Or(_) => "Either"@,
            CardBody::Xor(_) => "Exclusive Or"@,
            CardBody::Abort => "Abort"@,
            CardBody::Len(_) => "Len"@,
            CardBody::ScalarInt(_) => "ScalarInt"@,
            CardBody::ScalarFloat(_) => "ScalarFloat"@,
            CardBody::StringLiteral(_) => "StringLiteral"@,
            CardBody::CallNative(_) => "Call Native Function"@,
            CardBody::IfTrue(_) => "IfTrue"@,
            CardBody::IfFalse(_) => "IfFalse"@,
            CardBody::Call(_) => "Call Function"@,
            CardBody::SetGlobalVar(_) => "SetGlobalVar"@,
            CardBody::ReadVar(_) => "ReadVar"@,
            CardBody::ScalarNil => "ScalarNil"@,
            CardBody::Return(_) => "Return"@,
            CardBody::Repeat(_) => "Repeat"@,
            CardBody::While(_) => "While"@,
            CardBody::IfElse(_) => "IfElse"@,
            CardBody::GetProperty(_) => "GetProperty"@,
            CardBody::SetProperty(_) => "SetProperty"@,
            CardBody::ForEach(_) => "ForEach"@,
            CardBody::CompositeCard(c) => c.ty@,
            CardBody::Function(_) => "Function"@,
            CardBody::DynamicCall(_) => "Call"@,
            CardBody::Get(_) => "Get"@,
            CardBody::AppendTable(_) => "Append to Table"@,
            CardBody::PopTable(_) => "Pop from Table"@,
            CardBody::Array(_) => "Array"@,
            CardBody::NativeFunction(_) => "Native Function"@,
            CardBody::Closure(_) => "Closure"@,
            CardBody::Comment(_) => "Comment"@,
        }
    }

    /// A card of the given body, with a random id.
    pub fn new(body: CardBody) -> (r: Card)
        ensures
            r.body == body,
    {
        Card { id: random_id(), body }
    }

    /// The display name of the card.
    pub fn name(&self) -> (r: &str)
        ensures
            r@ == self.spec_name(),
    {
        match &self.body {
            CardBody::SetVar(_) => "SetVar",
            CardBody::Add(_) => "Add",
            CardBody::Sub(_) => "Sub",
            CardBody::CreateTable => "CreateTable",
            CardBody::Mul(_) => "Mul",
            CardBody::Div(_) => "Div",
            CardBody::Not(_) => "Not",
            CardBody::Less(_) => "Less",
            CardBody::LessOrEq(_) => "LessOrEq",
            CardBody::Equals(_) => "Equals",
            CardBody::NotEquals(_) => "NotEquals",
            CardBody::And(_) => "And",
            CardBody::Or(_) => "Either",
            CardBody::Xor(_) => "Exclusive Or",
            CardBody::Abort => "Abort",
            CardBody::Len(_) => "Len",
            CardBody::ScalarInt(_) => "ScalarInt",
            CardBody::ScalarFloat(_) => "ScalarFloat",
            CardBody::StringLiteral(_) => "StringLiteral",
            CardBody::CallNative(_) => "Call Native Function",
            CardBody::IfTrue(_) => "IfTrue",
            CardBody::IfFalse(_) => "IfFalse",
            CardBody::Call(_) => "Call Function",
            CardBody::SetGlobalVar(_) => "SetGlobalVar",
            CardBody::ReadVar(_) => "ReadVar",
            CardBody::ScalarNil => "ScalarNil",
            CardBody::Return(_) => "Return",
            CardBody::Repeat(_) => "Repeat",
            CardBody::While(_) => "While",
            CardBody::IfElse(_) => "IfElse",
            CardBody::GetProperty(_) => "GetProperty",
            CardBody::SetProperty(_) => "SetProperty",
            CardBody::ForEach(_) => "ForEach",
            CardBody::CompositeCard(c) => c.ty.as_str(),
            CardBody::Function(_) => "Function",
            CardBody::DynamicCall(_) => "Call",
            CardBody::Get(_) => "Get",
            CardBody::AppendTable(_) => "Append to Table",
            CardBody::PopTable(_) => "Pop from Table",
            CardBody::Array(_) => "Array",
            CardBody::NativeFunction(_) => "Native Function",
            CardBody::Closure(_) => "Closure",
            CardBody::Comment(_) => "Comment",
        }
    }

    /// The number of children, truncated to 32 bits.
    pub fn num_children(&self) -> (r: u32)
        ensures
            r == self.children().len() % 0x1_0000_0000,
    {
        match &self.body {
            CardBody::Add(_) | CardBody::Sub(_) | CardBody::Mul(_) | CardBody::Div(_)
            | CardBody::Less(_) | CardBody::LessOrEq(_) | CardBody::Equals(_)
            | CardBody::NotEquals(_) | CardBody::And(_) | CardBody::Or(_)
            | CardBody::GetProperty(_) | CardBody::IfTrue(_) | CardBody::IfFalse(_)
            | CardBody::While(_) | CardBody::Get(_) | CardBody::AppendTable(_)
            | CardBody::Xor(_) => 2,
            CardBody::PopTable(_) | CardBody::Len(_) | CardBody::Not(_)
            | CardBody::Return(_) => 1,
            CardBody::ScalarInt(_) | CardBody::ScalarFloat(_) | CardBody::StringLiteral(_)
            | CardBody::Comment(_) | CardBody::Function(_) | CardBody::CreateTable
            | CardBody::ReadVar(_) | CardBody::NativeFunction(_) | CardBody::Abort
            | CardBody::ScalarNil => 0,
            CardBody::IfElse(_) | CardBody::SetProperty(_) => 3,
            CardBody::CallNative(c) => len_u32(c.args.0.len()),
            CardBody::Call(c) => len_u32(c.args.0.len()),
            CardBody::SetGlobalVar(_) | CardBody::SetVar(_) => 1,
            CardBody::Repeat(_) => 2,
            CardBody::ForEach(_) => 2,
            CardBody::CompositeCard(c) => len_u32(c.cards.len()),
            CardBody::DynamicCall(c) => {
                let n = len_u32(c.args.0.len());
                if n == 0xffff_ffff {
                    0
                } else {
                    1 + n
                }
            },
            CardBody::Array(a) => len_u32(a.len()),
            CardBody::Closure(c) => len_u32(c.cards.len()),
        }
    }
}

/// A cao-lang function: its argument names and its cards.
#[derive(Debug, Default)]
pub struct Function {
    pub arguments: Vec<String>,
    pub cards: Vec<Card>,
}

impl Function {
    /// Adds an argument.
    pub fn with_arg(self, name: &str) -> (r: Self)
        ensures
            r.arguments@.len() == self.arguments@.len() + 1,
            r.arguments@.drop_last() == self.arguments@,
            r.arguments@.last()@ == name@,
            r.cards@ == self.cards@,
    {
        let mut this = self;
        let name = name.to_string();
        this.arguments.push(name);
        this
    }

    /// Adds a card.
    pub fn with_card(self, card: Card) -> (r: Self)
        ensures
            r.arguments@ == self.arguments@,
            r.cards@ == self.cards@.push(card),
    {
        let mut this = self;
        this.cards.push(card);
        this
    }

    /// Replaces the cards.
    pub fn with_cards(self, cards: Vec<Card>) -> (r: Self)
        ensures
            r.arguments@ == self.arguments@,
            r.cards@ == cards@,
    {
        let mut this = self;
        this.cards = cards;
        this
    }
}

/// The children that `remove_child` takes out of the list they are in, rather than replace.
pub open spec fn removes_child(c: Card, i: int) -> bool {
    is_list_card(c) || (c.body is DynamicCall && i >= 1)
}

/// What `remove_child` leaves in place of child `i` when it does not take it out of a list.
pub open spec fn placeholder_body(c: Card, i: int) -> CardBody {
    if c.body is Repeat && i == 0 {
        CardBody::ScalarInt(0)
    } else {
        CardBody::ScalarNil
    }
}

/// `p2` is `p` after taking out child `i` as `remove_child` does: removed from a list, or
/// replaced by a placeholder.
pub open spec fn child_removed(p: Card, p2: Card, i: int) -> bool {
    &&& removes_child(p, i) ==> same_kind(p2, p) && p2.children() == p.children().remove(i)
    &&& !removes_child(p, i) ==> {
        &&& same_frame(p2, p)
        &&& p2.children() == p.children().update(i, p2.children()[i])
        &&& p2.children()[i].body == placeholder_body(p, i)
    }
}

/// `p2` is `p` after `insert_child(i, card)` succeeded.
pub open spec fn child_inserted(p: Card, p2: Card, i: int, card: Card) -> bool {
    &&& inserts_child(p, i) ==> same_kind(p2, p) && p2.children() == p.children().insert(i, card)
    &&& replaces_child(p, i) ==> same_frame(p2, p) && p2.children() == p.children().update(i, card)
}

/// `insert_child` inserts the new card at index `i`, moving the following children.
pub open spec fn inserts_child(c: Card, i: int) -> bool {
    ||| is_list_card(c) && 0 <= i <= c.children().len() && !(c.body is CallNative) && !(c.body is Call)
    ||| (c.body is CallNative || c.body is Call) && 0 <= i <= c.children().len()
    ||| c.body is DynamicCall && 1 <= i <= c.children().len()
}

/// `insert_child` replaces child `i` with the new card.
pub open spec fn replaces_child(c: Card, i: int) -> bool {
    &&& !is_list_card(c)
    &&& !(c.body is DynamicCall && i >= 1)
    &&& 0 <= i < c.children().len()
}

impl Card {
    /// The number of children.
    fn child_count(&self) -> (r: usize)
        requires
            self.children().len() <= usize::MAX,
        ensures
            r == self.children().len(),
    {
        match &self.body {
            CardBody::Add(_) | CardBody::Sub(_) | CardBody::Mul(_) | CardBody::Div(_)
            | CardBody::Less(_) | CardBody::LessOrEq(_) | CardBody::Equals(_)
            | CardBody::NotEquals(_) | CardBody::And(_) | CardBody::Or(_)
            | CardBody::GetProperty(_) | CardBody::IfTrue(_) | CardBody::IfFalse(_)
            | CardBody::While(_) | CardBody::Get(_) | CardBody::AppendTable(_)
            | CardBody::Xor(_) | CardBody::Repeat(_) | CardBody::ForEach(_) => 2,
            CardBody::PopTable(_) | CardBody::Len(_) | CardBody::Not(_) | CardBody::Return(_)
            | CardBody::SetGlobalVar(_) | CardBody::SetVar(_) => 1,
            CardBody::IfElse(_) | CardBody::SetProperty(_) => 3,
            CardBody::CallNative(c) => c.args.0.len(),
            CardBody::Call(c) => c.args.0.len(),
            CardBody::CompositeCard(c) => c.cards.len(),
            CardBody::DynamicCall(c) => 1 + c.args.0.len(),
            CardBody::Array(a) => a.len(),
            CardBody::Closure(c) => c.cards.len(),
            _ => 0,
        }
    }

    /// The child at index `i`.
    pub fn get_child(&self, i: usize) -> (r: Option<&Card>)
        ensures
            r is Some == (i < self.children().len()),
            r matches Some(c) ==> *c == self.children()[i as int],
    {
        match &self.body {
            CardBody::CompositeCard(c) => if i < c.cards.len() { Some(&c.cards[i]) } else { None },
            CardBody::Closure(c) => if i < c.cards.len() { Some(&c.cards[i]) } else { None },
            CardBody::Repeat(rep) => match i {
                0 => Some(&rep.n),
                1 => Some(&rep.body),
                _ => None,
            },
            CardBody::ForEach(fe) => match i {
                0 => Some(&*fe.iterable),
                1 => Some(&*fe.body),
                _ => None,
            },
            CardBody::IfElse(t) | CardBody::SetProperty(t) => if i < 3 { Some(&t[i]) } else { None },
            CardBody::IfTrue(b) | CardBody::IfFalse(b) | CardBody::While(b) | CardBody::Add(b)
            | CardBody::Sub(b) | CardBody::Mul(b) | CardBody::Div(b) | CardBody::Less(b)
            | CardBody::LessOrEq(b) | CardBody::Equals(b) | CardBody::NotEquals(b)
            | CardBody::And(b) | CardBody::Or(b) | CardBody::Xor(b) | CardBody::AppendTable(b)
            | CardBody::Get(b) | CardBody::GetProperty(b) => if i < 2 { Some(&b[i]) } else { None },
            CardBody::PopTable(u) | CardBody::Not(u) | CardBody::Return(u) | CardBody::Len(u) => {
                if i == 0 { Some(&*u.card) } else { None }
            },
            CardBody::SetGlobalVar(sv) | CardBody::SetVar(sv) => {
                if i == 0 { Some(&sv.value) } else { None }
            },
            CardBody::CallNative(j) => if i < j.args.0.len() { Some(&j.args.0[i]) } else { None },
            CardBody::Call(j) => if i < j.args.0.len() { Some(&j.args.0[i]) } else { None },
            CardBody::DynamicCall(j) => {
                if i == 0 {
                    Some(&j.function)
                } else if i - 1 < j.args.0.len() {
                    Some(&j.args.0[i - 1])
                } else {
                    None
                }
            },
            CardBody::Array(cards) => if i < cards.len() { Some(&cards[i]) } else { None },
            CardBody::Function(_) | CardBody::NativeFunction(_) | CardBody::ReadVar(_)
            | CardBody::ScalarInt(_) | CardBody::ScalarFloat(_) | CardBody::StringLiteral(_)
            | CardBody::Comment(_) | CardBody::ScalarNil | CardBody::CreateTable
            | CardBody::Abort => None,
        }
    }

    /// Mutable access to the child at index `i`. Writing through the returned reference
    /// changes that child and nothing else.
    pub fn get_child_mut(&mut self, i: usize) -> (r: Option<&mut Card>)
        ensures
            r is Some == (i < old(self).children().len()),
            r matches Some(c) ==> *c == old(self).children()[i as int],
            r matches Some(c) ==> same_frame(*final(self), *old(self)) && final(self).children()
                == old(self).children().update(i as int, *final(c)),
            r is None ==> *final(self) == *old(self),
    {
        match &mut self.body {
            CardBody::CompositeCard(c) => if i < c.cards.len() { Some(&mut c.cards[i]) } else { None },
            CardBody::Closure(c) => if i < c.cards.len() { Some(&mut c.cards[i]) } else { None },
            CardBody::Repeat(rep) => match i {
                0 => Some(&mut rep.n),
                1 => Some(&mut rep.body),
                _ => None,
            },
            CardBody::ForEach(fe) => match i {
                0 => Some(&mut *fe.iterable),
                1 => Some(&mut *fe.body),
                _ => None,
            },
            CardBody::IfElse(t) => if i < 3 { Some(&mut t[i]) } else { None },
            CardBody::SetProperty(t) => if i < 3 { Some(&mut t[i]) } else { None },
            CardBody::IfTrue(b) => if i < 2 { Some(&mut b[i]) } else { None },
            CardBody::IfFalse(b) => if i < 2 { Some(&mut b[i]) } else { None },
            CardBody::While(b) => if i < 2 { Some(&mut b[i]) } else { None },
            CardBody::Add(b) => if i < 2 { Some(&mut b[i]) } else { None },
            CardBody::Sub(b) => if i < 2 { Some(&mut b[i]) } else { None },
            CardBody::Mul(b) => if i < 2 { Some(&mut b[i]) } else { None },
            CardBody::Div(b) => if i < 2 { Some(&mut b[i]) } else { None },
            CardBody::Less(b) => if i < 2 { Some(&mut b[i]) } else { None },
            CardBody::LessOrEq(b) => if i < 2 { Some(&mut b[i]) } else { None },
            CardBody::Equals(b) => if i < 2 { Some(&mut b[i]) } else { None },
            CardBody::NotEquals(b) => if i < 2 { Some(&mut b[i]) } else { None },
            CardBody::And(b) => if i < 2 { Some(&mut b[i]) } else { None },
            CardBody::Or(b) => if i < 2 { Some(&mut b[i]) } else { None },
            CardBody::Xor(b) => if i < 2 { Some(&mut b[i]) } else { None },
            CardBody::AppendTable(b) => if i < 2 { Some(&mut b[i]) } else { None },
            CardBody::Get(b) => if i < 2 { Some(&mut b[i]) } else { None },
            CardBody::GetProperty(b) => if i < 2 { Some(&mut b[i]) } else { None },
            CardBody::PopTable(u) => if i == 0 { Some(&mut *u.card) } else { None },
            CardBody::Not(u) => if i == 0 { Some(&mut *u.card) } else { None },
            CardBody::Return(u) => if i == 0 { Some(&mut *u.card) } else { None },
            CardBody::Len(u) => if i == 0 { Some(&mut *u.card) } else { None },
            CardBody::SetGlobalVar(sv) => if i == 0 { Some(&mut sv.value) } else { None },
            CardBody::SetVar(sv) => if i == 0 { Some(&mut sv.value) } else { None },
            CardBody::CallNative(j) => if i < j.args.0.len() { Some(&mut j.args.0[i]) } else { None },
            CardBody::Call(j) => if i < j.args.0.len() { Some(&mut j.args.0[i]) } else { None },
            CardBody::DynamicCall(j) => {
                if i == 0 {
                    Some(&mut j.function)
                } else if i - 1 < j.args.0.len() {
                    Some(&mut j.args.0[i - 1])
                } else {
                    None
                }
            },
            CardBody::Array(cards) => if i < cards.len() { Some(&mut cards[i]) } else { None },
            CardBody::Function(_) | CardBody::NativeFunction(_) | CardBody::ReadVar(_)
            | CardBody::ScalarInt(_) | CardBody::ScalarFloat(_) | CardBody::StringLiteral(_)
            | CardBody::Comment(_) | CardBody::ScalarNil | CardBody::CreateTable
            | CardBody::Abort => None,
        }
    }
}

impl Card {
    /// Takes child `i` out of the card. A child of a list (the items of a composite card, a
    /// closure or an array, the arguments of a call) is removed from the list; any other child
    /// is replaced by a `ScalarNil` card, or by `ScalarInt(0)` for the count of a `Repeat`.
    pub fn remove_child(&mut self, i: usize) -> (r: Option<Card>)
        ensures
            r is Some == (i < old(self).children().len()),
            r matches Some(c) ==> c == old(self).children()[i as int],
            r is Some && removes_child(*old(self), i as int) ==> same_kind(*final(self), *old(self))
                && final(self).children() == old(self).children().remove(i as int),
            r is Some && !removes_child(*old(self), i as int) ==> {
                &&& same_frame(*final(self), *old(self))
                &&& final(self).children() == old(self).children().update(
                    i as int,
                    final(self).children()[i as int],
                )
                &&& final(self).children()[i as int].body == placeholder_body(*old(self), i as int)
            },
            r is None ==> *final(self) == *old(self),
    {
        match &mut self.body {
            CardBody::CompositeCard(c) => {
                if c.cards.len() <= i {
                    return None;
                }
                return Some(c.cards.remove(i));
            },
            CardBody::Closure(c) => {
                if c.cards.len() <= i {
                    return None;
                }
                return Some(c.cards.remove(i));
            },
            CardBody::Repeat(rep) => {
                return match i {
                    0 => Some(swap_card(&mut rep.n, Card::new(CardBody::ScalarInt(0)))),
                    1 => Some(swap_card(&mut rep.body, Card::new(CardBody::ScalarNil))),
                    _ => None,
                };
            },
            CardBody::CallNative(j) => {
                return if i < j.args.0.len() { Some(j.args.0.remove(i)) } else { None };
            },
            CardBody::Call(j) => {
                return if i < j.args.0.len() { Some(j.args.0.remove(i)) } else { None };
            },
            CardBody::DynamicCall(j) => {
                if i == 0 {
                    return Some(swap_card(&mut j.function, Card::new(CardBody::ScalarNil)));
                } else if i - 1 < j.args.0.len() {
                    let ghost args = j.args.0@;
                    let res = j.args.0.remove(i - 1);
                    proof {
                        assert(seq![j.function] + j.args.0@ =~= (seq![j.function] + args).remove(
                            i as int,
                        ));
                    }
                    return Some(res);
                } else {
                    return None;
                }
            },
            CardBody::Array(cards) => {
                return if i < cards.len() { Some(cards.remove(i)) } else { None };
            },
            _ => {},
        }
        let nil = Card::new(CardBody::ScalarNil);
        match self.get_child_mut(i) {
            Some(c) => Some(swap_card(c, nil)),
            None => None,
        }
    }

    /// Inserts `card` as child `i` of a list (the items of a composite card, a closure or an
    /// array, the arguments of a call), or replaces child `i` of any other card. Hands `card`
    /// back, and leaves the card as it was, when there is no such place.
    pub fn insert_child(&mut self, i: usize, card: Card) -> (r: Result<(), Card>)
        ensures
            r is Ok == (inserts_child(*old(self), i as int) || replaces_child(*old(self), i as int)),
            r is Err ==> r == Err::<(), Card>(card) && *final(self) == *old(self),
            inserts_child(*old(self), i as int) ==> same_kind(*final(self), *old(self))
                && final(self).children() == old(self).children().insert(i as int, card),
            replaces_child(*old(self), i as int) ==> same_frame(*final(self), *old(self))
                && final(self).children() == old(self).children().update(i as int, card),
    {
        match &mut self.body {
            CardBody::CompositeCard(c) => {
                if c.cards.len() < i {
                    return Err(card);
                }
                c.cards.insert(i, card);
                return Ok(());
            },
            CardBody::Closure(c) => {
                if c.cards.len() < i {
                    return Err(card);
                }
                c.cards.insert(i, card);
                return Ok(());
            },
            CardBody::CallNative(j) => {
                if i <= j.args.0.len() {
                    j.args.0.insert(i, card);
                    return Ok(());
                }
                return Err(card);
            },
            CardBody::Call(j) => {
                if i <= j.args.0.len() {
                    j.args.0.insert(i, card);
                    return Ok(());
                }
                return Err(card);
            },
            CardBody::DynamicCall(j) => {
                if i == 0 {
                    j.function = card;
                    return Ok(());
                } else if i - 1 <= j.args.0.len() {
                    let ghost args = j.args.0@;
                    let ghost f = j.function;
                    j.args.0.insert(i - 1, card);
                    proof {
                        assert(seq![f] + j.args.0@ =~= (seq![f] + args).insert(i as int, card));
                    }
                    return Ok(());
                } else {
                    return Err(card);
                }
            },
            CardBody::Array(children) => {
                if i <= children.len() {
                    children.insert(i, card);
                    return Ok(());
                } else {
                    return Err(card);
                }
            },
            _ => {},
        }
        match self.get_child_mut(i) {
            Some(c) => {
                *c = card;
                Ok(())
            },
            None => Err(card),
        }
    }

    /// Whether `insert_child(i, ..)` succeeds on this card.
    pub fn accepts_child_at(&self, i: usize) -> (r: bool)
        ensures
            r == (inserts_child(*self, i as int) || replaces_child(*self, i as int)),
    {
        match &self.body {
            CardBody::CompositeCard(c) => i <= c.cards.len(),
            CardBody::Closure(c) => i <= c.cards.len(),
            CardBody::Array(a) => i <= a.len(),
            CardBody::CallNative(j) => i <= j.args.0.len(),
            CardBody::Call(j) => i <= j.args.0.len(),
            CardBody::DynamicCall(j) => i == 0 || i - 1 <= j.args.0.len(),
            _ => self.get_child(i).is_some(),
        }
    }

    /// Replaces child `i` with `card`, returning the old child; hands `card` back when there
    /// is no child `i`.
    pub fn replace_child(&mut self, i: usize, card: Card) -> (r: Result<Card, Card>)
        ensures
            r is Ok == (i < old(self).children().len()),
            r matches Ok(c) ==> c == old(self).children()[i as int] && same_frame(
                *final(self),
                *old(self),
            ) && final(self).children() == old(self).children().update(i as int, card),
            r is Err ==> r == Err::<Card, Card>(card) && *final(self) == *old(self),
    {
        match self.get_child_mut(i) {
            Some(c) => Ok(swap_card(c, card)),
            None => Err(card),
        }
    }

    /// The children of the card, in order.
    pub fn iter_children(&self) -> (r: Vec<&Card>)
        requires
            self.children().len() <= usize::MAX,
        ensures
            r@.len() == self.children().len(),
            forall|k: int| 0 <= k < r@.len() ==> *r@[k] == self.children()[k],
    {
        let n = self.child_count();
        let mut out: Vec<&Card> = Vec::new();
        let mut j: usize = 0;
        while j < n
            invariant
                n == self.children().len(),
                j <= n,
                out@.len() == j,
                forall|k: int| 0 <= k < j ==> *out@[k] == self.children()[k],
            decreases n - j,
        {
            match self.get_child(j) {
                Some(c) => out.push(c),
                None => {},
            }
            j = j + 1;
        }
        out
    }

    /// The composite card, if the card is one.
    pub fn as_composite_card(&self) -> (r: Option<&CompositeCard>)
        ensures
            r matches Some(c) ==> self.body == CardBody::CompositeCard(Box::new(*c)),
            r is None ==> !(self.body is CompositeCard),
    {
        if let CardBody::CompositeCard(v) = &self.body {
            Some(&**v)
        } else {
            None
        }
    }

    /// Mutable access to the composite card, if the card is one.
    pub fn as_composite_card_mut(&mut self) -> (r: Option<&mut CompositeCard>)
        ensures
            r matches Some(c) ==> old(self).body == CardBody::CompositeCard(Box::new(*c))
                && final(self).id == old(self).id && final(self).body == CardBody::CompositeCard(
                Box::new(*final(c)),
            ),
            r is None ==> !(old(self).body is CompositeCard) && *final(self) == *old(self),
    {
        if let CardBody::CompositeCard(v) = &mut self.body {
            Some(&mut **v)
        } else {
            None
        }
    }

    /// A composite card of the given type and cards.
    pub fn composite_card(ty: String, cards: Vec<Card>) -> (r: Card)
        ensures
            r.body == CardBody::CompositeCard(Box::new(CompositeCard { ty, cards })),
    {
        Card::new(CardBody::CompositeCard(Box::new(CompositeCard { ty, cards })))
    }

    /// Repeats `body` `n` times, counting in the variable `i` if given.
    pub fn repeat(n: Card, i: Option<String>, body: Card) -> (r: Card)
        ensures
            r.body == CardBody::Repeat(Box::new(Repeat { i, n, body })),
    {
        Card::new(CardBody::Repeat(Box::new(Repeat { i, n, body })))
    }

    /// Writes `value` into the local variable `s`.
    pub fn set_var(s: String, value: Card) -> (r: Card)
        ensures
            r.body == CardBody::SetVar(Box::new(SetVar { name: s, value })),
    {
        Card::new(CardBody::SetVar(Box::new(SetVar { name: s, value })))
    }

    /// Calls the native function `s`.
    pub fn call_native(s: String, args: Vec<Card>) -> (r: Card)
        ensures
            r.body == CardBody::CallNative(Box::new(CallNode { name: s, args: Arguments(args) })),
    {
        Card::new(CardBody::CallNative(Box::new(CallNode { name: s, args: Arguments(args) })))
    }

    /// Reads the variable `s`.
    pub fn read_var(s: String) -> (r: Card)
        ensures
            r.body == CardBody::ReadVar(s),
    {
        Card::new(CardBody::ReadVar(s))
    }

    /// Writes `value` into the global variable `s`.
    pub fn set_global_var(s: String, value: Card) -> (r: Card)
        ensures
            r.body == CardBody::SetGlobalVar(Box::new(SetVar { name: s, value })),
    {
        Card::new(CardBody::SetGlobalVar(Box::new(SetVar { name: s, value })))
    }

    /// An integer scalar.
    pub fn scalar_int(i: i64) -> (r: Card)
        ensures
            r.body == CardBody::ScalarInt(i),
    {
        Card::new(CardBody::ScalarInt(i))
    }

    /// A string literal.
    pub fn string_card(s: String) -> (r: Card)
        ensures
            r.body == CardBody::StringLiteral(s),
    {
        Card::new(CardBody::StringLiteral(s))
    }

    /// Calls the function `s`.
    pub fn call_function(s: String, args: Vec<Card>) -> (r: Card)
        ensures
            r.body == CardBody::Call(Box::new(StaticJump { args: Arguments(args), function_name: s })),
    {
        Card::new(CardBody::Call(Box::new(StaticJump { args: Arguments(args), function_name: s })))
    }

    /// A pointer to the function `s`.
    pub fn function_value(s: String) -> (r: Card)
        ensures
            r.body == CardBody::Function(s),
    {
        Card::new(CardBody::Function(s))
    }

    /// Returns the value of `c`.
    pub fn return_card(c: Card) -> (r: Card)
        ensures
            r.body == CardBody::Return(UnaryExpression { card: Box::new(c) }),
    {
        Card::new(CardBody::Return(UnaryExpression { card: Box::new(c) }))
    }

    /// Writes `value` at `key` of `table`.
    pub fn set_property(value: Card, table: Card, key: Card) -> (r: Card)
        ensures
            r.body == CardBody::SetProperty(Box::new([value, table, key])),
    {
        Card::new(CardBody::SetProperty(Box::new([value, table, key])))
    }

    /// Reads `key` of `table`.
    pub fn get_property(table: Card, key: Card) -> (r: Card)
        ensures
            r.body == CardBody::GetProperty(Box::new([table, key])),
    {
        Card::new(CardBody::GetProperty(Box::new([table, key])))
    }

    /// Calls the function that `function` evaluates to.
    pub fn dynamic_call(function: Card, args: Vec<Card>) -> (r: Card)
        ensures
            r.body == CardBody::DynamicCall(Box::new(DynamicJump { args: Arguments(args), function })),
    {
        Card::new(CardBody::DynamicCall(Box::new(DynamicJump { args: Arguments(args), function })))
    }
}

impl UnaryExpression {
    /// Wraps a card.
    pub fn new(c: Card) -> (r: Self)
        ensures
            r.card == Box::new(c),
    {
        UnaryExpression { card: Box::new(c) }
    }
}

/// When `insert_child(i, x)` inserts `x` into the children of `c0`, giving `c1`, then
/// `remove_child(i)` on `c1` returns `x` and leaves a card `c2` of the same id and kind as `c0`,
/// with the children that `c0` had.
pub proof fn lemma_insert_then_remove_child(
    c0: Card,
    c1: Card,
    c2: Card,
    i: int,
    x: Card,
    r: Option<Card>,
)
    requires
        inserts_child(c0, i),
        same_kind(c1, c0),
        c1.children() == c0.children().insert(i, x),
        r is Some == (i < c1.children().len()),
        r matches Some(c) ==> c == c1.children()[i],
        r is Some && removes_child(c1, i) ==> same_kind(c2, c1) && c2.children() == c1.children().remove(i),
    ensures
        r == Some(x),
        same_kind(c2, c0),
        c2.children() == c0.children(),
{
    assert(c0.children().insert(i, x).remove(i) =~= c0.children());
}

/// Puts `card` in place of `dest`, returning what `dest` held.
pub(crate) fn swap_card(dest: &mut Card, card: Card) -> (r: Card)
    ensures
        r == *old(dest),
        *final(dest) == card,
{
    let mut card = card;
    std::mem::swap(dest, &mut card);
    card
}

/// A length truncated to 32 bits.
fn len_u32(n: usize) -> (r: u32)
    ensures
        r == (n as int) % 0x1_0000_0000,
{
    assert(n as u32 == (n as int) % 0x1_0000_0000) by (bit_vector);
    n as u32
}


/// The position of a card's kind among the kinds of cards.
pub open spec fn card_kind(c: Card) -> nat {
    match c.body {
        CardBody::Add(_) => 0,
        CardBody::Sub(_) => 1,
        CardBody::Mul(_) => 2,
        CardBody::Div(_) => 3,
        CardBody::Less(_) => 4,
        CardBody::LessOrEq(_) => 5,
        CardBody::Equals(_) => 6,
        CardBody::NotEquals(_) => 7,
        CardBody::And(_) => 8,
        CardBody::Or(_) => 9,
        CardBody::Xor(_) => 10,
        CardBody::Not(_) => 11,
        CardBody::Return(_) => 12,
        CardBody::ScalarNil => 13,
        CardBody::CreateTable => 14,
        CardBody::Abort => 15,
        CardBody::Len(_) => 16,
        CardBody::SetProperty(_) => 17,
        CardBody::GetProperty(_) => 18,
        CardBody::ScalarInt(_) => 19,
        CardBody::ScalarFloat(_) => 20,
        CardBody::StringLiteral(_) => 21,
        CardBody::CallNative(_) => 22,
        CardBody::IfTrue(_) => 23,
        CardBody::IfFalse(_) => 24,
        CardBody::IfElse(_) => 25,
        CardBody::Call(_) => 26,
        CardBody::Function(_) => 27,
        CardBody::NativeFunction(_) => 28,
        CardBody::SetGlobalVar(_) => 29,
        CardBody::SetVar(_) => 30,
        CardBody::ReadVar(_) => 31,
        CardBody::Repeat(_) => 32,
        CardBody::While(_) => 33,
        CardBody::ForEach(_) => 34,
        CardBody::CompositeCard(_) => 35,
        CardBody::DynamicCall(_) => 36,
        CardBody::Get(_) => 37,
        CardBody::AppendTable(_) => 38,
        CardBody::PopTable(_) => 39,
        CardBody::Array(_) => 40,
        CardBody::Closure(_) => 41,
        CardBody::Comment(_) => 42,
    }
}

/// The kind of card whose name has the marks `m`.
spec fn kind_of_marks(m: (nat, char, char, char)) -> nat {
    if m == (3nat, 'A', 'd', 'd') {
        0
    } else if m == (3nat, 'S', 'u', 'b') {
        1
    } else if m == (3nat, 'M', 'u', 'l') {
        2
    } else if m == (3nat, 'D', 'i', 'v') {
        3
    } else if m == (4nat, 'L', 's', 's') {
        4
    } else if m == (8nat, 'L', 'O', 'q') {
        5
    } else if m == (6nat, 'E', 'a', 's') {
        6
    } else if m == (9nat, 'N', 'q', 's') {
        7
    } else if m == (3nat, 'A', 'n', 'd') {
        8
    } else if m == (6nat, 'E', 'h', 'r') {
        9
    } else if m == (12nat, 'E', 'i', 'r') {
        10
    } else if m == (3nat, 'N', 'o', 't') {
        11
    } else if m == (6nat, 'R', 'u', 'n') {
        12
    } else if m == (9nat, 'S', 'a', 'l') {
        13
    } else if m == (11nat, 'C', 'e', 'e') {
        14
    } else if m == (5nat, 'A', 'o', 't') {
        15
    } else if m == (3nat, 'L', 'e', 'n') {
        16
    } else if m == (11nat, 'S', 'o', 'y') {
        17
    } else if m == (11nat, 'G', 'o', 'y') {
        18
    } else if m == (9nat, 'S', 'a', 't') {
        19
    } else if m == (11nat, 'S', 'r', 't') {
        20
    } else if m == (13nat, 'S', 'L', 'l') {
        21
    } else if m == (20nat, 'C', 'e', 'n') {
        22
    } else if m == (6nat, 'I', 'r', 'e') {
        23
    } else if m == (7nat, 'I', 'a', 'e') {
        24
    } else if m == (6nat, 'I', 'l', 'e') {
        25
    } else if m == (13nat, 'C', 'u', 'n') {
        26
    } else if m == (8nat, 'F', 't', 'n') {
        27
    } else if m == (15nat, 'N', 'F', 'n') {
        28
    } else if m == (12nat, 'S', 'b', 'r') {
        29
    } else if m == (6nat, 'S', 'V', 'r') {
        30
    } else if m == (7nat, 'R', 'd', 'r') {
        31
    } else if m == (6nat, 'R', 'e', 't') {
        32
    } else if m == (5nat, 'W', 'i', 'e') {
        33
    } else if m == (7nat, 'F', 'E', 'h') {
        34
    } else if m == (4nat, 'C', 'l', 'l') {
        36
    } else if m == (3nat, 'G', 'e', 't') {
        37
    } else if m == (15nat, 'A', 't', 'e') {
        38
    } else if m == (14nat, 'P', 'm', 'e') {
        39
    } else if m == (5nat, 'A', 'r', 'y') {
        40
    } else if m == (7nat, 'C', 's', 'e') {
        41
    } else {
        42
    }
}

/// The marks of the name of a card that is not composite lead back to its kind.
proof fn lemma_card_name_marks(c: Card)
    requires
        !(c.body is CompositeCard),
    ensures
        kind_of_marks(name_marks(c.spec_name())) == card_kind(c),
{
    match c.body {
        CardBody::Add(_) => {
            reveal_strlit("Add");
        },
        CardBody::Sub(_) => {
            reveal_strlit("Sub");
        },
        CardBody::Mul(_) => {
            reveal_strlit("Mul");
        },
        CardBody::Div(_) => {
            reveal_strlit("Div");
        },
        CardBody::Less(_) => {
            reveal_strlit("Less");
        },
        CardBody::LessOrEq(_) => {
            reveal_strlit("LessOrEq");
        },
        CardBody::Equals(_) => {
            reveal_strlit("Equals");
        },
        CardBody::NotEquals(_) => {
            reveal_strlit("NotEquals");
        },
        CardBody::And(_) => {
            reveal_strlit("And");
        },
        CardBody::Or(_) => {
            reveal_strlit("Either");
        },
        CardBody::Xor(_) => {
            reveal_strlit("Exclusive Or");
        },
        CardBody::Not(_) => {
            reveal_strlit("Not");
        },
        CardBody::Return(_) => {
            reveal_strlit("Return");
        },
        CardBody::ScalarNil => {
            reveal_strlit("ScalarNil");
        },
        CardBody::CreateTable => {
            reveal_strlit("CreateTable");
        },
        CardBody::Abort => {
            reveal_strlit("Abort");
        },
        CardBody::Len(_) => {
            reveal_strlit("Len");
        },
        CardBody::SetProperty(_) => {
            reveal_strlit("SetProperty");
        },
        CardBody::GetProperty(_) => {
            reveal_strlit("GetProperty");
        },
        CardBody::ScalarInt(_) => {
            reveal_strlit("ScalarInt");
        },
        CardBody::ScalarFloat(_) => {
            reveal_strlit("ScalarFloat");
        },
        CardBody::StringLiteral(_) => {
            reveal_strlit("StringLiteral");
        },
        CardBody::CallNative(_) => {
            reveal_strlit("Call Native Function");
        },
        CardBody::IfTrue(_) => {
            reveal_strlit("IfTrue");
        },
        CardBody::IfFalse(_) => {
            reveal_strlit("IfFalse");
        },
        CardBody::IfElse(_) => {
            reveal_strlit("IfElse");
        },
        CardBody::Call(_) => {
            reveal_strlit("Call Function");
        },
        CardBody::Function(_) => {
            reveal_strlit("Function");
        },
        CardBody::NativeFunction(_) => {
            reveal_strlit("Native Function");
        },
        CardBody::SetGlobalVar(_) => {
            reveal_strlit("SetGlobalVar");
        },
        CardBody::SetVar(_) => {
            reveal_strlit("SetVar");
        },
        CardBody::ReadVar(_) => {
            reveal_strlit("ReadVar");
        },
        CardBody::Repeat(_) => {
            reveal_strlit("Repeat");
        },
        CardBody::While(_) => {
            reveal_strlit("While");
        },
        CardBody::ForEach(_) => {
            reveal_strlit("ForEach");
        },
        CardBody::DynamicCall(_) => {
            reveal_strlit("Call");
        },
        CardBody::Get(_) => {
            reveal_strlit("Get");
        },
        CardBody::AppendTable(_) => {
            reveal_strlit("Append to Table");
        },
        CardBody::PopTable(_) => {
            reveal_strlit("Pop from Table");
        },
        CardBody::Array(_) => {
            reveal_strlit("Array");
        },
        CardBody::Closure(_) => {
            reveal_strlit("Closure");
        },
        CardBody::Comment(_) => {
            reveal_strlit("Comment");
        },
        CardBody::CompositeCard(_) => {},
    }
}

/// Cards of different kinds have different names, and cards of one kind share their name
/// (composite cards are named by their type instead).
pub proof fn lemma_card_names_distinct(a: Card, b: Card)
    requires
        !(a.body is CompositeCard),
        !(b.body is CompositeCard),
    ensures
        (a.spec_name() == b.spec_name()) == (card_kind(a) == card_kind(b)),
{
    lemma_card_name_marks(a);
    lemma_card_name_marks(b);
}

} // verus!
