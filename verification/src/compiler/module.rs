//! The public representation of a program: a tree of modules holding functions of cards.
use vstd::prelude::*;
use smallvec::SmallVec;
use vstd::string::StringSliceAdditionalSpecFns;
use vstd::std_specs::cmp::PartialOrdSpecImpl;
use std::cmp::Ordering;
use std::collections::hash_map::DefaultHasher;
use std::hash::Hasher;
use vstd::std_specs::hash::DefaultHasherAdditionalSpecFns;
use crate::collections::hash_map::bytes_eq;
use crate::disassembly::{decimal, push_char, push_decimal_usize};
use super::card::{
    Card, CardBody, Function, child_inserted, child_removed, inserts_child,
    replaces_child, same_frame, swap_card,
};

verus! {

/// The indices of a card's position, held inline in a `smallvec::SmallVec`.
#[verifier::external_body]
#[derive(Debug, PartialEq, Eq, PartialOrd, Ord, Hash)]
pub struct SmallIndices {
    inner: SmallVec<[u32; 4]>,
}

/// The indices that a [`SmallIndices`] holds, in order.
pub uninterp spec fn small_items(v: SmallIndices) -> Seq<u32>;

/// `SmallVec::new`: an empty vector.
#[verifier::external_body]
fn small_new() -> (r: SmallIndices)
    ensures
        small_items(r) == Seq::<u32>::empty(),
{
    SmallIndices { inner: SmallVec::new() }
}

/// `SmallVec::from_slice`: a vector holding the items of `s`.
#[verifier::external_body]
fn small_from_slice(s: &[u32]) -> (r: SmallIndices)
    ensures
        small_items(r) == s@,
{
    SmallIndices { inner: SmallVec::from_slice(s) }
}

/// `SmallVec::push`: appends `x`. It panics when the length would overflow, which the
/// `requires` leaves out.
#[verifier::external_body]
fn small_push(v: &mut SmallIndices, x: u32)
    requires
        small_items(*old(v)).len() < usize::MAX,
    ensures
        small_items(*final(v)) == small_items(*old(v)).push(x),
{
    v.inner.push(x)
}

/// `SmallVec::pop`: removes and returns the last item, `None` when empty.
#[verifier::external_body]
fn small_pop(v: &mut SmallIndices) -> (r: Option<u32>)
    ensures
        small_items(*old(v)).len() == 0 ==> r is None && small_items(*final(v)) == small_items(
            *old(v),
        ),
        small_items(*old(v)).len() > 0 ==> r == Some(small_items(*old(v)).last()) && small_items(
            *final(v),
        ) == small_items(*old(v)).drop_last(),
{
    v.inner.pop()
}

/// `SmallVec::as_slice`: the items.
#[verifier::external_body]
fn small_as_slice(v: &SmallIndices) -> (r: &[u32])
    ensures
        r@ == small_items(*v),
{
    v.inner.as_slice()
}

/// `SmallVec::index_mut` followed by a write: replaces item `i`.
#[verifier::external_body]
fn small_set(v: &mut SmallIndices, i: usize, x: u32)
    requires
        i < small_items(*old(v)).len(),
    ensures
        small_items(*final(v)) == small_items(*old(v)).update(i as int, x),
{
    v.inner[i] = x;
}

/// Why a card could not be fetched.
#[derive(Debug, Clone, Copy, PartialEq, Eq)]
pub enum CardFetchError {
    /// The function was not found.
    FunctionNotFound,
    /// The card at this depth of the index was not found.
    CardNotFound { depth: usize },
    /// The card at this depth has no nested functions, but the index tried to fetch one.
    NoSubFunction { depth: usize },
    /// The index is not valid.
    InvalidIndex,
}

/// The position of a card within a function: the index of a card of the function, then
/// the index of a child at each level below it.
#[derive(Debug, PartialEq, Eq, PartialOrd, Ord, Hash)]
pub struct FunctionCardIndex {
    pub indices: SmallIndices,
}

/// `SmallVec::clone`: a vector of the same items.
#[verifier::external_body]
fn small_clone(v: &SmallIndices) -> (r: SmallIndices)
    ensures
        small_items(r) == small_items(*v),
{
    SmallIndices { inner: v.inner.clone() }
}

impl Clone for FunctionCardIndex {
    fn clone(&self) -> (r: Self)
        ensures
            r.path() == self.path(),
    {
        FunctionCardIndex { indices: small_clone(&self.indices) }
    }
}

/// Uniquely indexes a card in a module.
///
/// Indices are ordered by function, then by their levels in lexicographic order, where an
/// index comes before the indices of the cards nested in its card.
#[derive(Debug, PartialEq, Eq, Ord, Hash)]
pub struct CardIndex {
    pub function: usize,
    pub card_index: FunctionCardIndex,
}

impl Clone for CardIndex {
    fn clone(&self) -> (r: Self)
        ensures
            r.function == self.function,
            r.card_index.path() == self.card_index.path(),
    {
        CardIndex { function: self.function, card_index: self.card_index.clone() }
    }
}

/// `a` comes before `b` in lexicographic order: where they first differ `a` holds the smaller
/// index, or `a` is a proper prefix of `b`.
pub open spec fn path_precedes(a: Seq<u32>, b: Seq<u32>) -> bool
    decreases a.len(),
{
    if b.len() == 0 {
        false
    } else if a.len() == 0 {
        true
    } else if a[0] != b[0] {
        a[0] < b[0]
    } else {
        path_precedes(a.drop_first(), b.drop_first())
    }
}

/// `a` comes before `b`: it indexes an earlier function, or the same function and its levels
/// come first.
pub open spec fn index_precedes(a: CardIndex, b: CardIndex) -> bool {
    ||| a.function < b.function
    ||| a.function == b.function && path_precedes(a.card_index.path(), b.card_index.path())
}

/// Whether `a@` comes before `b@` in lexicographic order.
fn slice_precedes(a: &[u32], b: &[u32]) -> (r: bool)
    ensures
        r == path_precedes(a@, b@),
{
    let mut i: usize = 0;
    assert(a@.skip(0) =~= a@ && b@.skip(0) =~= b@);
    while i < a.len() && i < b.len()
        invariant
            i <= a@.len(),
            i <= b@.len(),
            path_precedes(a@, b@) == path_precedes(a@.skip(i as int), b@.skip(i as int)),
        decreases a@.len() - i,
    {
        if a[i] != b[i] {
            return a[i] < b[i];
        }
        proof {
            assert(a@.skip(i as int).drop_first() =~= a@.skip(i + 1));
            assert(b@.skip(i as int).drop_first() =~= b@.skip(i + 1));
        }
        i += 1;
    }
    i < b.len()
}

impl CardIndex {
    /// Whether `self` comes before `other`.
    fn precedes(&self, other: &CardIndex) -> (r: bool)
        ensures
            r == index_precedes(*self, *other),
    {
        if self.function != other.function {
            return self.function < other.function;
        }
        slice_precedes(small_as_slice(&self.card_index.indices), small_as_slice(&other.card_index.indices))
    }
}

impl PartialOrd for CardIndex {
    fn partial_cmp(&self, other: &Self) -> (r: Option<Ordering>) {
        if self.precedes(other) {
            Some(Ordering::Less)
        } else if other.precedes(self) {
            Some(Ordering::Greater)
        } else {
            Some(Ordering::Equal)
        }
    }
}

impl PartialOrdSpecImpl for CardIndex {
    open spec fn obeys_partial_cmp_spec() -> bool {
        true
    }

    open spec fn partial_cmp_spec(&self, other: &Self) -> Option<Ordering> {
        if index_precedes(*self, *other) {
            Some(Ordering::Less)
        } else if index_precedes(*other, *self) {
            Some(Ordering::Greater)
        } else {
            Some(Ordering::Equal)
        }
    }
}

impl FunctionCardIndex {
    /// The indices, from the function down.
    pub open spec fn path(&self) -> Seq<u32> {
        small_items(self.indices)
    }

    /// The index of the `card_index`th card of a function.
    pub fn new(card_index: usize) -> (r: Self)
        ensures
            r.path() == seq![card_index as u32],
    {
        let v = vec![card_index as u32];
        let indices = small_from_slice(v.as_slice());
        assert(v@ =~= seq![card_index as u32]);
        FunctionCardIndex { indices }
    }

    /// The number of levels of the index.
    pub fn depth(&self) -> (r: usize)
        ensures
            r == self.path().len(),
    {
        small_as_slice(&self.indices).len()
    }

    /// Adds a level below the index.
    pub fn with_sub_index(self, card_index: usize) -> (r: Self)
        requires
            self.path().len() < usize::MAX,
        ensures
            r.path() == self.path().push(card_index as u32),
    {
        let mut this = self;
        this.push_sub_index(card_index);
        this
    }

    /// Adds a level below the index.
    pub fn push_sub_index(&mut self, card_index: usize)
        requires
            old(self).path().len() < usize::MAX,
        ensures
            final(self).path() == old(self).path().push(card_index as u32),
    {
        small_push(&mut self.indices, card_index as u32);
    }

    /// The index at the lowest level, 0 for an empty index.
    pub fn current_index(&self) -> (r: usize)
        ensures
            self.path().len() == 0 ==> r == 0,
            self.path().len() > 0 ==> r == self.path().last() as usize,
    {
        let s = small_as_slice(&self.indices);
        if s.len() == 0 {
            0
        } else {
            s[s.len() - 1] as usize
        }
    }

    /// Replaces the index at the lowest level.
    pub fn with_current_index(self, card_index: usize) -> (r: Self)
        ensures
            self.path().len() == 0 ==> r.path() == self.path(),
            self.path().len() > 0 ==> r.path() == self.path().update(
                self.path().len() - 1,
                card_index as u32,
            ),
    {
        let mut this = self;
        this.set_current_index(card_index);
        this
    }

    /// Replaces the index at the lowest level; an empty index stays empty.
    pub fn set_current_index(&mut self, card_index: usize)
        ensures
            old(self).path().len() == 0 ==> final(self).path() == old(self).path(),
            old(self).path().len() > 0 ==> final(self).path() == old(self).path().update(
                old(self).path().len() - 1,
                card_index as u32,
            ),
    {
        let n = small_as_slice(&self.indices).len();
        if n > 0 {
            small_set(&mut self.indices, n - 1, card_index as u32);
        }
    }

    /// The index of the card of the function, at the top level.
    pub fn begin(&self) -> (r: Result<usize, CardFetchError>)
        ensures
            self.path().len() == 0 ==> r == Err::<usize, CardFetchError>(CardFetchError::InvalidIndex),
            self.path().len() > 0 ==> r == Ok::<usize, CardFetchError>(self.path()[0] as usize),
    {
        let s = small_as_slice(&self.indices);
        if s.len() == 0 {
            Err(CardFetchError::InvalidIndex)
        } else {
            Ok(s[0] as usize)
        }
    }
}

impl CardIndex {
    /// The index of function `function`, with no card index.
    pub fn function(function: usize) -> (r: Self)
        ensures
            r.function == function,
            r.card_index.path() == Seq::<u32>::empty(),
    {
        CardIndex { function, card_index: FunctionCardIndex { indices: small_new() } }
    }

    /// The index of the `card_index`th card of function `function`.
    pub fn new(function: usize, card_index: usize) -> (r: Self)
        ensures
            r.function == function,
            r.card_index.path() == seq![card_index as u32],
    {
        CardIndex { function, card_index: FunctionCardIndex::new(card_index) }
    }

    /// Adds a level below the index.
    pub fn push_subindex(&mut self, i: u32)
        requires
            old(self).card_index.path().len() < usize::MAX,
        ensures
            final(self).function == old(self).function,
            final(self).card_index.path() == old(self).card_index.path().push(i),
    {
        small_push(&mut self.card_index.indices, i);
    }

    /// Removes the lowest level of the index.
    pub fn pop_subindex(&mut self)
        ensures
            final(self).function == old(self).function,
            old(self).card_index.path().len() == 0 ==> final(self).card_index.path() == old(
                self,
            ).card_index.path(),
            old(self).card_index.path().len() > 0 ==> final(self).card_index.path() == old(
                self,
            ).card_index.path().drop_last(),
    {
        let _ = small_pop(&mut self.card_index.indices);
    }

    /// Adds a level below the index.
    pub fn with_sub_index(self, card_index: usize) -> (r: Self)
        requires
            self.card_index.path().len() < usize::MAX,
        ensures
            r.function == self.function,
            r.card_index.path() == self.card_index.path().push(card_index as u32),
    {
        let mut this = self;
        this.push_subindex(card_index as u32);
        this
    }

    /// The index at the lowest level, 0 for an empty index.
    pub fn current_index(&self) -> (r: usize)
        ensures
            self.card_index.path().len() == 0 ==> r == 0,
            self.card_index.path().len() > 0 ==> r == self.card_index.path().last() as usize,
    {
        self.card_index.current_index()
    }

    /// Replaces the index at the lowest level.
    pub fn with_current_index(self, card_index: usize) -> (r: Self)
        ensures
            r.function == self.function,
            self.card_index.path().len() == 0 ==> r.card_index.path() == self.card_index.path(),
            self.card_index.path().len() > 0 ==> r.card_index.path() == self.card_index.path().update(
                self.card_index.path().len() - 1,
                card_index as u32,
            ),
    {
        let mut this = self;
        this.set_current_index(card_index);
        this
    }

    /// Replaces the index at the lowest level.
    pub fn set_current_index(&mut self, card_index: usize)
        ensures
            final(self).function == old(self).function,
            old(self).card_index.path().len() == 0 ==> final(self).card_index.path() == old(
                self,
            ).card_index.path(),
            old(self).card_index.path().len() > 0 ==> final(self).card_index.path() == old(
                self,
            ).card_index.path().update(old(self).card_index.path().len() - 1, card_index as u32),
    {
        self.card_index.set_current_index(card_index);
    }

    /// The index of the card of the function, at the top level.
    pub fn begin(&self) -> (r: Result<usize, CardFetchError>)
        ensures
            self.card_index.path().len() == 0 ==> r == Err::<usize, CardFetchError>(
                CardFetchError::InvalidIndex,
            ),
            self.card_index.path().len() > 0 ==> r == Ok::<usize, CardFetchError>(
                self.card_index.path()[0] as usize,
            ),
    {
        self.card_index.begin()
    }

    /// Whether the index points at a card of the function rather than a nested one.
    pub fn is_top_level_card(&self) -> (r: bool)
        ensures
            r == (self.card_index.path().len() == 1),
    {
        small_as_slice(&self.card_index.indices).len() == 1
    }
}


/// A module: its submodules, its functions, and the functions it imports from submodules.
#[derive(Debug, Default)]
pub struct Module {
    pub submodules: Vec<(String, Module)>,
    pub functions: Vec<(String, Function)>,
    /// Functions to import from submodules: importing `foo.bar` lets a card call `bar`.
    pub imports: Vec<String>,
}

/// The program that the compiler reads is its root module.
pub type CaoProgram = Module;

/// Walking down from `card` through the children that `path` indexes: the card reached, or the
/// depth of the first missing child, where the children of `card` are at depth `depth`.
pub open spec fn walk(card: Card, path: Seq<u32>, depth: nat) -> Result<Card, nat>
    decreases path.len(),
{
    if path.len() == 0 {
        Ok(card)
    } else if (path[0] as int) < card.children().len() {
        walk(card.children()[path[0] as int], path.drop_first(), depth + 1)
    } else {
        Err(depth)
    }
}

/// `new` is `old` with the card that `path` leads to replaced by `sub`: every card on the way
/// keeps its kind and its other children.
pub open spec fn replaced_at(old: Card, new: Card, path: Seq<u32>, sub: Card) -> bool
    decreases path.len(),
{
    if path.len() == 0 {
        new == sub
    } else {
        let i = path[0] as int;
        &&& 0 <= i < old.children().len()
        &&& same_frame(new, old)
        &&& new.children() == old.children().update(i, new.children()[i])
        &&& replaced_at(old.children()[i], new.children()[i], path.drop_first(), sub)
    }
}

/// Replacing the card at `path` leaves a walk down `path` reaching the new card.
pub proof fn lemma_replaced_at_walk(old: Card, new: Card, path: Seq<u32>, sub: Card, depth: nat)
    requires
        replaced_at(old, new, path, sub),
    ensures
        walk(new, path, depth) == Ok::<Card, nat>(sub),
    decreases path.len(),
{
    if path.len() > 0 {
        let i = path[0] as int;
        lemma_replaced_at_walk(old.children()[i], new.children()[i], path.drop_first(), sub, depth + 1);
    }
}

/// The cards of function `f` of `m`.
pub open spec fn function_cards(m: Module, f: int) -> Seq<Card> {
    m.functions@[f].1.cards@
}

/// The card that `idx` points at in `m`, or why there is none.
pub open spec fn fetch(m: Module, idx: CardIndex) -> Result<Card, CardFetchError> {
    let path = idx.card_index.path();
    if idx.function >= m.functions@.len() {
        Err(CardFetchError::FunctionNotFound)
    } else if path.len() == 0 {
        Err(CardFetchError::InvalidIndex)
    } else if path[0] as int >= function_cards(m, idx.function as int).len() {
        Err(CardFetchError::CardNotFound { depth: 0 })
    } else {
        match walk(function_cards(m, idx.function as int)[path[0] as int], path.drop_first(), 1) {
            Ok(c) => Ok(c),
            Err(d) => Err(CardFetchError::CardNotFound { depth: d as usize }),
        }
    }
}

/// `new` is `old` with the cards of function `f` replaced by `cards`; everything else is kept.
pub open spec fn cards_changed(old: Module, new: Module, f: int, cards: Seq<Card>) -> bool {
    &&& new.submodules@ == old.submodules@
    &&& new.imports@ == old.imports@
    &&& new.functions@.len() == old.functions@.len()
    &&& 0 <= f < old.functions@.len()
    &&& forall|j: int| 0 <= j < old.functions@.len() && j != f ==> new.functions@[j] == old.functions@[j]
    &&& new.functions@[f].0 == old.functions@[f].0
    &&& new.functions@[f].1.arguments@ == old.functions@[f].1.arguments@
    &&& new.functions@[f].1.cards@ == cards
}

/// `new` is `old` with the card at `path` below card `i0` of function `f` replaced by `sub`.
pub open spec fn card_replaced(old: Module, new: Module, f: int, i0: int, path: Seq<u32>, sub: Card) -> bool {
    let cards = function_cards(old, f);
    &&& 0 <= i0 < cards.len()
    &&& cards_changed(old, new, f, cards.update(i0, function_cards(new, f)[i0]))
    &&& replaced_at(cards[i0], function_cards(new, f)[i0], path, sub)
}

/// The card whose child `idx` points at, below the card of the function; `idx` has at least
/// two levels.
pub open spec fn parent_path(idx: CardIndex) -> Seq<u32> {
    idx.card_index.path().subrange(1, idx.card_index.path().len() - 1)
}

/// What `remove_card` or `insert_card` finds at `idx` when it has two levels or more: the parent
/// card of the target, or why there is none.
pub open spec fn fetch_parent(m: Module, idx: CardIndex) -> Result<Card, CardFetchError> {
    let path = idx.card_index.path();
    let f = idx.function as int;
    if idx.function >= m.functions@.len() {
        Err(CardFetchError::FunctionNotFound)
    } else if path.len() == 0 {
        Err(CardFetchError::InvalidIndex)
    } else if path[0] as int >= function_cards(m, f).len() {
        Err(CardFetchError::CardNotFound { depth: 0 })
    } else {
        match walk(function_cards(m, f)[path[0] as int], parent_path(idx), 1) {
            Ok(c) => Ok(c),
            Err(d) => Err(CardFetchError::CardNotFound { depth: d as usize }),
        }
    }
}

/// The parent card, at `parent_path(idx)` below card `path[0]` of the function, in `m`.
pub open spec fn parent_in(m: Module, idx: CardIndex) -> Card {
    walk(
        function_cards(m, idx.function as int)[idx.card_index.path()[0] as int],
        parent_path(idx),
        1,
    )->Ok_0
}

/// After inserting a card at a top-level index, fetching that index gives the card.
pub proof fn lemma_insert_then_get_top(m0: Module, m1: Module, idx: CardIndex, child: Card)
    requires
        idx.card_index.path().len() == 1,
        idx.function < m0.functions@.len(),
        idx.card_index.path()[0] as int <= function_cards(m0, idx.function as int).len(),
        cards_changed(
            m0,
            m1,
            idx.function as int,
            function_cards(m0, idx.function as int).insert(idx.card_index.path()[0] as int, child),
        ),
    ensures
        fetch(m1, idx) == Ok::<Card, CardFetchError>(child),
{
    let path = idx.card_index.path();
    assert(path.drop_first() =~= Seq::<u32>::empty());
}

/// After replacing the card at an index, fetching that index gives the new card.
pub proof fn lemma_replace_then_get(m0: Module, m1: Module, idx: CardIndex, child: Card)
    requires
        fetch(m0, idx) is Ok,
        card_replaced(
            m0,
            m1,
            idx.function as int,
            idx.card_index.path()[0] as int,
            idx.card_index.path().drop_first(),
            child,
        ),
    ensures
        fetch(m1, idx) == Ok::<Card, CardFetchError>(child),
{
    let f = idx.function as int;
    let i0 = idx.card_index.path()[0] as int;
    lemma_replaced_at_walk(
        function_cards(m0, f)[i0],
        function_cards(m1, f)[i0],
        idx.card_index.path().drop_first(),
        child,
        1,
    );
}

/// Walks down from `card` through the children that `path[i..]` indexes.
fn walk_ref<'a>(card: &'a Card, path: &[u32], i: usize) -> (r: Result<&'a Card, usize>)
    requires
        i <= path@.len(),
    ensures
        r is Ok == walk(*card, path@.subrange(i as int, path@.len() as int), i as nat) is Ok,
        r matches Ok(c) ==> walk(*card, path@.subrange(i as int, path@.len() as int), i as nat)
            == Ok::<Card, nat>(*c),
        r matches Err(d) ==> walk(*card, path@.subrange(i as int, path@.len() as int), i as nat)
            == Err::<Card, nat>(d as nat),
    decreases path@.len() - i,
{
    if i >= path.len() {
        return Ok(card);
    }
    proof {
        assert(path@.subrange(i as int, path@.len() as int).drop_first() =~= path@.subrange(
            i + 1,
            path@.len() as int,
        ));
    }
    match card.get_child(path[i] as usize) {
        Some(child) => walk_ref(child, path, i + 1),
        None => Err(i),
    }
}

/// Walks down from `card` through the children that `path[i..]` indexes, for writing; the
/// walk is known to reach a card.
fn walk_mut<'a>(card: &'a mut Card, path: &[u32], i: usize) -> (r: &'a mut Card)
    requires
        i <= path@.len(),
        walk(*old(card), path@.subrange(i as int, path@.len() as int), i as nat) is Ok,
    ensures
        walk(*old(card), path@.subrange(i as int, path@.len() as int), i as nat) == Ok::<Card, nat>(
            *r,
        ),
        replaced_at(*old(card), *final(card), path@.subrange(i as int, path@.len() as int), *final(r)),
    decreases path@.len() - i,
{
    if i >= path.len() {
        return card;
    }
    proof {
        assert(path@.subrange(i as int, path@.len() as int).drop_first() =~= path@.subrange(
            i + 1,
            path@.len() as int,
        ));
    }
    let child = card.get_child_mut(path[i] as usize).unwrap();
    walk_mut(child, path, i + 1)
}

impl Module {
    /// The card that `idx` points at.
    pub fn get_card(&self, idx: &CardIndex) -> (r: Result<&Card, CardFetchError>)
        ensures
            r is Ok == fetch(*self, *idx) is Ok,
            r matches Ok(c) ==> fetch(*self, *idx) == Ok::<Card, CardFetchError>(*c),
            r matches Err(e) ==> fetch(*self, *idx) == Err::<Card, CardFetchError>(e),
    {
        if idx.function >= self.functions.len() {
            return Err(CardFetchError::FunctionNotFound);
        }
        let function = &self.functions[idx.function].1;
        let begin = match idx.begin() {
            Ok(b) => b,
            Err(e) => {
                return Err(e);
            },
        };
        if begin >= function.cards.len() {
            return Err(CardFetchError::CardNotFound { depth: 0 });
        }
        let path = small_as_slice(&idx.card_index.indices);
        proof {
            assert(path@.subrange(1, path@.len() as int) =~= idx.card_index.path().drop_first());
        }
        match walk_ref(&function.cards[begin], path, 1) {
            Ok(c) => Ok(c),
            Err(d) => Err(CardFetchError::CardNotFound { depth: d }),
        }
    }

    /// Mutable access to the card that `idx` points at. Writing through the returned
    /// reference changes that card and nothing else.
    pub fn get_card_mut(&mut self, idx: &CardIndex) -> (r: Result<&mut Card, CardFetchError>)
        ensures
            r is Ok == fetch(*old(self), *idx) is Ok,
            r matches Ok(c) ==> fetch(*old(self), *idx) == Ok::<Card, CardFetchError>(*c)
                && card_replaced(
                *old(self),
                *final(self),
                idx.function as int,
                idx.card_index.path()[0] as int,
                idx.card_index.path().drop_first(),
                *final(c),
            ),
            r matches Err(e) ==> fetch(*old(self), *idx) == Err::<Card, CardFetchError>(e)
                && *final(self) == *old(self),
    {
        if idx.function >= self.functions.len() {
            return Err(CardFetchError::FunctionNotFound);
        }
        let begin = match idx.begin() {
            Ok(b) => b,
            Err(e) => {
                return Err(e);
            },
        };
        if begin >= self.functions[idx.function].1.cards.len() {
            return Err(CardFetchError::CardNotFound { depth: 0 });
        }
        let path = small_as_slice(&idx.card_index.indices);
        proof {
            assert(path@.subrange(1, path@.len() as int) =~= idx.card_index.path().drop_first());
        }
        match walk_ref(&self.functions[idx.function].1.cards[begin], path, 1) {
            Ok(_) => {},
            Err(d) => {
                return Err(CardFetchError::CardNotFound { depth: d });
            },
        }
        let entry = &mut self.functions[idx.function];
        let root = &mut entry.1.cards[begin];
        Ok(walk_mut(root, path, 1))
    }

    /// Replaces the card that `idx` points at with `child`, returning the old card.
    pub fn replace_card(&mut self, idx: &CardIndex, child: Card) -> (r: Result<Card, CardFetchError>)
        ensures
            r is Ok == fetch(*old(self), *idx) is Ok,
            r matches Ok(c) ==> fetch(*old(self), *idx) == Ok::<Card, CardFetchError>(c)
                && card_replaced(
                *old(self),
                *final(self),
                idx.function as int,
                idx.card_index.path()[0] as int,
                idx.card_index.path().drop_first(),
                child,
            ),
            r matches Err(e) ==> fetch(*old(self), *idx) == Err::<Card, CardFetchError>(e)
                && *final(self) == *old(self),
    {
        match self.get_card_mut(idx) {
            Ok(c) => Ok(swap_card(c, child)),
            Err(e) => Err(e),
        }
    }

    /// Removes the card that `idx` points at: a card of the function is removed from the
    /// function, a nested card is taken out of its parent as `Card::remove_child` does.
    pub fn remove_card(&mut self, idx: &CardIndex) -> (r: Result<Card, CardFetchError>)
        ensures
            idx.card_index.path().len() == 1 ==> {
                let (f, i0) = (idx.function as int, idx.card_index.path()[0] as int);
                &&& r is Ok == (f < old(self).functions@.len() && i0 < function_cards(*old(self), f).len())
                &&& r matches Ok(c) ==> c == function_cards(*old(self), f)[i0] && cards_changed(
                    *old(self),
                    *final(self),
                    f,
                    function_cards(*old(self), f).remove(i0),
                )
                &&& r matches Err(e) ==> e == (if f >= old(self).functions@.len() {
                    CardFetchError::FunctionNotFound
                } else {
                    CardFetchError::CardNotFound { depth: 0 }
                })
            },
            idx.card_index.path().len() != 1 ==> {
                let p = fetch_parent(*old(self), *idx);
                let last = idx.card_index.path().last() as int;
                &&& r is Ok == (p is Ok && last < p->Ok_0.children().len())
                &&& r matches Ok(c) ==> {
                    &&& c == p->Ok_0.children()[last]
                    &&& card_replaced(
                        *old(self),
                        *final(self),
                        idx.function as int,
                        idx.card_index.path()[0] as int,
                        parent_path(*idx),
                        parent_in(*final(self), *idx),
                    )
                    &&& child_removed(p->Ok_0, parent_in(*final(self), *idx), last)
                }
                &&& r matches Err(e) ==> e == (match p {
                    Err(pe) => pe,
                    Ok(_) => CardFetchError::CardNotFound {
                        depth: (idx.card_index.path().len() - 1) as usize,
                    },
                })
            },
            r is Err ==> *final(self) == *old(self),
    {
        if idx.function >= self.functions.len() {
            return Err(CardFetchError::FunctionNotFound);
        }
        let path = small_as_slice(&idx.card_index.indices);
        let len = path.len();
        if len == 1 {
            let i0 = path[0] as usize;
            if self.functions[idx.function].1.cards.len() <= i0 {
                return Err(CardFetchError::CardNotFound { depth: 0 });
            }
            let entry = &mut self.functions[idx.function];
            return Ok(entry.1.cards.remove(i0));
        }
        if len == 0 {
            return Err(CardFetchError::InvalidIndex);
        }
        let begin = path[0] as usize;
        if begin >= self.functions[idx.function].1.cards.len() {
            return Err(CardFetchError::CardNotFound { depth: 0 });
        }
        let parent_slice = &path[0..len - 1];
        proof {
            assert(parent_slice@.subrange(1, parent_slice@.len() as int) =~= parent_path(*idx));
        }
        let last = path[len - 1] as usize;
        match walk_ref(&self.functions[idx.function].1.cards[begin], parent_slice, 1) {
            Ok(parent) => {
                if parent.get_child(last).is_none() {
                    return Err(CardFetchError::CardNotFound { depth: len - 1 });
                }
            },
            Err(d) => {
                return Err(CardFetchError::CardNotFound { depth: d });
            },
        }
        let entry = &mut self.functions[idx.function];
        let root = &mut entry.1.cards[begin];
        let parent = walk_mut(root, parent_slice, 1);
        let removed = parent.remove_child(last);
        proof {
            lemma_replaced_at_walk(
                function_cards(*old(self), idx.function as int)[begin as int],
                function_cards(*final(self), idx.function as int)[begin as int],
                parent_path(*idx),
                *final(parent),
                1,
            );
        }
        match removed {
            Some(c) => Ok(c),
            None => Err(CardFetchError::CardNotFound { depth: len - 1 }),
        }
    }

    /// Inserts `child` at `idx`: into the cards of the function for a top-level index, or into
    /// the parent card as `Card::insert_child` does.
    pub fn insert_card(&mut self, idx: &CardIndex, child: Card) -> (r: Result<(), CardFetchError>)
        ensures
            idx.card_index.path().len() == 1 ==> {
                let (f, i0) = (idx.function as int, idx.card_index.path()[0] as int);
                &&& r is Ok == (f < old(self).functions@.len() && i0 <= function_cards(*old(self), f).len())
                &&& r is Ok ==> cards_changed(
                    *old(self),
                    *final(self),
                    f,
                    function_cards(*old(self), f).insert(i0, child),
                )
                &&& r matches Err(e) ==> e == (if f >= old(self).functions@.len() {
                    CardFetchError::FunctionNotFound
                } else {
                    CardFetchError::CardNotFound { depth: 0 }
                })
            },
            idx.card_index.path().len() != 1 ==> {
                let p = fetch_parent(*old(self), *idx);
                let last = idx.card_index.path().last() as int;
                let accepts = p is Ok && (inserts_child(p->Ok_0, last) || replaces_child(p->Ok_0, last));
                &&& r is Ok == accepts
                &&& r is Ok ==> {
                    &&& card_replaced(
                        *old(self),
                        *final(self),
                        idx.function as int,
                        idx.card_index.path()[0] as int,
                        parent_path(*idx),
                        parent_in(*final(self), *idx),
                    )
                    &&& child_inserted(p->Ok_0, parent_in(*final(self), *idx), last, child)
                }
                &&& r matches Err(e) ==> e == (match p {
                    Err(pe) => pe,
                    Ok(_) => CardFetchError::CardNotFound {
                        depth: (idx.card_index.path().len() - 1) as usize,
                    },
                })
            },
            r is Err ==> *final(self) == *old(self),
    {
        if idx.function >= self.functions.len() {
            return Err(CardFetchError::FunctionNotFound);
        }
        let path = small_as_slice(&idx.card_index.indices);
        let len = path.len();
        if len == 1 {
            let i0 = path[0] as usize;
            if self.functions[idx.function].1.cards.len() < i0 {
                return Err(CardFetchError::CardNotFound { depth: 0 });
            }
            let entry = &mut self.functions[idx.function];
            entry.1.cards.insert(i0, child);
            return Ok(());
        }
        if len == 0 {
            return Err(CardFetchError::InvalidIndex);
        }
        let begin = path[0] as usize;
        if begin >= self.functions[idx.function].1.cards.len() {
            return Err(CardFetchError::CardNotFound { depth: 0 });
        }
        let parent_slice = &path[0..len - 1];
        proof {
            assert(parent_slice@.subrange(1, parent_slice@.len() as int) =~= parent_path(*idx));
        }
        let last = path[len - 1] as usize;
        match walk_ref(&self.functions[idx.function].1.cards[begin], parent_slice, 1) {
            Ok(parent) => {
                if !parent.accepts_child_at(last) {
                    return Err(CardFetchError::CardNotFound { depth: len - 1 });
                }
            },
            Err(d) => {
                return Err(CardFetchError::CardNotFound { depth: d });
            },
        }
        let entry = &mut self.functions[idx.function];
        let root = &mut entry.1.cards[begin];
        let parent = walk_mut(root, parent_slice, 1);
        let res = parent.insert_child(last, child);
        proof {
            lemma_replaced_at_walk(
                function_cards(*old(self), idx.function as int)[begin as int],
                function_cards(*final(self), idx.function as int)[begin as int],
                parent_path(*idx),
                *final(parent),
                1,
            );
        }
        match res {
            Ok(()) => Ok(()),
            Err(_) => Err(CardFetchError::CardNotFound { depth: len - 1 }),
        }
    }
}


/// The text of a card index: the function, then `.` and the index of each level.
pub open spec fn index_text(function: nat, path: Seq<u32>) -> Seq<char>
    decreases path.len(),
{
    if path.len() == 0 {
        decimal(function)
    } else {
        index_text(function, path.drop_last()) + seq!['.'] + decimal(path.last() as nat)
    }
}

impl CardIndex {
    /// The index as text, such as `0.1.2` for the child 2 of the child 1 of the first card of
    /// function 0.
    pub fn to_string(&self) -> (r: String)
        ensures
            r@ == index_text(self.function as nat, self.card_index.path()),
    {
        let mut s = String::new();
        push_decimal_usize(&mut s, self.function);
        let path = small_as_slice(&self.card_index.indices);
        let mut i: usize = 0;
        assert(path@.take(0) =~= Seq::<u32>::empty());
        while i < path.len()
            invariant
                i <= path@.len(),
                s@ == index_text(self.function as nat, path@.take(i as int)),
            decreases path@.len() - i,
        {
            push_char(&mut s, '.');
            push_decimal_usize(&mut s, path[i] as usize);
            proof {
                assert(path@.take(i + 1).drop_last() =~= path@.take(i as int));
            }
            i = i + 1;
        }
        assert(path@.take(i as int) =~= path@);
        s
    }
}

/// Why two cards could not be swapped.
#[derive(Debug, Clone)]
pub enum SwapError {
    /// The card at this index could not be fetched.
    FetchError(CardIndex, CardFetchError),
    /// The cards can not be swapped: one is nested in the other, or is missing.
    InvalidSwap,
}

/// The paths lead apart: at some level they hold different indices.
pub open spec fn paths_apart(a: Seq<u32>, b: Seq<u32>) -> bool
    decreases a.len(),
{
    &&& a.len() > 0
    &&& b.len() > 0
    &&& (a[0] != b[0] || paths_apart(a.drop_first(), b.drop_first()))
}

/// Neither index points at the other's card or at a card nested in it.
pub open spec fn indices_apart(a: CardIndex, b: CardIndex) -> bool {
    a.function != b.function || paths_apart(a.card_index.path(), b.card_index.path())
}

/// `inner` points at a card nested in the card that `outer` points at.
pub open spec fn nested_in(inner: CardIndex, outer: CardIndex) -> bool {
    let (i, o) = (inner.card_index.path(), outer.card_index.path());
    &&& inner.function == outer.function
    &&& o.len() < i.len()
    &&& o == i.subrange(0, o.len() as int)
}

/// The earlier of two indices.
pub open spec fn lower_index(a: CardIndex, b: CardIndex) -> CardIndex {
    if index_precedes(a, b) {
        a
    } else {
        b
    }
}

/// The later of two indices.
pub open spec fn upper_index(a: CardIndex, b: CardIndex) -> CardIndex {
    if index_precedes(a, b) {
        b
    } else {
        a
    }
}

/// `new` is `old` with the card that `idx` points at replaced by `sub`.
pub open spec fn replaced_card(old: Module, new: Module, idx: CardIndex, sub: Card) -> bool {
    card_replaced(
        old,
        new,
        idx.function as int,
        idx.card_index.path()[0] as int,
        idx.card_index.path().drop_first(),
        sub,
    )
}

/// What a successful swap of the cards at `lo` and `hi` does: the card at `lo` is taken out, a
/// `ScalarNil` card standing in for it; the card at `hi` is replaced by it; and the card taken
/// from `hi` goes to `lo`.
pub open spec fn swapped_through_nil(old: Module, new: Module, lo: CardIndex, hi: CardIndex) -> bool {
    exists|m1: Module, m2: Module, nil: Card|
        #![trigger replaced_card(old, m1, lo, nil), replaced_card(m2, new, lo, fetch(m1, hi)->Ok_0)]
        {
            &&& nil.body == CardBody::ScalarNil
            &&& replaced_card(old, m1, lo, nil)
            &&& replaced_card(m1, m2, hi, fetch(old, lo)->Ok_0)
            &&& replaced_card(m2, new, lo, fetch(m1, hi)->Ok_0)
        }
}

/// Leading apart is symmetric.
pub proof fn lemma_paths_apart_symmetric(a: Seq<u32>, b: Seq<u32>)
    ensures
        paths_apart(a, b) == paths_apart(b, a),
    decreases a.len(),
{
    if a.len() > 0 && b.len() > 0 && a[0] == b[0] {
        lemma_paths_apart_symmetric(a.drop_first(), b.drop_first());
    }
}

/// Two paths that do not lead apart are one a prefix of the other.
proof fn lemma_paths_not_apart(a: Seq<u32>, b: Seq<u32>)
    requires
        !paths_apart(a, b),
    ensures
        a.len() <= b.len() ==> a == b.subrange(0, a.len() as int),
        b.len() <= a.len() ==> b == a.subrange(0, b.len() as int),
    decreases a.len(),
{
    if a.len() > 0 && b.len() > 0 {
        lemma_paths_not_apart(a.drop_first(), b.drop_first());
        if a.len() <= b.len() {
            assert forall|k: int| 0 <= k < a.len() implies a[k] == b[k] by {
                if k > 0 {
                    assert(a.drop_first()[k - 1] == b.drop_first().subrange(0, a.len() - 1)[k - 1]);
                }
            }
            assert(a =~= b.subrange(0, a.len() as int));
        }
        if b.len() <= a.len() {
            assert forall|k: int| 0 <= k < b.len() implies b[k] == a[k] by {
                if k > 0 {
                    assert(b.drop_first()[k - 1] == a.drop_first().subrange(0, b.len() - 1)[k - 1]);
                }
            }
            assert(b =~= a.subrange(0, b.len() as int));
        }
    } else {
        assert(a.len() == 0 ==> a =~= b.subrange(0, 0));
        assert(b.len() == 0 ==> b =~= a.subrange(0, 0));
    }
}

/// A proper prefix comes before the paths it starts.
proof fn lemma_prefix_precedes(a: Seq<u32>, b: Seq<u32>)
    requires
        a.len() < b.len(),
        a == b.subrange(0, a.len() as int),
    ensures
        path_precedes(a, b),
    decreases a.len(),
{
    if a.len() > 0 {
        assert(a[0] == b[0]);
        assert(a.drop_first() =~= b.drop_first().subrange(0, a.len() - 1));
        lemma_prefix_precedes(a.drop_first(), b.drop_first());
    }
}

/// No path comes before a path that comes before it.
pub proof fn lemma_precedes_asymmetric(a: Seq<u32>, b: Seq<u32>)
    requires
        path_precedes(a, b),
    ensures
        !path_precedes(b, a),
    decreases a.len(),
{
    if a.len() > 0 && a[0] == b[0] {
        lemma_precedes_asymmetric(a.drop_first(), b.drop_first());
    }
}

/// Replacing the card at `p` leaves every walk that leads apart from `p` as it was.
proof fn lemma_walk_apart(old: Card, new: Card, p: Seq<u32>, sub: Card, q: Seq<u32>, depth: nat)
    requires
        replaced_at(old, new, p, sub),
        paths_apart(p, q),
    ensures
        walk(new, q, depth) == walk(old, q, depth),
    decreases p.len(),
{
    let i = p[0] as int;
    if q[0] == p[0] {
        lemma_walk_apart(old.children()[i], new.children()[i], p.drop_first(), sub, q.drop_first(), depth + 1);
    } else if (q[0] as int) < old.children().len() {
        assert(new.children()[q[0] as int] == old.children()[q[0] as int]);
    }
}

/// Replacing the card at `t` leaves what every index apart from `t` fetches as it was.
pub proof fn lemma_fetch_apart(m0: Module, m1: Module, t: CardIndex, sub: Card, idx: CardIndex)
    requires
        t.card_index.path().len() > 0,
        replaced_card(m0, m1, t, sub),
        indices_apart(t, idx),
    ensures
        fetch(m1, idx) == fetch(m0, idx),
{
    let f = t.function as int;
    let (tp, p) = (t.card_index.path(), idx.card_index.path());
    if idx.function != t.function {
        if idx.function < m0.functions@.len() {
            assert(m1.functions@[idx.function as int] == m0.functions@[idx.function as int]);
        }
    } else if p[0] != tp[0] {
        if (p[0] as int) < function_cards(m0, f).len() {
            assert(function_cards(m1, f)[p[0] as int] == function_cards(m0, f)[p[0] as int]);
        }
    } else {
        lemma_walk_apart(
            function_cards(m0, f)[p[0] as int],
            function_cards(m1, f)[p[0] as int],
            tp.drop_first(),
            sub,
            p.drop_first(),
            1,
        );
    }
}

/// Whether `inner` points at a card nested in the card that `outer` points at.
fn is_nested_in(inner: &CardIndex, outer: &CardIndex) -> (r: bool)
    ensures
        r == nested_in(*inner, *outer),
{
    if inner.function != outer.function {
        return false;
    }
    let i = small_as_slice(&inner.card_index.indices);
    let o = small_as_slice(&outer.card_index.indices);
    if o.len() >= i.len() {
        return false;
    }
    let mut k: usize = 0;
    while k < o.len()
        invariant
            o@ == outer.card_index.path(),
            i@ == inner.card_index.path(),
            inner.function == outer.function,
            o@.len() < i@.len(),
            k <= o@.len(),
            forall|j: int| 0 <= j < k ==> o@[j] == i@[j],
        decreases o@.len() - k,
    {
        if o[k] != i[k] {
            assert(o@[k as int] != i@.subrange(0, o@.len() as int)[k as int]);
            return false;
        }
        k += 1;
    }
    assert(o@ =~= i@.subrange(0, o@.len() as int));
    true
}

impl Module {
    /// Swaps the cards at `lhs` and `rhs`. The earlier index in their order is fetched first
    /// and its error returned; the swap is refused, and the module kept, when the later index
    /// points at no card or at one nested in the earlier one's card. Swapping an index with
    /// itself leaves a `ScalarNil` card there.
    pub fn swap_cards(&mut self, lhs: &CardIndex, rhs: &CardIndex) -> (r: Result<(), SwapError>)
        ensures
            ({
                let lo = lower_index(*lhs, *rhs);
                let hi = upper_index(*lhs, *rhs);
                let (m0, m) = (*old(self), *final(self));
                &&& (fetch(m0, lo) is Err ==> m == m0 && (r matches Err(SwapError::FetchError(i, e))
                    && i.function == lo.function && i.card_index.path() == lo.card_index.path()
                    && fetch(m0, lo) == Err::<Card, CardFetchError>(e)))
                &&& (fetch(m0, lo) is Ok && (fetch(m0, hi) is Err || nested_in(hi, lo)) ==> m == m0
                    && r matches Err(SwapError::InvalidSwap))
                &&& (fetch(m0, lo) is Ok && fetch(m0, hi) is Ok && !nested_in(hi, lo) ==> r is Ok
                    && swapped_through_nil(m0, m, lo, hi))
                &&& (r is Ok && indices_apart(lo, hi) ==> {
                    &&& fetch(m, lo) == fetch(m0, hi)
                    &&& fetch(m, hi) == fetch(m0, lo)
                    &&& forall|idx: CardIndex|
                        indices_apart(idx, lo) && indices_apart(idx, hi) ==> #[trigger] fetch(m, idx)
                            == fetch(m0, idx)
                })
                &&& (r is Ok && !indices_apart(lo, hi) ==> (fetch(m, lo) matches Ok(c) && c.body
                    == CardBody::ScalarNil))
            }),
    {
        let (lo, hi) = if *lhs < *rhs {
            (lhs, rhs)
        } else {
            (rhs, lhs)
        };
        proof {
            if index_precedes(*lhs, *rhs) && index_precedes(*rhs, *lhs) {
                lemma_precedes_asymmetric(lhs.card_index.path(), rhs.card_index.path());
            }
        }
        match self.get_card(lo) {
            Ok(_) => {},
            Err(e) => {
                return Err(SwapError::FetchError(lo.clone(), e));
            },
        }
        let hi_found = self.get_card(hi).is_ok();
        if !hi_found || is_nested_in(hi, lo) {
            return Err(SwapError::InvalidSwap);
        }
        let ghost m0 = *self;
        let ghost (lp, hp) = (lo.card_index.path(), hi.card_index.path());
        proof {
            if !indices_apart(*lo, *hi) {
                lemma_paths_not_apart(lp, hp);
                if hp.len() < lp.len() {
                    lemma_prefix_precedes(hp, lp);
                    lemma_precedes_asymmetric(hp, lp);
                }
                assert(lp =~= hp);
            } else {
                lemma_paths_apart_symmetric(lp, hp);
            }
        }
        let nil = Card::new(CardBody::ScalarNil);
        let ghost nil_card = nil;
        let lo_card = self.replace_card(lo, nil).unwrap();
        let ghost m1 = *self;
        proof {
            if indices_apart(*lo, *hi) {
                lemma_fetch_apart(m0, m1, *lo, nil_card, *hi);
            } else {
                lemma_replace_then_get(m0, m1, *lo, nil_card);
            }
        }
        let hi_card = self.replace_card(hi, lo_card).unwrap();
        let ghost m2 = *self;
        proof {
            if indices_apart(*lo, *hi) {
                lemma_fetch_apart(m1, m2, *hi, fetch(m0, *lo)->Ok_0, *lo);
                lemma_replace_then_get(m0, m1, *lo, nil_card);
            } else {
                lemma_replace_then_get(m1, m2, *hi, fetch(m0, *lo)->Ok_0);
            }
        }
        self.replace_card(lo, hi_card).unwrap();
        proof {
            let m3 = *self;
            assert(replaced_card(m0, m1, *lo, nil_card));
            assert(replaced_card(m2, m3, *lo, fetch(m1, *hi)->Ok_0));
            lemma_replace_then_get(m2, m3, *lo, hi_card);
            if indices_apart(*lo, *hi) {
                lemma_replace_then_get(m1, m2, *hi, fetch(m0, *lo)->Ok_0);
                lemma_fetch_apart(m2, m3, *lo, hi_card, *hi);
                assert forall|idx: CardIndex|
                    indices_apart(idx, *lo) && indices_apart(idx, *hi) implies #[trigger] fetch(m3, idx)
                    == fetch(m0, idx) by {
                    lemma_paths_apart_symmetric(idx.card_index.path(), lo.card_index.path());
                    lemma_paths_apart_symmetric(idx.card_index.path(), hi.card_index.path());
                    lemma_fetch_apart(m0, m1, *lo, nil_card, idx);
                    lemma_fetch_apart(m1, m2, *hi, fetch(m0, *lo)->Ok_0, idx);
                    lemma_fetch_apart(m2, m3, *lo, hi_card, idx);
                }
            }
        }
        Ok(())
    }
}

/// The UTF-8 bytes of a name.
pub open spec fn name_bytes(s: String) -> Seq<u8> {
    vstd::utf8::encode_utf8(s@)
}

/// The index of the first entry at or after `i` whose name has the bytes `name`.
pub open spec fn first_named_from<T>(entries: Seq<(String, T)>, name: Seq<u8>, i: int) -> Option<int>
    decreases entries.len() - i,
{
    if i < 0 || i >= entries.len() {
        None
    } else if name_bytes(entries[i].0) == name {
        Some(i)
    } else {
        first_named_from(entries, name, i + 1)
    }
}

/// The index of the first entry whose name has the bytes `name`.
pub open spec fn first_named<T>(entries: Seq<(String, T)>, name: Seq<u8>) -> Option<int> {
    first_named_from(entries, name, 0)
}

/// The index of the first `.` at or after `i` in `b`, or the length of `b`.
pub open spec fn next_dot(b: Seq<u8>, i: int) -> int
    decreases b.len() - i,
{
    if i >= b.len() {
        b.len() as int
    } else if b[i] == 0x2eu8 {
        i
    } else {
        next_dot(b, i + 1)
    }
}

/// The parts of `b` from `i` on, separated by `.`, as `str::split('.')` gives them.
pub open spec fn segments_from(b: Seq<u8>, i: int) -> Seq<Seq<u8>>
    decreases b.len() - i,
{
    let end = next_dot(b, i);
    if i < 0 || i > b.len() || end >= b.len() {
        seq![b.subrange(i, b.len() as int)]
    } else if end < i {
        seq![]
    } else {
        seq![b.subrange(i, end)] + segments_from(b, end + 1)
    }
}

/// The submodule reached from `m` through the submodules named by `segs`, each the first of
/// its name.
pub open spec fn submodule_at(m: Module, segs: Seq<Seq<u8>>) -> Option<Module>
    decreases segs.len(),
{
    if segs.len() == 0 {
        Some(m)
    } else {
        match first_named(m.submodules@, segs[0]) {
            Some(j) => submodule_at(m.submodules@[j].1, segs.drop_first()),
            None => None,
        }
    }
}

/// The index of the last `.` in `b` before `i`.
pub open spec fn last_dot_before(b: Seq<u8>, i: int) -> Option<int>
    decreases i,
{
    if i <= 0 {
        None
    } else if b[i - 1] == 0x2eu8 {
        Some(i - 1)
    } else {
        last_dot_before(b, i - 1)
    }
}

/// The function that `target` names in `m`: a name, or submodule names and a function name
/// separated by `.`.
pub open spec fn function_at(m: Module, target: Seq<u8>) -> Option<Function> {
    match last_dot_before(target, target.len() as int) {
        None => match first_named(m.functions@, target) {
            Some(j) => Some(m.functions@[j].1),
            None => None,
        },
        Some(k) => match submodule_at(m, segments_from(target.take(k), 0)) {
            Some(sm) => match first_named(sm.functions@, target.skip(k + 1)) {
                Some(j) => Some(sm.functions@[j].1),
                None => None,
            },
            None => None,
        },
    }
}

/// The writes that hashing the keys of `cards` makes: the name of each card, in order.
pub open spec fn card_key_writes(cards: Seq<Card>) -> Seq<Seq<u8>> {
    cards.map_values(|c: Card| vstd::utf8::encode_utf8(c.spec_name()))
}

/// The writes that hashing the keys of `functions` makes: for each function its name, then the
/// names of its cards.
pub open spec fn functions_key_writes(functions: Seq<(String, Function)>) -> Seq<Seq<u8>>
    decreases functions.len(),
{
    if functions.len() == 0 {
        Seq::empty()
    } else {
        seq![name_bytes(functions[0].0)] + card_key_writes(functions[0].1.cards@)
            + functions_key_writes(functions.drop_first())
    }
}

/// The writes that hashing the keys of `m` makes: those of its functions, then for each
/// submodule its name and the writes of its keys.
pub open spec fn module_key_writes(m: Module) -> Seq<Seq<u8>>
    decreases m,
{
    functions_key_writes(m.functions@) + submodules_key_writes(m.submodules@)
}

/// The writes that hashing the keys of `submodules` makes.
pub open spec fn submodules_key_writes(submodules: Seq<(String, Module)>) -> Seq<Seq<u8>>
    decreases submodules,
{
    if submodules.len() == 0 {
        Seq::empty()
    } else {
        seq![name_bytes(submodules[0].0)] + module_key_writes(submodules[0].1)
            + submodules_key_writes(submodules.subrange(1, submodules.len() as int))
    }
}

/// Writes the keys of `functions` into `hasher`.
fn hash_functions(hasher: &mut DefaultHasher, functions: &Vec<(String, Function)>)
    ensures
        final(hasher)@ == old(hasher)@ + functions_key_writes(functions@),
{
    let mut i: usize = 0;
    assert(functions@.skip(0) =~= functions@);
    assert(old(hasher)@ + functions_key_writes(functions@) =~= hasher@ + functions_key_writes(
        functions@.skip(0),
    ));
    while i < functions.len()
        invariant
            i <= functions@.len(),
            old(hasher)@ + functions_key_writes(functions@) == hasher@ + functions_key_writes(
                functions@.skip(i as int),
            ),
        decreases functions@.len() - i,
    {
        let ghost h0 = hasher@;
        let ghost rest = functions@.skip(i as int);
        hasher.write(functions[i].0.as_str().as_bytes());
        let cards = &functions[i].1.cards;
        let mut j: usize = 0;
        assert(card_key_writes(cards@.take(0)) =~= Seq::<Seq<u8>>::empty());
        while j < cards.len()
            invariant
                j <= cards@.len(),
                hasher@ == h0.push(name_bytes(functions@[i as int].0)) + card_key_writes(
                    cards@.take(j as int),
                ),
            decreases cards@.len() - j,
        {
            hasher.write(cards[j].name().as_bytes());
            assert(card_key_writes(cards@.take(j + 1)) =~= card_key_writes(cards@.take(j as int)).push(
                vstd::utf8::encode_utf8(cards@[j as int].spec_name()),
            ));
            j = j + 1;
        }
        proof {
            assert(cards@.take(j as int) =~= cards@);
            assert(rest.drop_first() =~= functions@.skip(i + 1));
            assert(rest[0] == functions@[i as int]);
            assert(functions_key_writes(rest) == seq![name_bytes(rest[0].0)] + card_key_writes(
                rest[0].1.cards@,
            ) + functions_key_writes(rest.drop_first()));
            assert(h0 + functions_key_writes(rest) =~= hasher@ + functions_key_writes(
                functions@.skip(i + 1),
            ));
        }
        i = i + 1;
    }
    assert(functions_key_writes(functions@.skip(i as int)) =~= Seq::<Seq<u8>>::empty());
    assert(hasher@ + Seq::<Seq<u8>>::empty() =~= hasher@);
}

/// Writes the keys of `module` into `hasher`.
fn hash_module(hasher: &mut DefaultHasher, module: &Module)
    ensures
        final(hasher)@ == old(hasher)@ + module_key_writes(*module),
    decreases *module,
{
    hash_functions(hasher, &module.functions);
    let ghost h1 = hasher@;
    let subs = &module.submodules;
    let mut i: usize = 0;
    assert(subs@.skip(0) =~= subs@);
    assert(old(hasher)@ + module_key_writes(*module) =~= h1 + submodules_key_writes(subs@.skip(0)));
    while i < subs.len()
        invariant
            i <= subs@.len(),
            subs == module.submodules,
            old(hasher)@ + module_key_writes(*module) == hasher@ + submodules_key_writes(
                subs@.skip(i as int),
            ),
        decreases subs@.len() - i,
    {
        let ghost h0 = hasher@;
        let ghost rest = subs@.skip(i as int);
        hasher.write(subs[i].0.as_str().as_bytes());
        proof {
            assert(decreases_to!(*module => module.submodules@[i as int].1));
        }
        hash_module(hasher, &subs[i].1);
        proof {
            assert(rest.subrange(1, rest.len() as int) =~= subs@.skip(i + 1));
            assert(rest[0] == subs@[i as int]);
            assert(h0 + submodules_key_writes(rest) =~= hasher@ + submodules_key_writes(
                subs@.skip(i + 1),
            ));
        }
        i = i + 1;
    }
    assert(submodules_key_writes(subs@.skip(i as int)) =~= Seq::<Seq<u8>>::empty());
    assert(hasher@ + Seq::<Seq<u8>>::empty() =~= hasher@);
}

impl Module {
    /// A hash of the keys of the program: the names of its functions, of their cards and of
    /// its submodules, all the way down.
    pub fn compute_keys_hash(&self) -> (r: u64)
        ensures
            r == DefaultHasher::spec_finish(module_key_writes(*self)),
    {
        let mut hasher = DefaultHasher::new();
        hash_module(&mut hasher, self);
        assert(Seq::<Seq<u8>>::empty() + module_key_writes(*self) =~= module_key_writes(*self));
        hasher.finish()
    }
}

/// `new` is `old` with the submodule reached through `segs` replaced by `sub`; the names and
/// everything else on the way are kept.
pub open spec fn submodule_replaced(old: Module, new: Module, segs: Seq<Seq<u8>>, sub: Module) -> bool
    decreases segs.len(),
{
    if segs.len() == 0 {
        new == sub
    } else {
        match first_named(old.submodules@, segs[0]) {
            Some(j) => {
                &&& new.functions@ == old.functions@
                &&& new.imports@ == old.imports@
                &&& new.submodules@.len() == old.submodules@.len()
                &&& forall|k: int|
                    0 <= k < old.submodules@.len() && k != j ==> #[trigger] new.submodules@[k]
                        == old.submodules@[k]
                &&& new.submodules@[j].0 == old.submodules@[j].0
                &&& submodule_replaced(
                    old.submodules@[j].1,
                    new.submodules@[j].1,
                    segs.drop_first(),
                    sub,
                )
            },
            None => false,
        }
    }
}

/// `new` is `m` with the function at `j` given the body `f`; its name and everything else are
/// kept.
pub open spec fn function_entry_replaced(m: Module, new: Module, j: int, f: Function) -> bool {
    &&& 0 <= j < m.functions@.len()
    &&& new.submodules@ == m.submodules@
    &&& new.imports@ == m.imports@
    &&& new.functions@ == m.functions@.update(j, (m.functions@[j].0, f))
}

/// `new` is `old` with the function that `target` names replaced by `f`; everything else is
/// kept.
pub open spec fn function_replaced(old: Module, new: Module, target: Seq<u8>, f: Function) -> bool {
    match last_dot_before(target, target.len() as int) {
        None => match first_named(old.functions@, target) {
            Some(j) => function_entry_replaced(old, new, j, f),
            None => false,
        },
        Some(k) => {
            let segs = segments_from(target.take(k), 0);
            &&& submodule_at(old, segs) is Some
            &&& submodule_at(new, segs) is Some
            &&& submodule_replaced(old, new, segs, submodule_at(new, segs)->Some_0)
            &&& match first_named(submodule_at(old, segs)->Some_0.functions@, target.skip(k + 1)) {
                Some(j) => function_entry_replaced(
                    submodule_at(old, segs)->Some_0,
                    submodule_at(new, segs)->Some_0,
                    j,
                    f,
                ),
                None => false,
            }
        },
    }
}

/// The first entry of a name is found at the same place in two lists with the same names.
proof fn lemma_first_named_same_names<T, U>(a: Seq<(String, T)>, b: Seq<(String, U)>, name: Seq<u8>, i: int)
    requires
        a.len() == b.len(),
        forall|k: int| 0 <= k < a.len() ==> #[trigger] a[k].0 == b[k].0,
    ensures
        first_named_from(a, name, i) == first_named_from(b, name, i),
    decreases a.len() - i,
{
    if 0 <= i < a.len() {
        assert(a[i].0 == b[i].0);
        lemma_first_named_same_names(a, b, name, i + 1);
    }
}

/// After replacing the submodule reached through `segs`, the same names reach the new one.
pub broadcast proof fn lemma_submodule_replaced_at(old: Module, new: Module, segs: Seq<Seq<u8>>, sub: Module)
    requires
        #[trigger] submodule_replaced(old, new, segs, sub),
    ensures
        submodule_at(new, segs) == Some(sub),
    decreases segs.len(),
{
    if segs.len() > 0 {
        let j = first_named(old.submodules@, segs[0])->Some_0;
        assert forall|k: int| 0 <= k < old.submodules@.len() implies #[trigger] old.submodules@[k].0
            == new.submodules@[k].0 by {
            if k != j {
                assert(new.submodules@[k] == old.submodules@[k]);
            }
        }
        lemma_first_named_same_names(old.submodules@, new.submodules@, segs[0], 0);
        lemma_submodule_replaced_at(old.submodules@[j].1, new.submodules@[j].1, segs.drop_first(), sub);
    }
}

/// Walks down from `m` through the `.`-separated submodule names of `path[start..]`, for
/// writing; the walk is known to reach a submodule.
fn submodule_by_path_mut<'a>(m: &'a mut Module, path: &[u8], start: usize) -> (r: &'a mut Module)
    requires
        start <= path@.len(),
        submodule_at(*old(m), segments_from(path@, start as int)) is Some,
    ensures
        *r == submodule_at(*old(m), segments_from(path@, start as int))->Some_0,
        submodule_replaced(*old(m), *final(m), segments_from(path@, start as int), *final(r)),
    decreases path@.len() - start,
{
    let end = find_dot(path, start);
    proof {
        lemma_next_dot_bounds(path@, start as int);
    }
    let seg = &path[start..end];
    let ghost segs = segments_from(path@, start as int);
    proof {
        assert(segs[0] == seg@);
        reveal_with_fuel(submodule_at, 2);
        reveal_with_fuel(submodule_replaced, 2);
    }
    let j = find_named(&m.submodules, seg).unwrap();
    if end >= path.len() {
        proof {
            assert(segs.drop_first() =~= Seq::<Seq<u8>>::empty());
        }
        let entry = &mut m.submodules[j];
        &mut entry.1
    } else {
        proof {
            assert(segs.drop_first() =~= segments_from(path@, end + 1));
        }
        let entry = &mut m.submodules[j];
        submodule_by_path_mut(&mut entry.1, path, end + 1)
    }
}

impl Module {
    /// Mutable access to the submodule that `target` names: submodule names separated by `.`.
    /// Writing through the returned reference changes that submodule and nothing else.
    pub fn lookup_submodule_mut(&mut self, target: &str) -> (r: Option<&mut Module>)
        ensures
            r is Some == submodule_at(*old(self), segments_from(target.spec_bytes(), 0)) is Some,
            r matches Some(m) ==> *m == submodule_at(
                *old(self),
                segments_from(target.spec_bytes(), 0),
            )->Some_0 && submodule_replaced(
                *old(self),
                *final(self),
                segments_from(target.spec_bytes(), 0),
                *final(m),
            ),
            r is None ==> *final(self) == *old(self),
    {
        let b = target.as_bytes();
        if self.submodule_by_path(b).is_none() {
            return None;
        }
        Some(submodule_by_path_mut(self, b, 0))
    }

    /// Mutable access to the function that `target` names: a name, or submodule names and a
    /// function name separated by `.`. Writing through the returned reference changes that
    /// function and nothing else.
    pub fn lookup_function_mut(&mut self, target: &str) -> (r: Option<&mut Function>)
        ensures
            r is Some == function_at(*old(self), target.spec_bytes()) is Some,
            r matches Some(f) ==> *f == function_at(*old(self), target.spec_bytes())->Some_0
                && function_replaced(*old(self), *final(self), target.spec_bytes(), *final(f)),
            r is None ==> *final(self) == *old(self),
    {
        broadcast use lemma_submodule_replaced_at;

        if self.lookup_function(target).is_none() {
            return None;
        }
        let b = target.as_bytes();
        let mut k = b.len();
        while k > 0 && b[k - 1] != 0x2e
            invariant
                k <= b@.len(),
                last_dot_before(b@, b@.len() as int) == last_dot_before(b@, k as int),
            decreases k,
        {
            k = k - 1;
        }
        if k == 0 {
            let j = find_named(&self.functions, b).unwrap();
            let entry = &mut self.functions[j];
            return Some(&mut entry.1);
        }
        let dot = k - 1;
        let prefix = &b[0..dot];
        let suffix = &b[dot + 1..b.len()];
        proof {
            assert(prefix@ =~= b@.take(dot as int));
            assert(suffix@ =~= b@.skip(dot + 1));
        }
        let m = submodule_by_path_mut(self, prefix, 0);
        let j = find_named(&m.functions, suffix).unwrap();
        let entry = &mut m.functions[j];
        Some(&mut entry.1)
    }
}

/// Whether `char::is_alphanumeric` holds of a character: whether it is alphabetic or numeric
/// in Unicode.
pub uninterp spec fn alphanumeric(c: char) -> bool;

/// `char::is_alphanumeric`: whether `c` is alphabetic or numeric in Unicode. Which characters
/// those are is named, not stated.
#[verifier::external_body]
fn is_alphanumeric(c: char) -> (r: bool)
    ensures
        r == alphanumeric(c),
{
    c.is_alphanumeric()
}

/// A name of a function or module: not empty, made of alphanumeric characters and `_`, and not
/// the reserved `super`.
pub open spec fn valid_name(name: Seq<char>) -> bool {
    &&& name.len() > 0
    &&& forall|i: int| 0 <= i < name.len() ==> alphanumeric(#[trigger] name[i]) || name[i] == '_'
    &&& name != "super"@
}

/// Whether `name` may name a function or a module.
pub fn is_name_valid(name: &str) -> (r: bool)
    ensures
        r == valid_name(name@),
{
    let n = name.unicode_len();
    let mut i: usize = 0;
    while i < n
        invariant
            n == name@.len(),
            i <= n,
            forall|j: int| 0 <= j < i ==> alphanumeric(#[trigger] name@[j]) || name@[j] == '_',
        decreases n - i,
    {
        let c = name.get_char(i);
        if !is_alphanumeric(c) && c != '_' {
            return false;
        }
        i = i + 1;
    }
    if n == 0 {
        return false;
    }
    let reserved = "super";
    let same = bytes_eq(name.as_bytes(), reserved.as_bytes());
    proof {
        reveal_strlit("super");
        vstd::utf8::encode_utf8_decode_utf8(name@);
        vstd::utf8::encode_utf8_decode_utf8(reserved@);
    }
    !same
}

proof fn lemma_next_dot_bounds(b: Seq<u8>, i: int)
    requires
        0 <= i <= b.len(),
    ensures
        i <= next_dot(b, i) <= b.len(),
        next_dot(b, i) < b.len() ==> b[next_dot(b, i)] == 0x2eu8,
    decreases b.len() - i,
{
    if i < b.len() && b[i] != 0x2eu8 {
        lemma_next_dot_bounds(b, i + 1);
    }
}

/// The index of the first entry named `name`.
fn find_named<T>(entries: &Vec<(String, T)>, name: &[u8]) -> (r: Option<usize>)
    ensures
        r is Some == first_named(entries@, name@) is Some,
        r matches Some(j) ==> first_named(entries@, name@) == Some(j as int) && j < entries@.len(),
{
    let mut i: usize = 0;
    while i < entries.len()
        invariant
            i <= entries@.len(),
            first_named_from(entries@, name@, 0) == first_named_from(entries@, name@, i as int),
        decreases entries@.len() - i,
    {
        if bytes_eq(entries[i].0.as_str().as_bytes(), name) {
            return Some(i);
        }
        i = i + 1;
    }
    None
}

/// The index of the first `.` at or after `i` in `b`, or the length of `b`.
fn find_dot(b: &[u8], i: usize) -> (r: usize)
    requires
        i <= b@.len(),
    ensures
        r == next_dot(b@, i as int),
{
    let mut k = i;
    while k < b.len() && b[k] != 0x2e
        invariant
            i <= k <= b@.len(),
            next_dot(b@, i as int) == next_dot(b@, k as int),
        decreases b@.len() - k,
    {
        k = k + 1;
    }
    k
}

impl Module {
    /// The submodule reached through the `.`-separated submodule names of `path`.
    fn submodule_by_path(&self, path: &[u8]) -> (r: Option<&Module>)
        ensures
            r is Some == submodule_at(*self, segments_from(path@, 0)) is Some,
            r matches Some(m) ==> *m == submodule_at(*self, segments_from(path@, 0))->Some_0,
    {
        let mut current = self;
        let mut start: usize = 0;
        loop
            invariant
                start <= path@.len(),
                submodule_at(*self, segments_from(path@, 0)) == submodule_at(
                    *current,
                    segments_from(path@, start as int),
                ),
            decreases path@.len() - start,
        {
            let end = find_dot(path, start);
            proof {
                lemma_next_dot_bounds(path@, start as int);
            }
            let seg = &path[start..end];
            let ghost prev = *current;
            let ghost segs = segments_from(path@, start as int);
            proof {
                assert(segs[0] == seg@);
            }
            match find_named(&current.submodules, seg) {
                Some(j) => {
                    current = &current.submodules[j].1;
                },
                None => {
                    return None;
                },
            }
            if end >= path.len() {
                proof {
                    assert(segs.drop_first() =~= Seq::<Seq<u8>>::empty());
                    assert(submodule_at(*current, segs.drop_first()) == Some(*current));
                    assert(submodule_at(prev, segs) == submodule_at(*current, segs.drop_first()));
                }
                return Some(current);
            }
            proof {
                assert(segs.drop_first() =~= segments_from(path@, end + 1));
                assert(submodule_at(prev, segs) == submodule_at(*current, segs.drop_first()));
            }
            start = end + 1;
        }
    }

    /// The submodule that `target` names: submodule names separated by `.`.
    pub fn lookup_submodule(&self, target: &str) -> (r: Option<&Module>)
        ensures
            r is Some == submodule_at(*self, segments_from(target.spec_bytes(), 0)) is Some,
            r matches Some(m) ==> *m == submodule_at(*self, segments_from(target.spec_bytes(), 0))->Some_0,
    {
        self.submodule_by_path(target.as_bytes())
    }

    /// The function that `target` names: a name, or submodule names and a function name
    /// separated by `.`.
    pub fn lookup_function(&self, target: &str) -> (r: Option<&Function>)
        ensures
            r is Some == function_at(*self, target.spec_bytes()) is Some,
            r matches Some(f) ==> *f == function_at(*self, target.spec_bytes())->Some_0,
    {
        let b = target.as_bytes();
        let mut k = b.len();
        while k > 0 && b[k - 1] != 0x2e
            invariant
                k <= b@.len(),
                last_dot_before(b@, b@.len() as int) == last_dot_before(b@, k as int),
            decreases k,
        {
            k = k - 1;
        }
        if k == 0 {
            return match find_named(&self.functions, b) {
                Some(j) => Some(&self.functions[j].1),
                None => None,
            };
        }
        let dot = k - 1;
        let prefix = &b[0..dot];
        let suffix = &b[dot + 1..b.len()];
        proof {
            assert(prefix@ =~= b@.take(dot as int));
            assert(suffix@ =~= b@.skip(dot + 1));
        }
        match self.submodule_by_path(prefix) {
            Some(m) => match find_named(&m.functions, suffix) {
                Some(j) => Some(&m.functions[j].1),
                None => None,
            },
            None => None,
        }
    }
}

} // verus!
