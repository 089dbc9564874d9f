//! Linear probing over a table of slots, shared by the open-addressing maps.
//!
//! A table is modelled as a sequence of slots, `None` for an empty slot. A lookup for a
//! target starts at the target's home slot and walks forward, wrapping around, until it
//! reaches an empty slot or a slot holding the target.
use vstd::prelude::*;

verus! {

/// Number of forward steps, wrapping around a table of `len` slots, from slot `h` to slot `j`.
pub open spec fn dist(len: int, h: int, j: int) -> int {
    if j >= h {
        j - h
    } else {
        j - h + len
    }
}

/// A lookup for `t` stops at slot `r`: it is empty or holds `t`.
pub open spec fn stops_at<A>(s: Seq<Option<A>>, t: A, r: int) -> bool {
    s[r] is None || s[r] == Some(t)
}

/// `r` is where a lookup for `t` starting at `h` ends: the first slot, walking forward from
/// `h`, at which it stops.
pub open spec fn is_probe_end<A>(s: Seq<Option<A>>, t: A, h: int, r: int) -> bool {
    &&& 0 <= r < s.len()
    &&& stops_at(s, t, r)
    &&& forall|j: int|
        0 <= j < s.len() && #[trigger] dist(s.len() as int, h, j) < dist(s.len() as int, h, r)
            ==> !stops_at(s, t, j)
}

/// The table has an empty slot.
pub open spec fn has_vacancy<A>(s: Seq<Option<A>>) -> bool {
    exists|i: int| 0 <= i < s.len() && s[i] is None
}

/// The slot at which a lookup for `t` starting at `h` ends.
pub open spec fn find<A>(s: Seq<Option<A>>, t: A, h: int) -> int {
    choose|r: int| is_probe_end(s, t, h, r)
}

/// Number of occupied slots.
pub open spec fn num_occupied<A>(s: Seq<Option<A>>) -> nat
    decreases s.len(),
{
    if s.len() == 0 {
        0
    } else {
        num_occupied(s.drop_last()) + if s.last() is Some { 1nat } else { 0nat }
    }
}

/// Two lookups ending rules agree: the end of a lookup is unique.
pub proof fn lemma_probe_end_unique<A>(s: Seq<Option<A>>, t: A, h: int, r1: int, r2: int)
    requires
        0 <= h < s.len(),
        is_probe_end(s, t, h, r1),
        is_probe_end(s, t, h, r2),
    ensures
        r1 == r2,
{
    let len = s.len() as int;
    if dist(len, h, r1) < dist(len, h, r2) {
        assert(!stops_at(s, t, r1));
    } else if dist(len, h, r2) < dist(len, h, r1) {
        assert(!stops_at(s, t, r2));
    }
}

proof fn lemma_walk<A>(s: Seq<Option<A>>, t: A, h: int, d: int)
    requires
        0 <= h < s.len(),
        0 <= d <= s.len(),
        has_vacancy(s),
        forall|j: int|
            0 <= j < s.len() && #[trigger] dist(s.len() as int, h, j) < d ==> !stops_at(s, t, j),
    ensures
        exists|r: int| is_probe_end(s, t, h, r),
    decreases s.len() - d,
{
    let len = s.len() as int;
    if d == len {
        let v = choose|i: int| 0 <= i < s.len() && s[i] is None;
        assert(dist(len, h, v) < d);
        assert(!stops_at(s, t, v));
    } else {
        let r = if h + d < len { h + d } else { h + d - len };
        assert(dist(len, h, r) == d);
        if stops_at(s, t, r) {
            assert(is_probe_end(s, t, h, r));
        } else {
            assert forall|j: int|
                0 <= j < s.len() && #[trigger] dist(len, h, j) < d + 1 implies !stops_at(
                s,
                t,
                j,
            ) by {
                if dist(len, h, j) == d {
                    assert(j == r);
                }
            }
            lemma_walk(s, t, h, d + 1);
        }
    }
}

/// In a table with an empty slot every lookup ends, at `find`.
pub proof fn lemma_find<A>(s: Seq<Option<A>>, t: A, h: int)
    requires
        0 <= h < s.len(),
        has_vacancy(s),
    ensures
        is_probe_end(s, t, h, find(s, t, h)),
        forall|r: int| is_probe_end(s, t, h, r) ==> r == find(s, t, h),
{
    lemma_walk(s, t, h, 0);
    assert forall|r: int| is_probe_end(s, t, h, r) implies r == find(s, t, h) by {
        lemma_probe_end_unique(s, t, h, r, find(s, t, h));
    }
}

/// A lookup that ends at `r` is unaffected by a change to a slot it never visits.
pub proof fn lemma_probe_end_frame<A>(s: Seq<Option<A>>, s2: Seq<Option<A>>, t: A, h: int, r: int)
    requires
        s.len() == s2.len(),
        is_probe_end(s, t, h, r),
        stops_at(s2, t, r),
        forall|j: int|
            0 <= j < s.len() && dist(s.len() as int, h, j) < dist(s.len() as int, h, r) ==> s2[j]
                == s[j],
    ensures
        is_probe_end(s2, t, h, r),
{
    assert forall|j: int|
        0 <= j < s2.len() && #[trigger] dist(s2.len() as int, h, j) < dist(s2.len() as int, h, r)
            implies !stops_at(s2, t, j) by {
        assert(s2[j] == s[j]);
        assert(!stops_at(s, t, j));
    }
}

pub proof fn lemma_num_occupied_bound<A>(s: Seq<Option<A>>)
    ensures
        num_occupied(s) <= s.len(),
    decreases s.len(),
{
    if s.len() > 0 {
        lemma_num_occupied_bound(s.drop_last());
    }
}

/// Fewer occupied slots than slots means there is an empty slot.
pub proof fn lemma_vacancy<A>(s: Seq<Option<A>>)
    requires
        num_occupied(s) < s.len(),
    ensures
        has_vacancy(s),
    decreases s.len(),
{
    let n = s.len() as int;
    if s.last() is None {
        assert(s[n - 1] is None);
    } else {
        lemma_vacancy(s.drop_last());
        let i = choose|i: int| 0 <= i < s.drop_last().len() && s.drop_last()[i] is None;
        assert(s[i] is None);
    }
}

/// Changing one slot changes the number of occupied slots by the change at that slot.
pub proof fn lemma_num_occupied_update<A>(s: Seq<Option<A>>, i: int, v: Option<A>)
    requires
        0 <= i < s.len(),
    ensures
        num_occupied(s.update(i, v)) + (if s[i] is Some { 1int } else { 0int }) == num_occupied(s)
            + (if v is Some { 1int } else { 0int }),
    decreases s.len(),
{
    let n = s.len() as int;
    if i == n - 1 {
        assert(s.update(i, v).drop_last() =~= s.drop_last());
    } else {
        lemma_num_occupied_update(s.drop_last(), i, v);
        assert(s.update(i, v).drop_last() =~= s.drop_last().update(i, v));
    }
}

/// An all-empty table has no occupied slot.
pub proof fn lemma_num_occupied_empty<A>(s: Seq<Option<A>>)
    requires
        forall|i: int| 0 <= i < s.len() ==> s[i] is None,
    ensures
        num_occupied(s) == 0,
    decreases s.len(),
{
    if s.len() > 0 {
        lemma_num_occupied_empty(s.drop_last());
    }
}

/// Every target's home slot is a slot of the table.
pub open spec fn valid_home<A>(s: Seq<Option<A>>, home: spec_fn(A) -> int) -> bool {
    forall|t: A| 0 <= #[trigger] home(t) < s.len()
}

/// The slot at which a lookup for `t` ends, starting at its home slot.
pub open spec fn slot_for<A>(s: Seq<Option<A>>, home: spec_fn(A) -> int, t: A) -> int {
    find(s, t, home(t))
}

/// A lookup for `t` finds it.
pub open spec fn present<A>(s: Seq<Option<A>>, home: spec_fn(A) -> int, t: A) -> bool {
    s[slot_for(s, home, t)] == Some(t)
}

/// Every stored target is found by a lookup, at the slot that holds it.
pub open spec fn consistent<A>(s: Seq<Option<A>>, home: spec_fn(A) -> int) -> bool {
    forall|i: int|
        0 <= i < s.len() && #[trigger] s[i] is Some ==> slot_for(s, home, s[i].unwrap()) == i
}

/// Storing `t` at the slot where its lookup ends: `t` is then found there, every target
/// found before is still found at the same slot, and consistency is kept.
pub proof fn lemma_store<A>(s: Seq<Option<A>>, home: spec_fn(A) -> int, t: A)
    requires
        valid_home(s, home),
        has_vacancy(s),
        has_vacancy(s.update(slot_for(s, home, t), Some(t))),
    ensures
        ({
            let s2 = s.update(slot_for(s, home, t), Some(t));
            &&& slot_for(s2, home, t) == slot_for(s, home, t)
            &&& present(s2, home, t)
            &&& forall|t2: A|
                t2 != t && #[trigger] present(s, home, t2) ==> present(s2, home, t2) && slot_for(
                    s2,
                    home,
                    t2,
                ) == slot_for(s, home, t2)
            &&& consistent(s, home) ==> consistent(s2, home)
            &&& consistent(s, home) ==> forall|t2: A|
                t2 != t && #[trigger] present(s2, home, t2) ==> present(s, home, t2)
        }),
{
    let sl = slot_for(s, home, t);
    let s2 = s.update(sl, Some(t));
    let len = s.len() as int;
    assert(0 <= home(t) < len);
    lemma_find(s, t, home(t));
    lemma_probe_end_frame(s, s2, t, home(t), sl);
    lemma_find(s2, t, home(t));
    assert forall|t2: A| t2 != t && #[trigger] present(s, home, t2) implies present(s2, home, t2)
        && slot_for(s2, home, t2) == slot_for(s, home, t2) by {
        assert(0 <= home(t2) < len);
        lemma_find(s, t2, home(t2));
        let r2 = slot_for(s, home, t2);
        if s[sl] is None {
            assert(stops_at(s, t2, sl));
            assert forall|j: int|
                0 <= j < s.len() && dist(len, home(t2), j) < dist(len, home(t2), r2) implies s2[j]
                == s[j] by {
                assert(!stops_at(s, t2, j));
            }
        } else {
            assert(s2 =~= s);
        }
        lemma_probe_end_frame(s, s2, t2, home(t2), r2);
        lemma_find(s2, t2, home(t2));
    }
    if consistent(s, home) {
        assert forall|t2: A| t2 != t && #[trigger] present(s2, home, t2) implies present(
            s,
            home,
            t2,
        ) by {
            assert(0 <= home(t2) < len);
            lemma_find(s2, t2, home(t2));
            let r3 = slot_for(s2, home, t2);
            assert(r3 != sl);
            assert(s[r3] == Some(t2));
            assert(s[r3] is Some);
        }
        assert forall|i: int| 0 <= i < s2.len() && #[trigger] s2[i] is Some implies slot_for(
            s2,
            home,
            s2[i].unwrap(),
        ) == i by {
            if i != sl {
                let t2 = s[i].unwrap();
                assert(s[i] is Some);
                assert(slot_for(s, home, t2) == i);
                if t2 == t {
                    assert(false);
                }
                assert(present(s, home, t2));
            }
        }
    }
}

/// Going from `a` to `c` through `b`, where `b` comes no later than `c`: the steps from `b` to
/// `c` are those from `a` to `c` less those from `a` to `b`.
pub proof fn lemma_dist_sub(len: int, a: int, b: int, c: int)
    requires
        0 <= a < len,
        0 <= b < len,
        0 <= c < len,
        dist(len, a, b) <= dist(len, a, c),
    ensures
        dist(len, b, c) == dist(len, a, c) - dist(len, a, b),
{
}

/// Steps add up along the way when they do not wrap past the start.
pub proof fn lemma_dist_add(len: int, a: int, b: int, c: int)
    requires
        0 <= a < len,
        0 <= b < len,
        0 <= c < len,
        dist(len, a, b) + dist(len, b, c) < len,
    ensures
        dist(len, a, c) == dist(len, a, b) + dist(len, b, c),
{
}

/// The table is consistent apart from a gap at `h`: a lookup for a stored target meets no
/// empty slot and no other copy of it before the target's slot, except that it may meet the
/// gap when the target lies at `j` or after it, counting from the gap.
pub open spec fn gap_ok<A>(s: Seq<Option<A>>, home: spec_fn(A) -> int, h: int, j: int) -> bool {
    forall|p: int, q: int|
        #![trigger s[p], s[q]]
        0 <= p < s.len() && 0 <= q < s.len() && s[p] is Some && dist(
            s.len() as int,
            home(s[p].unwrap()),
            q,
        ) < dist(s.len() as int, home(s[p].unwrap()), p) && stops_at(s, s[p].unwrap(), q) ==> q
            == h && dist(s.len() as int, h, p) >= dist(s.len() as int, h, j)
}

/// Emptying the slot `r` of a consistent table leaves it consistent apart from a gap at `r`,
/// with the scan starting right after it.
pub proof fn lemma_gap_start<A>(s: Seq<Option<A>>, home: spec_fn(A) -> int, r: int, j: int)
    requires
        valid_home(s, home),
        has_vacancy(s),
        consistent(s, home),
        0 <= r < s.len(),
        0 <= j < s.len(),
        dist(s.len() as int, r, j) <= 1,
    ensures
        gap_ok(s.update(r, None), home, r, j),
{
    let s1 = s.update(r, None);
    let len = s.len() as int;
    assert forall|p: int, q: int|
        #![trigger s1[p], s1[q]]
        0 <= p < len && 0 <= q < len && s1[p] is Some && dist(len, home(s1[p].unwrap()), q) < dist(
            len,
            home(s1[p].unwrap()),
            p,
        ) && stops_at(s1, s1[p].unwrap(), q) implies q == r && dist(len, r, p) >= dist(len, r, j) by {
        let w = s1[p].unwrap();
        assert(p != r);
        assert(s[p] == s1[p]);
        assert(slot_for(s, home, w) == p);
        assert(0 <= home(w) < len);
        lemma_find(s, w, home(w));
        if q != r {
            assert(s[q] == s1[q]);
            assert(!stops_at(s, w, q));
        }
    }
}

/// Moving the entry of slot `j` into the gap at `h`, when the gap lies on the way from the
/// entry's home to `j`: the gap moves to `j`, with the scan going on right after it.
pub proof fn lemma_gap_move<A>(s: Seq<Option<A>>, home: spec_fn(A) -> int, h: int, j: int, j2: int)
    requires
        valid_home(s, home),
        gap_ok(s, home, h, j),
        0 <= h < s.len(),
        0 <= j < s.len(),
        0 <= j2 < s.len(),
        h != j,
        s[h] is None,
        s[j] is Some,
        dist(s.len() as int, home(s[j].unwrap()), h) < dist(s.len() as int, home(s[j].unwrap()), j),
        forall|a: int| 0 <= a < s.len() && a != j ==> s[a] != s[j],
        dist(s.len() as int, j, j2) <= 1,
    ensures
        gap_ok(s.update(h, s[j]).update(j, None), home, j, j2),
{
    let s2 = s.update(h, s[j]).update(j, None);
    let len = s.len() as int;
    let u = s[j].unwrap();
    assert forall|p: int, q: int|
        #![trigger s2[p], s2[q]]
        0 <= p < len && 0 <= q < len && s2[p] is Some && dist(len, home(s2[p].unwrap()), q) < dist(
            len,
            home(s2[p].unwrap()),
            p,
        ) && stops_at(s2, s2[p].unwrap(), q) implies q == j && dist(len, j, p) >= dist(len, j, j2) by {
        let w = s2[p].unwrap();
        assert(p != j);
        if p == h {
            assert(w == u);
            assert(q != h && q != j);
            assert(s2[q] == s[q]);
            assert(s[j] is Some && s[q] == s[q]);
            assert(stops_at(s, s[j].unwrap(), q));
        } else {
            assert(s2[p] == s[p]);
            if q == h {
                assert(s2[h] == s[j]);
                assert(s[p] != s[j]);
            } else if q != j {
                assert(s2[q] == s[q]);
                assert(stops_at(s, s[p].unwrap(), q));
                assert(s[p] is Some && s[q] == s[q]);
            }
        }
    }
}

/// Passing over the entry of slot `j` when the gap does not lie on its way: the scan goes on at
/// `j2`, one step further.
pub proof fn lemma_gap_skip<A>(s: Seq<Option<A>>, home: spec_fn(A) -> int, h: int, j: int, j2: int)
    requires
        valid_home(s, home),
        gap_ok(s, home, h, j),
        0 <= h < s.len(),
        0 <= j < s.len(),
        0 <= j2 < s.len(),
        s[j] is Some,
        !(dist(s.len() as int, home(s[j].unwrap()), h) < dist(s.len() as int, home(s[j].unwrap()), j)),
        dist(s.len() as int, h, j2) == dist(s.len() as int, h, j) + 1,
    ensures
        gap_ok(s, home, h, j2),
{
}

/// The scan reached an empty slot other than the gap: the table is consistent.
pub proof fn lemma_gap_end<A>(s: Seq<Option<A>>, home: spec_fn(A) -> int, h: int, j: int)
    requires
        valid_home(s, home),
        has_vacancy(s),
        gap_ok(s, home, h, j),
        0 <= h < s.len(),
        0 <= j < s.len(),
        h != j,
        s[j] is None,
    ensures
        consistent(s, home),
{
    let len = s.len() as int;
    assert forall|i: int| 0 <= i < s.len() && #[trigger] s[i] is Some implies slot_for(
        s,
        home,
        s[i].unwrap(),
    ) == i by {
        let w = s[i].unwrap();
        let hw = home(w);
        assert(0 <= hw < len);
        assert forall|q: int| 0 <= q < len && #[trigger] dist(len, hw, q) < dist(len, hw, i)
            implies !stops_at(s, w, q) by {
            if stops_at(s, w, q) {
                assert(s[i] is Some && s[q] == s[q]);
                assert(q == h);
                lemma_dist_sub(len, hw, h, i);
                assert(dist(len, h, i) != dist(len, h, j));
                lemma_dist_add(len, hw, h, j);
                assert(stops_at(s, w, j));
                assert(s[i] is Some && s[j] is None);
            }
        }
        assert(is_probe_end(s, w, hw, i));
        lemma_find(s, w, hw);
    }
}

/// No target found in `s` other than `t` has a lookup that passes over the slot where the
/// lookup for `t` ends.
pub open spec fn clears_cleanly<A>(s: Seq<Option<A>>, home: spec_fn(A) -> int, t: A) -> bool {
    forall|t2: A|
        t2 != t && #[trigger] present(s, home, t2) ==> dist(s.len() as int, home(t2), slot_for(s, home, t))
            > dist(s.len() as int, home(t2), slot_for(s, home, t2))
}

/// Emptying the slot of a found target that no other lookup passes over: every other target
/// found before is still found, at the same slot, and consistency is kept.
pub proof fn lemma_clear_cleanly<A>(s: Seq<Option<A>>, home: spec_fn(A) -> int, t: A)
    requires
        valid_home(s, home),
        has_vacancy(s),
        present(s, home, t),
        clears_cleanly(s, home, t),
    ensures
        ({
            let s2 = s.update(slot_for(s, home, t), None);
            &&& forall|t2: A|
                t2 != t && #[trigger] present(s, home, t2) ==> present(s2, home, t2) && slot_for(
                    s2,
                    home,
                    t2,
                ) == slot_for(s, home, t2)
            &&& consistent(s, home) ==> consistent(s2, home)
        }),
{
    let sl = slot_for(s, home, t);
    let s2 = s.update(sl, None);
    let len = s.len() as int;
    assert(0 <= home(t) < len);
    lemma_find(s, t, home(t));
    lemma_clear(s, home, t);
    assert forall|t2: A| t2 != t && #[trigger] present(s, home, t2) implies present(s2, home, t2)
        && slot_for(s2, home, t2) == slot_for(s, home, t2) by {
        assert(0 <= home(t2) < len);
        lemma_find(s, t2, home(t2));
        let r2 = slot_for(s, home, t2);
        assert(r2 != sl);
        lemma_probe_end_frame(s, s2, t2, home(t2), r2);
        lemma_find(s2, t2, home(t2));
    }
    if consistent(s, home) {
        assert forall|i: int| 0 <= i < s2.len() && #[trigger] s2[i] is Some implies slot_for(
            s2,
            home,
            s2[i].unwrap(),
        ) == i by {
            let t2 = s2[i].unwrap();
            assert(i != sl);
            assert(s[i] == s2[i]);
            assert(slot_for(s, home, t2) == i);
            assert(present(s, home, t2));
            if t2 == t {
                assert(false);
            }
        }
    }
}

/// Storing a target that a consistent table does not find, at the slot where its lookup ends:
/// no other lookup passes over that slot afterwards.
pub proof fn lemma_store_cleanly<A>(s: Seq<Option<A>>, home: spec_fn(A) -> int, t: A)
    requires
        valid_home(s, home),
        has_vacancy(s),
        has_vacancy(s.update(slot_for(s, home, t), Some(t))),
        consistent(s, home),
        !present(s, home, t),
    ensures
        clears_cleanly(s.update(slot_for(s, home, t), Some(t)), home, t),
{
    let sl = slot_for(s, home, t);
    let s2 = s.update(sl, Some(t));
    let len = s.len() as int;
    lemma_store(s, home, t);
    assert(0 <= home(t) < len);
    lemma_find(s, t, home(t));
    assert(s[sl] is None);
    assert forall|t2: A| t2 != t && #[trigger] present(s2, home, t2) implies dist(
        len,
        home(t2),
        slot_for(s2, home, t),
    ) > dist(len, home(t2), slot_for(s2, home, t2)) by {
        assert(present(s, home, t2));
        assert(0 <= home(t2) < len);
        lemma_find(s, t2, home(t2));
        let r2 = slot_for(s, home, t2);
        assert(slot_for(s2, home, t2) == r2);
        assert(r2 != sl);
        if dist(len, home(t2), sl) < dist(len, home(t2), r2) {
            assert(!stops_at(s, t2, sl));
        }
    }
}

/// Emptying the slot of a found target `t`: `t` is no longer found, and whatever is found
/// afterwards was found before, at the same slot.
pub proof fn lemma_clear<A>(s: Seq<Option<A>>, home: spec_fn(A) -> int, t: A)
    requires
        valid_home(s, home),
        has_vacancy(s),
        present(s, home, t),
    ensures
        ({
            let s2 = s.update(slot_for(s, home, t), None);
            &&& has_vacancy(s2)
            &&& !present(s2, home, t)
            &&& slot_for(s2, home, t) == slot_for(s, home, t)
            &&& forall|t2: A| #[trigger] present(s2, home, t2) ==> present(s, home, t2) && slot_for(
                s,
                home,
                t2,
            ) == slot_for(s2, home, t2)
        }),
{
    let sl = slot_for(s, home, t);
    let s2 = s.update(sl, None);
    let len = s.len() as int;
    assert(0 <= home(t) < len);
    lemma_find(s, t, home(t));
    assert(s2[sl] is None);
    lemma_probe_end_frame(s, s2, t, home(t), sl);
    assert(is_probe_end(s2, t, home(t), sl));
    lemma_find(s2, t, home(t));
    assert forall|t2: A| #[trigger] present(s2, home, t2) implies present(s, home, t2) && slot_for(
        s,
        home,
        t2,
    ) == slot_for(s2, home, t2) by {
        assert(0 <= home(t2) < len);
        lemma_find(s2, t2, home(t2));
        let r2 = slot_for(s2, home, t2);
        assert(stops_at(s2, t2, sl));
        assert forall|j: int|
            0 <= j < s2.len() && dist(len, home(t2), j) < dist(len, home(t2), r2) implies s[j]
            == s2[j] by {
            assert(!stops_at(s2, t2, j));
        }
        assert(r2 != sl);
        lemma_probe_end_frame(s2, s, t2, home(t2), r2);
        lemma_find(s, t2, home(t2));
    }
}

/// The map built by storing, in slot order, each occupied slot of the first `n` slots with its
/// value; a later slot with the same target overrides an earlier one.
pub open spec fn entries_map<A, V>(s: Seq<Option<A>>, vals: Seq<V>, n: int) -> Map<A, V>
    decreases n,
{
    if n <= 0 {
        Map::empty()
    } else {
        let m = entries_map(s, vals, n - 1);
        match s[n - 1] {
            Some(t) => m.insert(t, vals[n - 1]),
            None => m,
        }
    }
}

/// The targets found by lookups, with the values at their slots.
pub open spec fn found_map<A, V>(s: Seq<Option<A>>, vals: Seq<V>, home: spec_fn(A) -> int) -> Map<
    A,
    V,
> {
    Map::new(|t: A| present(s, home, t), |t: A| vals[slot_for(s, home, t)])
}

proof fn lemma_entries_map_prefix<A, V>(
    s: Seq<Option<A>>,
    vals: Seq<V>,
    home: spec_fn(A) -> int,
    n: int,
)
    requires
        valid_home(s, home),
        has_vacancy(s),
        consistent(s, home),
        0 <= n <= s.len(),
    ensures
        entries_map(s, vals, n) == Map::new(
            |t: A| present(s, home, t) && slot_for(s, home, t) < n,
            |t: A| vals[slot_for(s, home, t)],
        ),
    decreases n,
{
    let rhs = Map::new(
        |t: A| present(s, home, t) && slot_for(s, home, t) < n,
        |t: A| vals[slot_for(s, home, t)],
    );
    if n == 0 {
        assert forall|t: A| !(present(s, home, t) && slot_for(s, home, t) < n) by {
            assert(0 <= home(t) < s.len());
            lemma_find(s, t, home(t));
        }
        assert(entries_map(s, vals, n) =~= rhs);
    } else {
        lemma_entries_map_prefix(s, vals, home, n - 1);
        match s[n - 1] {
            Some(t) => {
                assert(s[n - 1] is Some);
                assert(slot_for(s, home, t) == n - 1);
                assert(entries_map(s, vals, n) =~= rhs);
            },
            None => {
                assert forall|t: A| present(s, home, t) && slot_for(s, home, t) < n implies
                    slot_for(s, home, t) < n - 1 by {
                    if slot_for(s, home, t) == n - 1 {
                        assert(s[n - 1] == Some(t));
                    }
                }
                assert(entries_map(s, vals, n) =~= rhs);
            },
        }
    }
}

/// In a consistent table, storing every occupied slot in order rebuilds the found map.
pub proof fn lemma_entries_map_found<A, V>(s: Seq<Option<A>>, vals: Seq<V>, home: spec_fn(A) -> int)
    requires
        valid_home(s, home),
        has_vacancy(s),
        consistent(s, home),
    ensures
        entries_map(s, vals, s.len() as int) == found_map(s, vals, home),
{
    lemma_entries_map_prefix(s, vals, home, s.len() as int);
    assert forall|t: A| present(s, home, t) implies slot_for(s, home, t) < s.len() by {
        assert(0 <= home(t) < s.len());
        lemma_find(s, t, home(t));
    }
    assert(entries_map(s, vals, s.len() as int) =~= found_map(s, vals, home));
}

/// The number of occupied slots among the first `i` grows with `i`, up to the total.
pub proof fn lemma_num_occupied_prefix<A>(s: Seq<Option<A>>, i: int)
    requires
        0 <= i < s.len(),
    ensures
        num_occupied(s.take(i + 1)) == num_occupied(s.take(i)) + (if s[i] is Some { 1nat } else { 0nat }),
        num_occupied(s.take(i + 1)) <= num_occupied(s),
    decreases s.len(),
{
    assert(s.take(i + 1).drop_last() =~= s.take(i));
    if i + 1 < s.len() {
        lemma_num_occupied_prefix(s.drop_last(), i);
        assert(s.drop_last().take(i + 1) =~= s.take(i + 1));
        assert(s.drop_last().take(i) =~= s.take(i));
    } else {
        assert(s.take(i + 1) =~= s);
    }
}

/// The targets of `entries_map` are those of the occupied slots among the first `n`.
pub proof fn lemma_entries_map_dom<A, V>(s: Seq<Option<A>>, vals: Seq<V>, n: int, t: A)
    requires
        0 <= n <= s.len(),
    ensures
        entries_map(s, vals, n).contains_key(t) <==> exists|j: int| 0 <= j < n && s[j] == Some(t),
    decreases n,
{
    if n > 0 {
        lemma_entries_map_dom(s, vals, n - 1, t);
        if entries_map(s, vals, n).contains_key(t) {
            if s[n - 1] != Some(t) {
                let j = choose|j: int| 0 <= j < n - 1 && s[j] == Some(t);
                assert(0 <= j < n && s[j] == Some(t));
            }
        }
        if exists|j: int| 0 <= j < n && s[j] == Some(t) {
            let j = choose|j: int| 0 <= j < n && s[j] == Some(t);
            if j < n - 1 {
                assert(entries_map(s, vals, n - 1).contains_key(t));
            }
        }
    }
}

/// The indices of the occupied slots among the first `n`, in increasing order.
pub open spec fn occupied_indices<A>(s: Seq<Option<A>>, n: int) -> Seq<int>
    decreases n,
{
    if n <= 0 {
        seq![]
    } else {
        let p = occupied_indices(s, n - 1);
        if s[n - 1] is Some {
            p.push(n - 1)
        } else {
            p
        }
    }
}

/// The occupied indices among the first `n` slots are increasing, occupied, and as many as the
/// occupied slots.
pub proof fn lemma_occupied_indices<A>(s: Seq<Option<A>>, n: int)
    requires
        0 <= n <= s.len(),
    ensures
        occupied_indices(s, n).len() == num_occupied(s.take(n)),
        forall|k: int|
            0 <= k < occupied_indices(s, n).len() ==> 0 <= #[trigger] occupied_indices(s, n)[k] < n
                && s[occupied_indices(s, n)[k]] is Some,
        forall|k: int, l: int|
            0 <= k < l < occupied_indices(s, n).len() ==> #[trigger] occupied_indices(s, n)[k]
                < #[trigger] occupied_indices(s, n)[l],
    decreases n,
{
    if n == 0 {
        assert(s.take(0) =~= Seq::<Option<A>>::empty());
    } else {
        lemma_occupied_indices(s, n - 1);
        lemma_num_occupied_prefix(s, n - 1);
    }
}

/// Every occupied slot among the first `n` is among the occupied indices.
pub proof fn lemma_occupied_indices_complete<A>(s: Seq<Option<A>>, n: int, p: int)
    requires
        0 <= p < n <= s.len(),
        s[p] is Some,
    ensures
        exists|k: int| 0 <= k < occupied_indices(s, n).len() && #[trigger] occupied_indices(s, n)[k] == p,
    decreases n,
{
    if p < n - 1 {
        lemma_occupied_indices_complete(s, n - 1, p);
        let k = choose|k: int| 0 <= k < occupied_indices(s, n - 1).len() && #[trigger] occupied_indices(s, n - 1)[k] == p;
        assert(occupied_indices(s, n)[k] == p);
    } else {
        let k = occupied_indices(s, n - 1).len() as int;
        assert(occupied_indices(s, n)[k] == p);
    }
}

} // verus!
