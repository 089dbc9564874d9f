//! Relative imports: `super.` steps up one module from the importing one.
use vstd::prelude::*;
use vstd::string::StringSliceAdditionalSpecFns;
use vstd::utf8::*;

verus! {

/// The bytes of `super.`.
pub open spec fn super_bytes() -> Seq<u8> {
    seq![0x73u8, 0x75u8, 0x70u8, 0x65u8, 0x72u8, 0x2eu8]
}

/// `super.` starts at `j` in `b`.
pub open spec fn super_at(b: Seq<u8>, j: int) -> bool {
    0 <= j && j + 6 <= b.len() && b.subrange(j, j + 6) == super_bytes()
}

/// Searching `b` from `p` for `super.` again and again, each search starting after the last
/// match: the number of matches, added to `count`, and the end of the last match, or `end` when
/// there is none.
pub open spec fn supers(b: Seq<u8>, p: int, count: nat, end: int) -> (nat, int)
    decreases b.len() - p,
{
    if p < 0 || p + 6 > b.len() {
        (count, end)
    } else if super_at(b, p) {
        supers(b, p + 6, count + 1, p + 6)
    } else {
        supers(b, p + 1, count, end)
    }
}

/// Whether `super.` starts at `j` in `b`.
fn is_super_at(b: &[u8], j: usize) -> (r: bool)
    requires
        j + 6 <= b@.len(),
    ensures
        r == super_at(b@, j as int),
{
    let r = b[j] == 0x73 && b[j + 1] == 0x75 && b[j + 2] == 0x70 && b[j + 3] == 0x65 && b[j + 4]
        == 0x72 && b[j + 5] == 0x2e;
    proof {
        let w = b@.subrange(j as int, j + 6);
        if r {
            assert(w =~= super_bytes());
        } else if w == super_bytes() {
            assert(w[0] == b@[j as int] && w[1] == b@[j + 1] && w[2] == b@[j + 2]);
            assert(w[3] == b@[j + 3] && w[4] == b@[j + 4] && w[5] == b@[j + 5]);
        }
    }
    r
}

/// In UTF-8 text, the place right after a `.` begins a character, or is the end.
proof fn lemma_boundary_after_dot(b: Seq<u8>, e: int)
    requires
        valid_utf8(b),
        0 < e <= b.len(),
        b[e - 1] == 0x2eu8,
    ensures
        is_char_boundary(b, e),
{
    is_char_boundary_iff_not_is_continuation_byte(b, e - 1);
    valid_utf8_split(b, e - 1);
    let t = b.subrange(e - 1, b.len() as int);
    assert(t[0] == 0x2eu8);
    assert(valid_first_scalar(t) && valid_utf8(pop_first_scalar(t)));
    assert(length_of_first_scalar(t) == 1);
    let u = b.subrange(e, b.len() as int);
    assert(pop_first_scalar(t) =~= u);
    if e < b.len() {
        assert(valid_first_scalar(u));
        assert(u[0] == b[e]);
        assert(!is_continuation_byte(b[e]));
        is_char_boundary_iff_not_is_continuation_byte(b, e);
    } else {
        is_char_boundary_start_end_of_seq(b);
    }
}

/// How many modules up an import reaches, counting its `super.` parts, and what follows the
/// last of them: each `super.` is searched for after the previous one, wherever it stands.
pub fn super_depth(import: &str) -> (r: (usize, Option<&str>))
    ensures
        ({
            let (n, e) = supers(import.spec_bytes(), 0, 0, 0);
            &&& r.0 == n
            &&& n == 0 ==> r.1 is None
            &&& n > 0 ==> (r.1 matches Some(s) && s.spec_bytes() == import.spec_bytes().subrange(
                e,
                import.spec_bytes().len() as int,
            ))
        }),
{
    let b = import.as_bytes();
    let mut p: usize = 0;
    let mut count: usize = 0;
    let mut end: usize = 0;
    while b.len() - p >= 6
        invariant
            p <= b@.len(),
            count <= p,
            end <= p,
            count == 0 ==> end == 0,
            count > 0 ==> 0 < end && b@[end - 1] == 0x2eu8,
            supers(b@, 0, 0, 0) == supers(b@, p as int, count as nat, end as int),
        decreases b@.len() - p,
    {
        if is_super_at(b, p) {
            assert(b@.subrange(p as int, p + 6)[5] == b@[p + 5]);
            count = count + 1;
            p = p + 6;
            end = p;
        } else {
            p = p + 1;
        }
    }
    if count == 0 {
        return (0, None);
    }
    proof {
        encode_utf8_valid_utf8(import@);
        lemma_boundary_after_dot(b@, end as int);
    }
    let (_, suffix) = import.split_at(end);
    (count, Some(suffix))
}

} // verus!
