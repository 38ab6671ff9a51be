//! Byte-text helpers: decimal rendering of integers and newline-terminated
//! lines, the form in which attribute values are stored as file contents.

use vstd::prelude::*;

verus! {

/// The newline byte that terminates every file's content.
pub const NL: u8 = 10;

/// The ASCII digit for `d`, for `0 <= d <= 9`.
pub open spec fn dec_digit(d: int) -> u8 {
    (48 + d) as u8
}

/// The decimal rendering of a non-negative integer, most significant
/// digit first, with no sign and no leading zeros (except for `0` itself).
pub open spec fn dec_of(n: int) -> Seq<u8>
    decreases n,
{
    if n < 0 {
        Seq::empty()
    } else if n < 10 {
        seq![dec_digit(n)]
    } else {
        dec_of(n / 10).push(dec_digit(n % 10))
    }
}

/// Renders `v` as decimal text.
pub fn render_u32(v: u32) -> (s: Vec<u8>)
    ensures
        s@ == dec_of(v as int),
    decreases v,
{
    if v < 10 {
        let mut s: Vec<u8> = Vec::new();
        s.push(48 + (v as u8));
        assert(s@ =~= dec_of(v as int));
        s
    } else {
        let mut s = render_u32(v / 10);
        s.push(48 + ((v % 10) as u8));
        assert(s@ =~= dec_of(v as int));
        s
    }
}

/// Copies the bytes of `v` and appends the trailing newline.
pub fn text_line(v: &Vec<u8>) -> (s: Vec<u8>)
    ensures
        s@ == v@.push(NL),
{
    let mut s: Vec<u8> = Vec::new();
    let mut i: usize = 0;
    while i < v.len()
        invariant
            i <= v.len(),
            s@ == v@.take(i as int),
        decreases v.len() - i,
    {
        s.push(v[i]);
        i += 1;
        assert(s@ =~= v@.take(i as int));
    }
    s.push(NL);
    assert(s@ =~= v@.push(NL));
    s
}

/// Renders `v` as a decimal line: its digits followed by a newline.
pub fn num_line(v: u32) -> (s: Vec<u8>)
    ensures
        s@ == dec_of(v as int).push(NL),
{
    let mut s = render_u32(v);
    s.push(NL);
    s
}

/// Copies a byte vector; the result holds the same bytes.
pub fn clone_bytes(v: &Vec<u8>) -> (r: Vec<u8>)
    ensures
        r@ == v@,
{
    let mut r: Vec<u8> = Vec::new();
    let mut i: usize = 0;
    while i < v.len()
        invariant
            i <= v.len(),
            r@ == v@.take(i as int),
        decreases v.len() - i,
    {
        r.push(v[i]);
        i += 1;
        assert(r@ =~= v@.take(i as int));
    }
    assert(r@ =~= v@);
    r
}

/// Exact byte-for-byte equality of two byte vectors.
pub fn bytes_eq(a: &Vec<u8>, b: &Vec<u8>) -> (r: bool)
    ensures
        r == (a@ == b@),
{
    if a.len() != b.len() {
        assert(a@ != b@) by {
            assert(a@.len() != b@.len());
        }
        return false;
    }
    let mut i: usize = 0;
    while i < a.len()
        invariant
            i <= a.len(),
            a@.len() == b@.len(),
            forall|j: int| 0 <= j < i ==> a@[j] == b@[j],
        decreases a.len() - i,
    {
        if a[i] != b[i] {
            return false;
        }
        i += 1;
    }
    assert(a@ =~= b@);
    true
}

} // verus!
