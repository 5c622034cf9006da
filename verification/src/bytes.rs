//! Small helpers on byte slices.
use std::borrow::Cow;
use vstd::prelude::*;

verus! {

/// Whether `b` is one of the four markup white space bytes: space, tab,
/// line feed or carriage return.
pub open spec fn is_space(b: u8) -> bool {
    b == 0x20 || b == 0x09 || b == 0x0a || b == 0x0d
}

/// Tests a byte for markup white space.
pub fn is_whitespace(b: u8) -> (r: bool)
    ensures
        r == is_space(b),
{
    b == 0x20 || b == 0x09 || b == 0x0a || b == 0x0d
}

/// Compares two byte slices.
pub fn bytes_eq(a: &[u8], b: &[u8]) -> (r: bool)
    ensures
        r == (a@ == b@),
{
    if a.len() != b.len() {
        return false;
    }
    let mut i: usize = 0;
    while i < a.len()
        invariant
            a@.len() == b@.len(),
            i <= a@.len(),
            forall|j: int| 0 <= j < i ==> a@[j] == b@[j],
        decreases a@.len() - i,
    {
        if a[i] != b[i] {
            return false;
        }
        i += 1;
    }
    assert(a@ =~= b@);
    true
}

/// Copies a byte slice into a vector of its own.
pub fn to_vec(a: &[u8]) -> (r: Vec<u8>)
    ensures
        r@ == a@,
{
    let mut out: Vec<u8> = Vec::new();
    let mut i: usize = 0;
    while i < a.len()
        invariant
            i <= a@.len(),
            out@ == a@.take(i as int),
        decreases a@.len() - i,
    {
        out.push(a[i]);
        assert(a@.take(i + 1) =~= a@.take(i as int).push(a@[i as int]));
        i += 1;
    }
    assert(a@.take(a@.len() as int) =~= a@);
    out
}

/// The bytes that `c` holds, borrowed.
pub(crate) fn cow_bytes<'b, 'a>(c: &'b Cow<'a, [u8]>) -> (r: &'b [u8])
    ensures
        r@ == c@,
{
    match c {
        Cow::Borrowed(s) => s,
        Cow::Owned(v) => v.as_slice(),
    }
}

/// A copy of `c`: it borrows what `c` borrows and copies what `c` owns.
pub(crate) fn cow_clone<'a>(c: &Cow<'a, [u8]>) -> (r: Cow<'a, [u8]>)
    ensures
        r@ == c@,
        r is Borrowed == c is Borrowed,
{
    match c {
        Cow::Borrowed(s) => Cow::Borrowed(*s),
        Cow::Owned(v) => Cow::Owned(to_vec(v.as_slice())),
    }
}

/// An owned copy of `c` that borrows from nothing.
pub(crate) fn cow_into_owned<'a>(c: Cow<'a, [u8]>) -> (r: Cow<'static, [u8]>)
    ensures
        r@ == c@,
        r is Owned,
{
    match c {
        Cow::Borrowed(s) => Cow::Owned(to_vec(s)),
        Cow::Owned(v) => Cow::Owned(v),
    }
}

} // verus!
