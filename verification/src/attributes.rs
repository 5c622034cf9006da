//! The attributes of a start tag.
use crate::bytes::{is_space, is_whitespace};
use crate::scan::{find_byte, find_byte_from, skip_spaces, skip_spaces_from};
use vstd::prelude::*;

verus! {

/// Why the text after the name of a start tag is no list of attributes.
/// The positions count bytes from the end of the name.
#[derive(Clone, Copy, Debug, PartialEq, Eq, Structural)]
pub enum AttrError {
    /// A key is followed by something else than `=`, at the position given.
    ExpectedEq(usize),
    /// `=` is followed by nothing, at the position given.
    ExpectedValue(usize),
    /// A value starts without a quote, at the position given.
    UnquotedValue(usize),
    /// The value that starts at the position given with the quote given is
    /// not closed.
    ExpectedQuote(usize, u8),
}

/// Where an attribute stands: its key in `[key_start, key_end)`, its value
/// without the quotes in `[value_start, value_end)`, and the place after it.
#[derive(Clone, Copy, Debug, PartialEq, Eq, Structural)]
pub struct Attr {
    pub key_start: usize,
    pub key_end: usize,
    pub value_start: usize,
    pub value_end: usize,
    pub next: usize,
}

/// The least index from `from` on at which `s` holds white space or `=`,
/// or the length of `s` where there is none: where a key ends.
pub open spec fn key_end(s: Seq<u8>, from: int) -> int
    decreases s.len() - from,
{
    if from < 0 || from >= s.len() {
        s.len() as int
    } else if is_space(s[from]) || s[from] == 0x3d {
        from
    } else {
        key_end(s, from + 1)
    }
}

/// The attribute that stands in `s` from `from` on, after white space:
/// a key, `=`, and a value between two quotes of one kind, with white space
/// allowed around the `=`.  `None` where only white space is left.
pub open spec fn attribute_at(s: Seq<u8>, from: int) -> Result<Option<Attr>, AttrError> {
    let k = skip_spaces(s, from);
    if k >= s.len() {
        Ok(None)
    } else {
        let ke = key_end(s, k);
        let eq = skip_spaces(s, ke);
        if eq >= s.len() || s[eq] != 0x3d {
            Err(AttrError::ExpectedEq(eq as usize))
        } else {
            let q = skip_spaces(s, eq + 1);
            if q >= s.len() {
                Err(AttrError::ExpectedValue(q as usize))
            } else if s[q] != 0x22 && s[q] != 0x27 {
                Err(AttrError::UnquotedValue(q as usize))
            } else {
                let ve = find_byte(s, q + 1, s[q]);
                if ve >= s.len() {
                    Err(AttrError::ExpectedQuote(q as usize, s[q]))
                } else {
                    Ok(
                        Some(
                            Attr {
                                key_start: k as usize,
                                key_end: ke as usize,
                                value_start: (q + 1) as usize,
                                value_end: ve as usize,
                                next: (ve + 1) as usize,
                            },
                        ),
                    )
                }
            }
        }
    }
}

/// Finds the end of a key.
fn key_end_from(s: &[u8], from: usize) -> (r: usize)
    requires
        from <= s@.len(),
    ensures
        r == key_end(s@, from as int),
        from <= r <= s@.len(),
{
    let mut i: usize = from;
    while i < s.len()
        invariant
            from <= i <= s@.len(),
            key_end(s@, from as int) == key_end(s@, i as int),
        decreases s@.len() - i,
    {
        if is_whitespace(s[i]) || s[i] == 0x3d {
            return i;
        }
        i += 1;
    }
    i
}

/// Reads the attribute that stands in `s` from `from` on.
pub fn next_attribute(s: &[u8], from: usize) -> (r: Result<Option<Attr>, AttrError>)
    requires
        from <= s@.len(),
    ensures
        r == attribute_at(s@, from as int),
        r matches Ok(Some(a)) ==> from <= a.key_start <= a.key_end <= a.value_start
            <= a.value_end < a.next <= s@.len(),
{
    let len = s.len();
    let k = skip_spaces_from(s, from);
    if k >= len {
        return Ok(None);
    }
    let ke = key_end_from(s, k);
    let eq = skip_spaces_from(s, ke);
    if eq >= len || s[eq] != 0x3d {
        return Err(AttrError::ExpectedEq(eq));
    }
    let q = skip_spaces_from(s, eq + 1);
    if q >= len {
        return Err(AttrError::ExpectedValue(q));
    }
    let quote = s[q];
    if quote != 0x22 && quote != 0x27 {
        return Err(AttrError::UnquotedValue(q));
    }
    let ve = find_byte_from(s, q + 1, quote);
    if ve >= len {
        return Err(AttrError::ExpectedQuote(q, quote));
    }
    Ok(Some(Attr { key_start: k, key_end: ke, value_start: q + 1, value_end: ve, next: ve + 1 }))
}

} // verus!
