//! Searches in a byte slice: the steps that the tokenizer is made of.
use crate::bytes::{is_space, is_whitespace};
use vstd::prelude::*;

verus! {

/// The least index from `from` on at which `s` holds `b`, or the length of
/// `s` where there is none.
pub open spec fn find_byte(s: Seq<u8>, from: int, b: u8) -> int
    decreases s.len() - from,
{
    if from < 0 || from >= s.len() {
        s.len() as int
    } else if s[from] == b {
        from
    } else {
        find_byte(s, from + 1, b)
    }
}

/// The least index from `from` on at which `s` holds `a` and then `b`, or
/// the length of `s` where there is none.
pub open spec fn find_pair(s: Seq<u8>, from: int, a: u8, b: u8) -> int
    decreases s.len() - from,
{
    if from < 0 || from + 1 >= s.len() {
        s.len() as int
    } else if s[from] == a && s[from + 1] == b {
        from
    } else {
        find_pair(s, from + 1, a, b)
    }
}

/// The least index from `from` on at which `s` holds `a`, `b` and then `c`,
/// or the length of `s` where there is none.
pub open spec fn find_triple(s: Seq<u8>, from: int, a: u8, b: u8, c: u8) -> int
    decreases s.len() - from,
{
    if from < 0 || from + 2 >= s.len() {
        s.len() as int
    } else if s[from] == a && s[from + 1] == b && s[from + 2] == c {
        from
    } else {
        find_triple(s, from + 1, a, b, c)
    }
}

/// The least index from `from` on at which `s` holds no white space, or the
/// length of `s` where only white space follows.
pub open spec fn skip_spaces(s: Seq<u8>, from: int) -> int
    decreases s.len() - from,
{
    if from < 0 || from >= s.len() {
        s.len() as int
    } else if !is_space(s[from]) {
        from
    } else {
        skip_spaces(s, from + 1)
    }
}

/// The least index in `[from, to)` at which `s` holds white space, or `to`
/// where there is none: where a name that starts at `from` ends.
pub open spec fn name_end(s: Seq<u8>, from: int, to: int) -> int
    decreases to - from,
{
    if from < 0 || from >= to || to > s.len() {
        to
    } else if is_space(s[from]) {
        from
    } else {
        name_end(s, from + 1, to)
    }
}

/// The end of `[from, to)` once the white space at its end is taken off.
pub open spec fn trim_end(s: Seq<u8>, from: int, to: int) -> int
    decreases to - from,
{
    if to <= from || to > s.len() || from < 0 {
        from
    } else if !is_space(s[to - 1]) {
        to
    } else {
        trim_end(s, from, to - 1)
    }
}

/// The index of the `>` that closes a tag: the first one from `from` on that
/// stands outside a quoted attribute value, where `quote` is the quote that
/// is open at `from`, if any.  The length of `s` where there is none.
pub open spec fn tag_close(s: Seq<u8>, from: int, quote: Option<u8>) -> int
    decreases s.len() - from,
{
    if from < 0 || from >= s.len() {
        s.len() as int
    } else {
        match quote {
            Some(q) => tag_close(
                s,
                from + 1,
                if s[from] == q {
                    None
                } else {
                    quote
                },
            ),
            None => if s[from] == 0x3e {
                from
            } else if s[from] == 0x22 || s[from] == 0x27 {
                tag_close(s, from + 1, Some(s[from]))
            } else {
                tag_close(s, from + 1, None)
            },
        }
    }
}

/// The index of the `>` that closes a document type declaration: the first
/// one from `from` on that closes no `<` inside the declaration, where
/// `depth` of those are open at `from`.  The length of `s` where there is
/// none.
pub open spec fn doctype_close(s: Seq<u8>, from: int, depth: nat) -> int
    decreases s.len() - from,
{
    if from < 0 || from >= s.len() {
        s.len() as int
    } else if s[from] == 0x3c {
        doctype_close(s, from + 1, depth + 1)
    } else if s[from] == 0x3e {
        if depth == 0 {
            from
        } else {
            doctype_close(s, from + 1, (depth - 1) as nat)
        }
    } else {
        doctype_close(s, from + 1, depth)
    }
}

/// Whether `s` holds `pat` at `at`.
pub open spec fn has_at(s: Seq<u8>, at: int, pat: Seq<u8>) -> bool {
    0 <= at && at + pat.len() <= s.len() && s.subrange(at, at + pat.len()) == pat
}

/// Finds a byte.
pub(crate) fn find_byte_from(s: &[u8], from: usize, b: u8) -> (r: usize)
    requires
        from <= s@.len(),
    ensures
        r == find_byte(s@, from as int, b),
        from <= r <= s@.len(),
        r < s@.len() ==> s@[r as int] == b,
{
    let mut i: usize = from;
    while i < s.len()
        invariant
            from <= i <= s@.len(),
            find_byte(s@, from as int, b) == find_byte(s@, i as int, b),
        decreases s@.len() - i,
    {
        if s[i] == b {
            return i;
        }
        i += 1;
    }
    i
}

/// Finds two bytes in a row.
pub(crate) fn find_pair_from(s: &[u8], from: usize, a: u8, b: u8) -> (r: usize)
    requires
        from <= s@.len(),
    ensures
        r == find_pair(s@, from as int, a, b),
        from <= r <= s@.len(),
        r < s@.len() ==> r + 2 <= s@.len(),
{
    let mut i: usize = from;
    while i < s.len() && s.len() - i >= 2
        invariant
            from <= i <= s@.len(),
            find_pair(s@, from as int, a, b) == find_pair(s@, i as int, a, b),
        decreases s@.len() - i,
    {
        if s[i] == a && s[i + 1] == b {
            return i;
        }
        i += 1;
    }
    s.len()
}

/// Finds three bytes in a row.
pub(crate) fn find_triple_from(s: &[u8], from: usize, a: u8, b: u8, c: u8) -> (r: usize)
    requires
        from <= s@.len(),
    ensures
        r == find_triple(s@, from as int, a, b, c),
        from <= r <= s@.len(),
        r < s@.len() ==> r + 3 <= s@.len(),
{
    let mut i: usize = from;
    while i < s.len() && s.len() - i >= 3
        invariant
            from <= i <= s@.len(),
            find_triple(s@, from as int, a, b, c) == find_triple(s@, i as int, a, b, c),
        decreases s@.len() - i,
    {
        if s[i] == a && s[i + 1] == b && s[i + 2] == c {
            return i;
        }
        i += 1;
    }
    s.len()
}

/// Passes over white space.
pub(crate) fn skip_spaces_from(s: &[u8], from: usize) -> (r: usize)
    requires
        from <= s@.len(),
    ensures
        r == skip_spaces(s@, from as int),
        from <= r <= s@.len(),
{
    let mut i: usize = from;
    while i < s.len()
        invariant
            from <= i <= s@.len(),
            skip_spaces(s@, from as int) == skip_spaces(s@, i as int),
        decreases s@.len() - i,
    {
        if !is_whitespace(s[i]) {
            return i;
        }
        i += 1;
    }
    i
}

/// Finds the end of a name.
pub(crate) fn name_end_in(s: &[u8], from: usize, to: usize) -> (r: usize)
    requires
        from <= to <= s@.len(),
    ensures
        r == name_end(s@, from as int, to as int),
        from <= r <= to,
{
    let mut i: usize = from;
    while i < to
        invariant
            from <= i <= to <= s@.len(),
            name_end(s@, from as int, to as int) == name_end(s@, i as int, to as int),
        decreases to - i,
    {
        if is_whitespace(s[i]) {
            return i;
        }
        i += 1;
    }
    i
}

/// Takes the white space off the end of a range.
pub(crate) fn trim_end_in(s: &[u8], from: usize, to: usize) -> (r: usize)
    requires
        from <= to <= s@.len(),
    ensures
        r == trim_end(s@, from as int, to as int),
        from <= r <= to,
{
    let mut j: usize = to;
    while j > from
        invariant
            from <= j <= to <= s@.len(),
            trim_end(s@, from as int, to as int) == trim_end(s@, from as int, j as int),
        decreases j - from,
    {
        if !is_whitespace(s[j - 1]) {
            return j;
        }
        j -= 1;
    }
    j
}

/// Finds the `>` that closes a tag.
pub(crate) fn tag_close_from(s: &[u8], from: usize) -> (r: usize)
    requires
        from <= s@.len(),
    ensures
        r == tag_close(s@, from as int, None),
        from <= r <= s@.len(),
{
    let mut i: usize = from;
    let mut quote: Option<u8> = None;
    while i < s.len()
        invariant
            from <= i <= s@.len(),
            tag_close(s@, from as int, None) == tag_close(s@, i as int, quote),
        decreases s@.len() - i,
    {
        let b = s[i];
        match quote {
            Some(q) => {
                if b == q {
                    quote = None;
                }
            },
            None => {
                if b == 0x3e {
                    return i;
                } else if b == 0x22 || b == 0x27 {
                    quote = Some(b);
                }
            },
        }
        i += 1;
    }
    i
}

/// Finds the `>` that closes a document type declaration.
pub(crate) fn doctype_close_from(s: &[u8], from: usize) -> (r: usize)
    requires
        from <= s@.len(),
    ensures
        r == doctype_close(s@, from as int, 0),
        from <= r <= s@.len(),
{
    let mut i: usize = from;
    let mut depth: usize = 0;
    while i < s.len()
        invariant
            from <= i <= s@.len(),
            depth <= i - from,
            doctype_close(s@, from as int, 0) == doctype_close(s@, i as int, depth as nat),
        decreases s@.len() - i,
    {
        let b = s[i];
        if b == 0x3c {
            depth += 1;
        } else if b == 0x3e {
            if depth == 0 {
                return i;
            }
            depth -= 1;
        }
        i += 1;
    }
    i
}

/// Tests whether a slice holds a pattern at a place.
pub(crate) fn has_pattern_at(s: &[u8], at: usize, pat: &[u8]) -> (r: bool)
    ensures
        r == has_at(s@, at as int, pat@),
{
    if at > s.len() || pat.len() > s.len() - at {
        return false;
    }
    let mut i: usize = 0;
    while i < pat.len()
        invariant
            at + pat@.len() <= s@.len() <= usize::MAX,
            i <= pat@.len(),
            forall|j: int| 0 <= j < i ==> s@[at + j] == pat@[j],
        decreases pat@.len() - i,
    {
        if s[at + i] != pat[i] {
            assert(s@.subrange(at as int, at + pat@.len())[i as int] != pat@[i as int]);
            return false;
        }
        i += 1;
    }
    assert(s@.subrange(at as int, at + pat@.len()) =~= pat@);
    true
}

} // verus!
