//! Unescaping of character data: the five predefined entities and the
//! numeric character references.
use crate::bytes::cow_bytes;
use crate::digits::{number, read_digits};
use crate::errors::EscapeError;
use crate::scan::{find_byte, find_byte_from};
use std::borrow::Cow;
use vstd::prelude::*;
use vstd::slice::slice_subrange;
use vstd::utf8::{encode_scalar, is_scalar};

verus! {

/// The UTF-8 encoding of the character whose number the digits `s` spell,
/// if they spell the number of a character.
pub open spec fn char_reference(s: Seq<u8>, hex: bool) -> Option<Seq<u8>> {
    match number(s, hex) {
        Some(v) => if 0 <= v <= 0x10FFFF && !(0xD800 <= v <= 0xDFFF) {
            Some(encode_scalar(v as u32))
        } else {
            None
        },
        None => None,
    }
}

/// `lt`
pub open spec fn name_lt() -> Seq<u8> {
    seq![0x6cu8, 0x74u8]
}

/// `gt`
pub open spec fn name_gt() -> Seq<u8> {
    seq![0x67u8, 0x74u8]
}

/// `amp`
pub open spec fn name_amp() -> Seq<u8> {
    seq![0x61u8, 0x6du8, 0x70u8]
}

/// `apos`
pub open spec fn name_apos() -> Seq<u8> {
    seq![0x61u8, 0x70u8, 0x6fu8, 0x73u8]
}

/// `quot`
pub open spec fn name_quot() -> Seq<u8> {
    seq![0x71u8, 0x75u8, 0x6fu8, 0x74u8]
}

/// The byte that the predefined entity `name` stands for: `<` for `lt`, `>`
/// for `gt`, `&` for `amp`, `'` for `apos` and `"` for `quot`.
pub open spec fn named_entity(name: Seq<u8>) -> Option<u8> {
    if name == name_lt() {
        Some(0x3cu8)
    } else if name == name_gt() {
        Some(0x3eu8)
    } else if name == name_amp() {
        Some(0x26u8)
    } else if name == name_apos() {
        Some(0x27u8)
    } else if name == name_quot() {
        Some(0x22u8)
    } else {
        None
    }
}

/// What the reference stands for that starts with the `&` at `start` and
/// ends with the `;` at `end`.  `#` and digits name a character in base
/// ten, `#x` and digits in base sixteen; anything else has to be a
/// predefined entity.
pub open spec fn resolve(s: Seq<u8>, start: int, end: int) -> Result<Seq<u8>, EscapeError> {
    let name = s.subrange(start + 1, end);
    if name.len() > 0 && name[0] == 0x23 {
        let r = if name.len() > 1 && name[1] == 0x78 {
            char_reference(name.skip(2), true)
        } else {
            char_reference(name.skip(1), false)
        };
        match r {
            Some(bytes) => Ok(bytes),
            None => Err(EscapeError::InvalidReference { start: start as usize, end: end as usize }),
        }
    } else {
        match named_entity(name) {
            Some(b) => Ok(seq![b]),
            None => Err(
                EscapeError::UnrecognizedEntity { start: start as usize, end: end as usize },
            ),
        }
    }
}

/// The index of the `;` that ends the reference whose `&` stands at
/// `start`, or the length of `s` where there is none.
pub open spec fn reference_end(s: Seq<u8>, start: int) -> int {
    let end = find_byte(s, start + 1, 0x3b);
    if end > start {
        end
    } else {
        s.len() as int
    }
}

/// The text `s` from `from` on with each reference replaced by what it
/// stands for.  The first reference that is malformed is the error.
pub open spec fn unescape_from(s: Seq<u8>, from: int) -> Result<Seq<u8>, EscapeError>
    decreases s.len() - from,
{
    if from < 0 || from >= s.len() {
        Ok(Seq::empty())
    } else if s[from] != 0x26 {
        match unescape_from(s, from + 1) {
            Ok(t) => Ok(seq![s[from]] + t),
            Err(e) => Err(e),
        }
    } else {
        let end = reference_end(s, from);
        if end >= s.len() {
            Err(EscapeError::UnterminatedEntity { start: from as usize })
        } else {
            match resolve(s, from, end) {
                Err(e) => Err(e),
                Ok(bytes) => match unescape_from(s, end + 1) {
                    Ok(t) => Ok(bytes + t),
                    Err(e) => Err(e),
                },
            }
        }
    }
}

/// The text `s` with each reference replaced by what it stands for.
pub open spec fn unescaped(s: Seq<u8>) -> Result<Seq<u8>, EscapeError> {
    unescape_from(s, 0)
}

/// Text that holds no `&` from `from` on stands for itself.
pub proof fn lemma_plain_text_unescapes_to_itself(s: Seq<u8>, from: int)
    requires
        0 <= from <= s.len(),
        find_byte(s, from, 0x26) == s.len(),
    ensures
        unescape_from(s, from) == Ok::<Seq<u8>, EscapeError>(s.skip(from)),
    decreases s.len() - from,
{
    if from < s.len() {
        lemma_plain_text_unescapes_to_itself(s, from + 1);
        assert(seq![s[from]] + s.skip(from + 1) =~= s.skip(from));
    } else {
        assert(s.skip(from) =~= Seq::<u8>::empty());
    }
}

/// Appends the UTF-8 encoding of the character with the number `v`.
fn push_scalar(out: &mut Vec<u8>, v: u32)
    requires
        is_scalar(v),
    ensures
        final(out)@ == old(out)@ + encode_scalar(v),
{
    if v <= 0x7F {
        let b0 = (v & 0x7F) as u8;
        out.push(b0);
        assert(out@ =~= old(out)@ + encode_scalar(v));
    } else if v <= 0x7FF {
        let b0 = 0xC0 | ((v >> 6) & 0x1F) as u8;
        let b1 = 0x80 | (v & 0x3F) as u8;
        out.push(b0);
        out.push(b1);
        assert(out@ =~= old(out)@ + encode_scalar(v));
    } else if v <= 0xFFFF {
        let b0 = 0xE0 | ((v >> 12) & 0x0F) as u8;
        let b1 = 0x80 | ((v >> 6) & 0x3F) as u8;
        let b2 = 0x80 | (v & 0x3F) as u8;
        out.push(b0);
        out.push(b1);
        out.push(b2);
        assert(out@ =~= old(out)@ + encode_scalar(v));
    } else {
        let b0 = 0xF0 | ((v >> 18) & 0x7) as u8;
        let b1 = 0x80 | ((v >> 12) & 0x3F) as u8;
        let b2 = 0x80 | ((v >> 6) & 0x3F) as u8;
        let b3 = 0x80 | (v & 0x3F) as u8;
        out.push(b0);
        out.push(b1);
        out.push(b2);
        out.push(b3);
        assert(out@ =~= old(out)@ + encode_scalar(v));
    }
}

/// Reads the digits in `s[from, to)` as the number of a character.
fn read_number(s: &[u8], from: usize, to: usize, hex: bool) -> (r: Option<u32>)
    requires
        from <= to <= s@.len(),
    ensures
        match number(s@.subrange(from as int, to as int), hex) {
            Some(v) => if 0 <= v <= 0x10FFFF && !(0xD800 <= v <= 0xDFFF) {
                r == Some(v as u32)
            } else {
                r is None
            },
            None => r is None,
        },
{
    match read_digits(s, from, to, hex, 0x10FFFF) {
        Some(v) => if v >= 0xD800 && v <= 0xDFFF {
            None
        } else {
            Some(v as u32)
        },
        None => None,
    }
}

/// Appends what the reference stands for that starts at `start` and ends
/// at `end`.
fn push_reference(out: &mut Vec<u8>, s: &[u8], start: usize, end: usize) -> (r: Result<
    (),
    EscapeError,
>)
    requires
        start < end < s@.len(),
    ensures
        match resolve(s@, start as int, end as int) {
            Ok(bytes) => r is Ok && final(out)@ == old(out)@ + bytes,
            Err(e) => r == Err::<(), EscapeError>(e),
        },
{
    let name = slice_subrange(s, start + 1, end);
    if name.len() > 0 && name[0] == 0x23 {
        let hex = name.len() > 1 && name[1] == 0x78;
        let from = if hex {
            start + 3
        } else {
            start + 2
        };
        proof {
            if hex {
                assert(name@.skip(2) =~= s@.subrange(from as int, end as int));
            } else {
                assert(name@.skip(1) =~= s@.subrange(from as int, end as int));
            }
        }
        match read_number(s, from, end, hex) {
            Some(v) => {
                push_scalar(out, v);
                Ok(())
            },
            None => Err(EscapeError::InvalidReference { start, end }),
        }
    } else {
        let lt: [u8; 2] = [0x6c, 0x74];
        let gt: [u8; 2] = [0x67, 0x74];
        let amp: [u8; 3] = [0x61, 0x6d, 0x70];
        let apos: [u8; 4] = [0x61, 0x70, 0x6f, 0x73];
        let quot: [u8; 4] = [0x71, 0x75, 0x6f, 0x74];
        assert(lt@ =~= name_lt());
        assert(gt@ =~= name_gt());
        assert(amp@ =~= name_amp());
        assert(apos@ =~= name_apos());
        assert(quot@ =~= name_quot());
        let b: u8 = if crate::bytes::bytes_eq(name, lt.as_slice()) {
            0x3c
        } else if crate::bytes::bytes_eq(name, gt.as_slice()) {
            0x3e
        } else if crate::bytes::bytes_eq(name, amp.as_slice()) {
            0x26
        } else if crate::bytes::bytes_eq(name, apos.as_slice()) {
            0x27
        } else if crate::bytes::bytes_eq(name, quot.as_slice()) {
            0x22
        } else {
            return Err(EscapeError::UnrecognizedEntity { start, end });
        };
        out.push(b);
        assert(out@ =~= old(out)@ + seq![b]);
        Ok(())
    }
}

/// Replaces each reference in `raw` by what it stands for.  Text without a
/// reference is handed back as it came, without a copy.
pub fn unescape<'a>(raw: Cow<'a, [u8]>) -> (r: Result<Cow<'a, [u8]>, EscapeError>)
    ensures
        match unescaped(raw@) {
            Ok(text) => r matches Ok(t) && t@ == text,
            Err(e) => r == Err::<Cow<'a, [u8]>, EscapeError>(e),
        },
        find_byte(raw@, 0, 0x26) == raw@.len() ==> r == Ok::<Cow<'a, [u8]>, EscapeError>(raw),
{
    let first = find_byte_from(cow_bytes(&raw), 0, 0x26);
    if first == cow_bytes(&raw).len() {
        proof {
            lemma_plain_text_unescapes_to_itself(raw@, 0);
            assert(raw@.skip(0) =~= raw@);
        }
        return Ok(raw);
    }
    let s = cow_bytes(&raw);
    let mut out: Vec<u8> = Vec::new();
    let mut i: usize = 0;
    while i < s.len()
        invariant
            i <= s@.len(),
            s@ == raw@,
            find_byte(raw@, 0, 0x26) != raw@.len(),
            unescaped(s@) == (match unescape_from(s@, i as int) {
                Ok(t) => Ok::<Seq<u8>, EscapeError>(out@ + t),
                Err(e) => Err::<Seq<u8>, EscapeError>(e),
            }),
        decreases s@.len() - i,
    {
        let ghost before = out@;
        if s[i] != 0x26 {
            out.push(s[i]);
            proof {
                if let Ok(t) = unescape_from(s@, i + 1) {
                    assert(before + (seq![s@[i as int]] + t) =~= out@ + t);
                }
            }
            i += 1;
        } else {
            let end = find_byte_from(s, i + 1, 0x3b);
            if end >= s.len() {
                return Err(EscapeError::UnterminatedEntity { start: i });
            }
            match push_reference(&mut out, s, i, end) {
                Err(e) => return Err(e),
                Ok(()) => {},
            }
            proof {
                let bytes = resolve(s@, i as int, end as int)->Ok_0;
                if let Ok(t) = unescape_from(s@, end + 1) {
                    assert(before + (bytes + t) =~= out@ + t);
                }
            }
            i = end + 1;
        }
    }
    assert(out@ + Seq::<u8>::empty() =~= out@);
    Ok(Cow::Owned(out))
}

} // verus!
