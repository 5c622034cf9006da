//! Scalars written as text read back as themselves.
use crate::de::scalar::{boolean, decoded, integer, integer_in, spells_false, spells_true};
use crate::digits::{digit_value, number};
use crate::errors::{DeErrorView, EscapeError};
use crate::escape::{
    named_entity, name_amp, name_apos, name_gt, name_lt, name_quot, reference_end, resolve,
    unescape_from, unescaped,
};
use crate::scan::find_byte;
use vstd::prelude::*;
use vstd::string::StringSliceAdditionalSpecFns;
use vstd::utf8::{
    encode_utf8, encode_utf8_decode_utf8, encode_utf8_valid_utf8, is_ascii_chars,
    is_ascii_chars_encode_utf8, is_leading_byte_width_1, partial_valid_utf8,
    partial_valid_utf8_extend_ascii_block, valid_utf8,
};

verus! {

/// What the literal `s` holds: its length in bytes and its first byte.
proof fn lemma_literal_bytes(s: &str)
    requires
        is_ascii_chars(s@),
    ensures
        s.spec_bytes().len() == s@.len(),
        s@.len() > 0 ==> s.spec_bytes()[0] == s@[0] as u8,
{
    is_ascii_chars_encode_utf8(s@);
}

/// No text spells both "true" and "false".
pub proof fn lemma_spellings_are_disjoint(s: Seq<u8>)
    ensures
        !(spells_true(s) && spells_false(s)),
{
    reveal_strlit("true");
    reveal_strlit("1");
    reveal_strlit("True");
    reveal_strlit("TRUE");
    reveal_strlit("t");
    reveal_strlit("Yes");
    reveal_strlit("YES");
    reveal_strlit("yes");
    reveal_strlit("y");
    reveal_strlit("false");
    reveal_strlit("0");
    reveal_strlit("False");
    reveal_strlit("FALSE");
    reveal_strlit("f");
    reveal_strlit("No");
    reveal_strlit("NO");
    reveal_strlit("no");
    reveal_strlit("n");
    lemma_literal_bytes("true");
    lemma_literal_bytes("1");
    lemma_literal_bytes("True");
    lemma_literal_bytes("TRUE");
    lemma_literal_bytes("t");
    lemma_literal_bytes("Yes");
    lemma_literal_bytes("YES");
    lemma_literal_bytes("yes");
    lemma_literal_bytes("y");
    lemma_literal_bytes("false");
    lemma_literal_bytes("0");
    lemma_literal_bytes("False");
    lemma_literal_bytes("FALSE");
    lemma_literal_bytes("f");
    lemma_literal_bytes("No");
    lemma_literal_bytes("NO");
    lemma_literal_bytes("no");
    lemma_literal_bytes("n");
}

/// A boolean reads back from each of its spellings: the words in small
/// letters that a writer puts out, `1` and `0`, and the other spellings
/// that are accepted.
pub proof fn lemma_boolean_round_trip(s: Seq<u8>)
    ensures
        spells_true(s) ==> boolean(s) == Ok::<bool, DeErrorView>(true),
        spells_false(s) ==> boolean(s) == Ok::<bool, DeErrorView>(false),
{
    lemma_spellings_are_disjoint(s);
}

/// The digits of `n` in base ten, without zeros in front.
pub open spec fn digits_of(n: nat) -> Seq<u8>
    decreases n,
{
    if n < 10 {
        seq![(0x30 + n) as u8]
    } else {
        digits_of(n / 10).push((0x30 + n % 10) as u8)
    }
}

/// The text of the integer `v` in base ten, with `-` in front of a negative
/// one.
pub open spec fn integer_text(v: int) -> Seq<u8> {
    if v < 0 {
        seq![0x2du8] + digits_of((-v) as nat)
    } else {
        digits_of(v as nat)
    }
}

/// The digits of a number spell that number, and they are digits.
pub proof fn lemma_digits_spell_their_number(n: nat)
    ensures
        digits_of(n).len() >= 1,
        number(digits_of(n), false) == Some(n as int),
        forall|i: int| 0 <= i < digits_of(n).len() ==> 0x30 <= #[trigger] digits_of(n)[i] <= 0x39,
    decreases n,
{
    if n >= 10 {
        lemma_digits_spell_their_number(n / 10);
        let d = digits_of(n);
        let last = (0x30 + n % 10) as u8;
        assert(d.last() == last);
        assert(d.drop_last() =~= digits_of(n / 10));
        assert(digit_value(last, false) == Some((n % 10) as int));
    }
}

/// Text of bytes below 128 is valid UTF-8.
pub proof fn lemma_ascii_is_valid_utf8(s: Seq<u8>)
    requires
        forall|i: int| 0 <= i < s.len() ==> #[trigger] s[i] <= 0x7f,
    ensures
        valid_utf8(s),
{
    assert(s.subrange(0, 0) =~= Seq::<u8>::empty());
    assert(partial_valid_utf8(s, 0));
    assert forall|i: int| 0 <= 0 <= i < s.len() <= s.len() implies #[trigger] is_leading_byte_width_1(
        s[i],
    ) by {}
    partial_valid_utf8_extend_ascii_block(s, 0, s.len() as int);
    assert(s.subrange(0, s.len() as int) =~= s);
}

/// An integer reads back from its decimal text, as every integer type
/// whose range holds it.
pub proof fn lemma_integer_round_trip(v: int, min: int, max: int)
    requires
        min <= v <= max,
    ensures
        integer_in(integer_text(v), min, max) == Ok::<int, DeErrorView>(v),
{
    let s = integer_text(v);
    let n = if v < 0 {
        (-v) as nat
    } else {
        v as nat
    };
    lemma_digits_spell_their_number(n);
    let d = digits_of(n);
    if v < 0 {
        assert(s.skip(1) =~= d);
        assert forall|i: int| 0 <= i < s.len() implies #[trigger] s[i] <= 0x7f by {
            if i > 0 {
                assert(s[i] == d[i - 1]);
            }
        }
    } else {
        assert(0x30 <= d[0] <= 0x39);
    }
    lemma_ascii_is_valid_utf8(s);
}

/// What a writer puts out for the byte `b` of a text: a predefined entity
/// for each of `<`, `>`, `&`, `'` and `"`, and the byte itself otherwise.
pub open spec fn escaped_byte(b: u8) -> Seq<u8> {
    if b == 0x3c {
        seq![0x26u8] + name_lt() + seq![0x3bu8]
    } else if b == 0x3e {
        seq![0x26u8] + name_gt() + seq![0x3bu8]
    } else if b == 0x26 {
        seq![0x26u8] + name_amp() + seq![0x3bu8]
    } else if b == 0x27 {
        seq![0x26u8] + name_apos() + seq![0x3bu8]
    } else if b == 0x22 {
        seq![0x26u8] + name_quot() + seq![0x3bu8]
    } else {
        seq![b]
    }
}

/// The text `s` as a writer puts it out, with its special bytes escaped.
pub open spec fn escaped(s: Seq<u8>) -> Seq<u8>
    decreases s.len(),
{
    if s.len() == 0 {
        Seq::empty()
    } else {
        escaped_byte(s[0]) + escaped(s.skip(1))
    }
}

/// A search that starts behind a prefix finds what it finds without the
/// prefix.
proof fn lemma_find_byte_behind_prefix(a: Seq<u8>, t: Seq<u8>, k: int, b: u8)
    requires
        0 <= k <= t.len(),
    ensures
        find_byte(a + t, a.len() + k, b) == a.len() + find_byte(t, k, b),
    decreases t.len() - k,
{
    if k < t.len() {
        assert((a + t)[a.len() + k] == t[k]);
        if t[k] != b {
            lemma_find_byte_behind_prefix(a, t, k + 1, b);
        }
    }
}

/// Text that unescapes without an error unescapes alike behind a prefix.
proof fn lemma_unescape_behind_prefix(a: Seq<u8>, t: Seq<u8>, k: int)
    requires
        0 <= k <= t.len(),
        unescape_from(t, k) is Ok,
    ensures
        unescape_from(a + t, a.len() + k) == unescape_from(t, k),
    decreases t.len() - k,
{
    let s = a + t;
    let p = a.len() + k;
    if k < t.len() {
        assert(s[p] == t[k]);
        if t[k] != 0x26 {
            lemma_unescape_behind_prefix(a, t, k + 1);
        } else {
            lemma_find_byte_behind_prefix(a, t, k + 1, 0x3b);
            let end = reference_end(t, k);
            assert(reference_end(s, p) == a.len() + end);
            assert(s.subrange(p + 1, a.len() + end) =~= t.subrange(k + 1, end));
            assert(resolve(t, k, end) is Ok);
            assert(resolve(s, p, a.len() + end) == resolve(t, k, end));
            lemma_unescape_behind_prefix(a, t, end + 1);
        }
    }
}

/// Text that starts with a byte which needs no escape unescapes to that
/// byte and what the rest unescapes to.
proof fn lemma_unescape_plain_head(b: u8, t: Seq<u8>, x: Seq<u8>)
    requires
        b != 0x26,
        unescape_from(t, 0) == Ok::<Seq<u8>, EscapeError>(x),
    ensures
        unescape_from(seq![b] + t, 0) == Ok::<Seq<u8>, EscapeError>(seq![b] + x),
{
    let head = seq![b];
    lemma_unescape_behind_prefix(head, t, 0);
    assert((head + t)[0] == b);
}

/// Text that starts with a predefined entity unescapes to the byte that
/// the entity stands for and what the rest unescapes to.
proof fn lemma_unescape_entity_head(name: Seq<u8>, b: u8, t: Seq<u8>, x: Seq<u8>)
    requires
        named_entity(name) == Some(b),
        2 <= name.len() <= 4,
        forall|i: int| 0 <= i < name.len() ==> #[trigger] name[i] != 0x3b,
        name[0] != 0x23,
        unescape_from(t, 0) == Ok::<Seq<u8>, EscapeError>(x),
    ensures
        unescape_from(seq![0x26u8] + name + seq![0x3bu8] + t, 0) == Ok::<Seq<u8>, EscapeError>(
            seq![b] + x,
        ),
{
    let head = seq![0x26u8] + name + seq![0x3bu8];
    let all = head + t;
    let end: int = name.len() as int + 1;
    lemma_unescape_behind_prefix(head, t, 0);
    assert(all[0] == 0x26);
    assert(all[end] == 0x3b);
    assert forall|i: int| 1 <= i < end implies #[trigger] all[i] != 0x3b by {
        assert(all[i] == name[i - 1]);
    }
    lemma_find_in_entity(all, end);
    assert(reference_end(all, 0) == end);
    assert(all.subrange(1, end) =~= name);
    assert(resolve(all, 0, end) == Ok::<Seq<u8>, EscapeError>(seq![b]));
    assert(unescape_from(all, end + 1) == Ok::<Seq<u8>, EscapeError>(x));
}

/// In text that starts with an entity whose `;` stands at `end`, with
/// no `;` before it, the search for the `;` ends there.
proof fn lemma_find_in_entity(s: Seq<u8>, end: int)
    requires
        3 <= end <= 5,
        end < s.len(),
        s[end] == 0x3b,
        forall|i: int| 1 <= i < end ==> #[trigger] s[i] != 0x3b,
    ensures
        find_byte(s, 1, 0x3b) == end,
{
    reveal_with_fuel(find_byte, 6);
}

/// The names of the predefined entities hold no `;` and start with no `#`,
/// and each stands for its byte.
proof fn lemma_entity_names()
    ensures
        named_entity(name_lt()) == Some(0x3cu8),
        named_entity(name_gt()) == Some(0x3eu8),
        named_entity(name_amp()) == Some(0x26u8),
        named_entity(name_apos()) == Some(0x27u8),
        named_entity(name_quot()) == Some(0x22u8),
{
    assert(name_gt()[0] != name_lt()[0]);
    assert(name_amp().len() != name_lt().len());
    assert(name_amp().len() != name_gt().len());
    assert(name_apos().len() != name_lt().len());
    assert(name_apos().len() != name_gt().len());
    assert(name_apos().len() != name_amp().len());
    assert(name_quot().len() != name_lt().len());
    assert(name_quot().len() != name_gt().len());
    assert(name_quot().len() != name_amp().len());
    assert(name_quot()[0] != name_apos()[0]);
}

/// Text reads back from what a writer puts out for it.
pub proof fn lemma_unescape_undoes_escape(s: Seq<u8>)
    ensures
        unescaped(escaped(s)) == Ok::<Seq<u8>, EscapeError>(s),
    decreases s.len(),
{
    if s.len() > 0 {
        let b = s[0];
        let tail = escaped(s.skip(1));
        lemma_unescape_undoes_escape(s.skip(1));
        lemma_entity_names();
        assert(seq![b] + s.skip(1) =~= s);
        assert(escaped(s) == escaped_byte(b) + tail);
        if b == 0x3c {
            lemma_unescape_entity_head(name_lt(), b, tail, s.skip(1));
        } else if b == 0x3e {
            lemma_unescape_entity_head(name_gt(), b, tail, s.skip(1));
        } else if b == 0x26 {
            lemma_unescape_entity_head(name_amp(), b, tail, s.skip(1));
        } else if b == 0x27 {
            lemma_unescape_entity_head(name_apos(), b, tail, s.skip(1));
        } else if b == 0x22 {
            lemma_unescape_entity_head(name_quot(), b, tail, s.skip(1));
        } else {
            lemma_unescape_plain_head(b, tail, s.skip(1));
        }
    } else {
        assert(s =~= Seq::<u8>::empty());
    }
}

/// A string reads back from the text that a writer puts out for it: its
/// UTF-8 bytes, with the special ones escaped.
pub proof fn lemma_string_round_trip(chars: Seq<char>)
    ensures
        unescaped(escaped(encode_utf8(chars))) == Ok::<Seq<u8>, EscapeError>(encode_utf8(chars)),
        decoded(encode_utf8(chars)) == Ok::<Seq<char>, DeErrorView>(chars),
{
    lemma_unescape_undoes_escape(encode_utf8(chars));
    encode_utf8_valid_utf8(chars);
    encode_utf8_decode_utf8(chars);
}

} // verus!
