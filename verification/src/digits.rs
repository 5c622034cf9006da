//! Numbers spelled in digits.
use vstd::prelude::*;

verus! {

/// The value of the digit `b`; with `hex` the letters `a` to `f` count too,
/// small or capital.
pub open spec fn digit_value(b: u8, hex: bool) -> Option<int> {
    if 0x30 <= b <= 0x39 {
        Some(b - 0x30)
    } else if hex && 0x61 <= b <= 0x66 {
        Some(b - 0x61 + 10)
    } else if hex && 0x41 <= b <= 0x46 {
        Some(b - 0x41 + 10)
    } else {
        None
    }
}

/// The base in which digits are read.
pub open spec fn radix(hex: bool) -> int {
    if hex {
        16
    } else {
        10
    }
}

/// The number that the digits `s` spell, in base sixteen with `hex` and in
/// base ten without.  `None` where `s` is empty or holds another byte.
pub open spec fn number(s: Seq<u8>, hex: bool) -> Option<int>
    decreases s.len(),
{
    if s.len() == 0 {
        None
    } else {
        match digit_value(s.last(), hex) {
            None => None,
            Some(d) => if s.len() == 1 {
                Some(d)
            } else {
                match number(s.drop_last(), hex) {
                    Some(v) => Some(v * radix(hex) + d),
                    None => None,
                }
            },
        }
    }
}

/// Digits with a byte among them that is no digit spell no number.
pub proof fn lemma_bad_digit_spoils(s: Seq<u8>, at: int, hex: bool)
    requires
        0 <= at < s.len(),
        digit_value(s[at], hex) is None,
    ensures
        number(s, hex) is None,
    decreases s.len(),
{
    if at < s.len() - 1 {
        lemma_bad_digit_spoils(s.drop_last(), at, hex);
    }
}

/// Reads the digits in `s[from, to)` as a number of at most `cap`.
pub(crate) fn read_digits(s: &[u8], from: usize, to: usize, hex: bool, cap: u128) -> (r: Option<u128>)
    requires
        from <= to <= s@.len(),
    ensures
        match number(s@.subrange(from as int, to as int), hex) {
            Some(v) => 0 <= v && if v <= cap {
                r == Some(v as u128)
            } else {
                r is None
            },
            None => r is None,
        },
{
    if from == to {
        return None;
    }
    let ghost digits = s@.subrange(from as int, to as int);
    let mut acc: u128 = 0;
    let mut over = false;
    let mut i: usize = from;
    let ghost mut exact: int = 0;
    while i < to
        invariant
            from <= i <= to <= s@.len(),
            digits == s@.subrange(from as int, to as int),
            i > from ==> number(digits.take(i - from), hex) == Some(exact),
            i == from ==> exact == 0,
            0 <= exact,
            over == (exact > cap),
            !over ==> acc == exact,
        decreases to - i,
    {
        let b = s[i];
        let d: u128 = if b >= 0x30 && b <= 0x39 {
            (b - 0x30) as u128
        } else if hex && b >= 0x61 && b <= 0x66 {
            (b - 0x61) as u128 + 10
        } else if hex && b >= 0x41 && b <= 0x46 {
            (b - 0x41) as u128 + 10
        } else {
            proof {
                lemma_bad_digit_spoils(digits, i - from, hex);
            }
            return None;
        };
        let ghost grown = exact * radix(hex) + d;
        proof {
            let next = digits.take(i - from + 1);
            assert(next.last() == b);
            assert(next.drop_last() =~= digits.take(i - from));
            assert(digit_value(b, hex) == Some(d as int));
            assert(number(next, hex) == Some(grown));
            assert(grown >= exact);
        }
        if !over {
            if d > cap {
                over = true;
            } else {
                let room: u128 = if hex {
                    (cap - d) / 16
                } else {
                    (cap - d) / 10
                };
                if acc > room {
                    over = true;
                } else if hex {
                    acc = acc * 16 + d;
                } else {
                    acc = acc * 10 + d;
                }
            }
        }
        proof {
            exact = grown;
        }
        i += 1;
    }
    assert(digits.take(to - from) =~= digits);
    if over {
        None
    } else {
        Some(acc)
    }
}

} // verus!
