//! Scalars from text.
use crate::bytes::bytes_eq;
use crate::de::model::Cursor;
use crate::de::{plain, Deserializer, XmlRead};
use crate::decoder::Decoder;
use crate::digits::{number, read_digits};
use crate::errors::{DeError, DeErrorView, ErrorView};
use vstd::prelude::*;
use vstd::string::StringSliceAdditionalSpecFns;
use vstd::utf8::{decode_utf8, valid_utf8};

verus! {

/// Whether `s` is one of the spellings of "true".
pub open spec fn spells_true(s: Seq<u8>) -> bool {
    ||| s == "true".spec_bytes()
    ||| s == "1".spec_bytes()
    ||| s == "True".spec_bytes()
    ||| s == "TRUE".spec_bytes()
    ||| s == "t".spec_bytes()
    ||| s == "Yes".spec_bytes()
    ||| s == "YES".spec_bytes()
    ||| s == "yes".spec_bytes()
    ||| s == "y".spec_bytes()
}

/// Whether `s` is one of the spellings of "false".
pub open spec fn spells_false(s: Seq<u8>) -> bool {
    ||| s == "false".spec_bytes()
    ||| s == "0".spec_bytes()
    ||| s == "False".spec_bytes()
    ||| s == "FALSE".spec_bytes()
    ||| s == "f".spec_bytes()
    ||| s == "No".spec_bytes()
    ||| s == "NO".spec_bytes()
    ||| s == "no".spec_bytes()
    ||| s == "n".spec_bytes()
}

/// The string that the bytes `s` decode to.
pub open spec fn decoded(s: Seq<u8>) -> Result<Seq<char>, DeErrorView> {
    if valid_utf8(s) {
        Ok(decode_utf8(s))
    } else {
        Err(DeErrorView::InvalidXml(ErrorView::NonDecodable))
    }
}

/// The boolean that the text `s` spells.  Text that spells none is an
/// error that carries the text.
pub open spec fn boolean(s: Seq<u8>) -> Result<bool, DeErrorView> {
    if spells_true(s) {
        Ok(true)
    } else if spells_false(s) {
        Ok(false)
    } else {
        match decoded(s) {
            Ok(text) => Err(DeErrorView::InvalidBoolean(text)),
            Err(e) => Err(e),
        }
    }
}

/// The integer that the text `s` spells: digits in base ten, after a `+`
/// or, where `signed` allows it, after a `-`.
pub open spec fn integer(s: Seq<u8>, signed: bool) -> Option<int> {
    if s.len() > 0 && s[0] == 0x2b {
        number(s.skip(1), false)
    } else if signed && s.len() > 0 && s[0] == 0x2d {
        match number(s.skip(1), false) {
            Some(v) => Some(-v),
            None => None,
        }
    } else {
        number(s, false)
    }
}

/// The integer between `min` and `max` that the text `s` spells.  A sign
/// `-` is read where `min` is negative.
pub open spec fn integer_in(s: Seq<u8>, min: int, max: int) -> Result<int, DeErrorView> {
    if !valid_utf8(s) {
        Err(DeErrorView::InvalidXml(ErrorView::NonDecodable))
    } else {
        match integer(s, min < 0) {
            Some(v) => if min <= v <= max {
                Ok(v)
            } else {
                Err(DeErrorView::InvalidInt)
            },
            None => Err(DeErrorView::InvalidInt),
        }
    }
}

/// The mathematical content of a result that carries a signed integer.
pub open spec fn signed(r: Result<i128, DeError>) -> Result<int, DeErrorView> {
    match r {
        Ok(v) => Ok(v as int),
        Err(e) => Err(e@),
    }
}

/// The mathematical content of a result that carries an unsigned integer.
pub open spec fn unsigned(r: Result<u128, DeError>) -> Result<int, DeErrorView> {
    match r {
        Ok(v) => Ok(v as int),
        Err(e) => Err(e@),
    }
}

/// Reads an integer between `min` and `max` from its text.
pub fn parse_signed(value: &[u8], decoder: Decoder, min: i128, max: i128) -> (r: Result<
    i128,
    DeError,
>)
    requires
        min < 0 <= max,
    ensures
        signed(r) == integer_in(value@, min as int, max as int),
{
    if let Err(e) = decoder.decode(value) {
        return Err(DeError::InvalidXml(e));
    }
    let len = value.len();
    let negative = len > 0 && value[0] == 0x2d;
    let from: usize = if len > 0 && (value[0] == 0x2b || value[0] == 0x2d) {
        1
    } else {
        0
    };
    assert(value@.subrange(from as int, len as int) =~= value@.skip(from as int));
    assert(value@.skip(0) =~= value@);
    let cap: u128 = if negative {
        (-(min + 1)) as u128 + 1
    } else {
        max as u128
    };
    match read_digits(value, from, len, false, cap) {
        Some(m) => if !negative {
            Ok(m as i128)
        } else if m == 0 {
            Ok(0)
        } else {
            Ok(-((m - 1) as i128) - 1)
        },
        None => Err(DeError::InvalidInt),
    }
}

/// Reads an integer between zero and `max` from its text.
pub fn parse_unsigned(value: &[u8], decoder: Decoder, max: u128) -> (r: Result<u128, DeError>)
    ensures
        unsigned(r) == integer_in(value@, 0, max as int),
{
    if let Err(e) = decoder.decode(value) {
        return Err(DeError::InvalidXml(e));
    }
    let len = value.len();
    let from: usize = if len > 0 && value[0] == 0x2b {
        1
    } else {
        0
    };
    assert(value@.subrange(from as int, len as int) =~= value@.skip(from as int));
    assert(value@.skip(0) =~= value@);
    match read_digits(value, from, len, false, max) {
        Some(m) => Ok(m),
        None => Err(DeError::InvalidInt),
    }
}

/// The mathematical content of a result that carries a string.
pub open spec fn stringed(r: Result<String, DeError>) -> Result<Seq<char>, DeErrorView> {
    match r {
        Ok(v) => Ok(v@),
        Err(e) => Err(e@),
    }
}

/// Reads a boolean from its text.
pub fn deserialize_bool(value: &[u8], decoder: Decoder) -> (r: Result<bool, DeError>)
    ensures
        plain(r) == boolean(value@),
{
    if bytes_eq(value, "true".as_bytes()) || bytes_eq(value, "1".as_bytes()) || bytes_eq(
        value,
        "True".as_bytes(),
    ) || bytes_eq(value, "TRUE".as_bytes()) || bytes_eq(value, "t".as_bytes()) || bytes_eq(
        value,
        "Yes".as_bytes(),
    ) || bytes_eq(value, "YES".as_bytes()) || bytes_eq(value, "yes".as_bytes()) || bytes_eq(
        value,
        "y".as_bytes(),
    ) {
        Ok(true)
    } else if bytes_eq(value, "false".as_bytes()) || bytes_eq(value, "0".as_bytes())
        || bytes_eq(value, "False".as_bytes()) || bytes_eq(value, "FALSE".as_bytes())
        || bytes_eq(value, "f".as_bytes()) || bytes_eq(value, "No".as_bytes()) || bytes_eq(
        value,
        "NO".as_bytes(),
    ) || bytes_eq(value, "no".as_bytes()) || bytes_eq(value, "n".as_bytes()) {
        Ok(false)
    } else {
        match decoder.decode(value) {
            Ok(text) => Err(DeError::InvalidBoolean(text.to_owned())),
            Err(e) => Err(DeError::InvalidXml(e)),
        }
    }
}

/// Decodes bytes into a string of its own.
pub fn decode_string(value: &[u8], decoder: Decoder) -> (r: Result<String, DeError>)
    ensures
        stringed(r) == decoded(value@),
{
    match decoder.decode(value) {
        Ok(text) => Ok(text.to_owned()),
        Err(e) => Err(DeError::InvalidXml(e)),
    }
}

impl Cursor {
    /// Pulls one value and reads it as a boolean.
    pub open spec fn read_bool(self) -> (Result<bool, DeErrorView>, Cursor) {
        let (r, c) = self.next_text(false, true);
        match r {
            Ok(t) => (boolean(t), c),
            Err(e) => (Err(e), c),
        }
    }

    /// Pulls one value and reads it as an integer between `min` and `max`.
    pub open spec fn read_integer(self, min: int, max: int) -> (Result<int, DeErrorView>, Cursor) {
        let (r, c) = self.next_text(false, true);
        match r {
            Ok(t) => (integer_in(t, min, max), c),
            Err(e) => (Err(e), c),
        }
    }

    /// Pulls one value and gives its bytes as they stand in the input.
    pub open spec fn read_bytes(self) -> (Result<Seq<u8>, DeErrorView>, Cursor) {
        self.next_text(false, true)
    }

    /// Pulls one value and reads it as a string, with its references
    /// replaced.
    pub open spec fn read_string(self) -> (Result<Seq<char>, DeErrorView>, Cursor) {
        let (r, c) = self.next_text(true, true);
        match r {
            Ok(t) => (decoded(t), c),
            Err(e) => (Err(e), c),
        }
    }
}

impl<'de, R: XmlRead<'de>> Deserializer<'de, R> {
    /// Pulls one value and reads it as a boolean.
    pub fn deserialize_bool(&mut self) -> (r: Result<bool, DeError>)
        requires
            old(self).inv(),
        ensures
            final(self).inv(),
            plain(r) == old(self)@.read_bool().0,
            final(self)@ == old(self)@.read_bool().1,
    {
        let text = self.next_text(false)?;
        deserialize_bool(text.as_bytes(), self.decoder())
    }

    /// Pulls one value and reads it as a string, with its references
    /// replaced.
    pub fn deserialize_string(&mut self) -> (r: Result<String, DeError>)
        requires
            old(self).inv(),
        ensures
            final(self).inv(),
            stringed(r) == old(self)@.read_string().0,
            final(self)@ == old(self)@.read_string().1,
    {
        let text = self.next_text(true)?;
        decode_string(text.as_bytes(), self.decoder())
    }
    /// Pulls one value and reads it as an `i8`.
    pub fn deserialize_i8(&mut self) -> (r: Result<i8, DeError>)
        requires
            old(self).inv(),
        ensures
            final(self).inv(),
            match r {
                Ok(v) => Ok::<int, DeErrorView>(v as int),
                Err(e) => Err::<int, DeErrorView>(e@),
            } == old(self)@.read_integer(i8::MIN as int, i8::MAX as int).0,
            final(self)@ == old(self)@.read_integer(i8::MIN as int, i8::MAX as int).1,
    {
        let text = self.next_text(false)?;
        let v = parse_signed(text.as_bytes(), self.decoder(), i8::MIN as i128, i8::MAX as i128)?;
        Ok(v as i8)
    }

    /// Pulls one value and reads it as an `i16`.
    pub fn deserialize_i16(&mut self) -> (r: Result<i16, DeError>)
        requires
            old(self).inv(),
        ensures
            final(self).inv(),
            match r {
                Ok(v) => Ok::<int, DeErrorView>(v as int),
                Err(e) => Err::<int, DeErrorView>(e@),
            } == old(self)@.read_integer(i16::MIN as int, i16::MAX as int).0,
            final(self)@ == old(self)@.read_integer(i16::MIN as int, i16::MAX as int).1,
    {
        let text = self.next_text(false)?;
        let v = parse_signed(text.as_bytes(), self.decoder(), i16::MIN as i128, i16::MAX as i128)?;
        Ok(v as i16)
    }

    /// Pulls one value and reads it as an `i32`.
    pub fn deserialize_i32(&mut self) -> (r: Result<i32, DeError>)
        requires
            old(self).inv(),
        ensures
            final(self).inv(),
            match r {
                Ok(v) => Ok::<int, DeErrorView>(v as int),
                Err(e) => Err::<int, DeErrorView>(e@),
            } == old(self)@.read_integer(i32::MIN as int, i32::MAX as int).0,
            final(self)@ == old(self)@.read_integer(i32::MIN as int, i32::MAX as int).1,
    {
        let text = self.next_text(false)?;
        let v = parse_signed(text.as_bytes(), self.decoder(), i32::MIN as i128, i32::MAX as i128)?;
        Ok(v as i32)
    }

    /// Pulls one value and reads it as an `i64`.
    pub fn deserialize_i64(&mut self) -> (r: Result<i64, DeError>)
        requires
            old(self).inv(),
        ensures
            final(self).inv(),
            match r {
                Ok(v) => Ok::<int, DeErrorView>(v as int),
                Err(e) => Err::<int, DeErrorView>(e@),
            } == old(self)@.read_integer(i64::MIN as int, i64::MAX as int).0,
            final(self)@ == old(self)@.read_integer(i64::MIN as int, i64::MAX as int).1,
    {
        let text = self.next_text(false)?;
        let v = parse_signed(text.as_bytes(), self.decoder(), i64::MIN as i128, i64::MAX as i128)?;
        Ok(v as i64)
    }

    /// Pulls one value and reads it as an `i128`.
    pub fn deserialize_i128(&mut self) -> (r: Result<i128, DeError>)
        requires
            old(self).inv(),
        ensures
            final(self).inv(),
            match r {
                Ok(v) => Ok::<int, DeErrorView>(v as int),
                Err(e) => Err::<int, DeErrorView>(e@),
            } == old(self)@.read_integer(i128::MIN as int, i128::MAX as int).0,
            final(self)@ == old(self)@.read_integer(i128::MIN as int, i128::MAX as int).1,
    {
        let text = self.next_text(false)?;
        let v = parse_signed(text.as_bytes(), self.decoder(), i128::MIN as i128, i128::MAX as i128)?;
        Ok(v as i128)
    }

    /// Pulls one value and reads it as a `u8`.
    pub fn deserialize_u8(&mut self) -> (r: Result<u8, DeError>)
        requires
            old(self).inv(),
        ensures
            final(self).inv(),
            match r {
                Ok(v) => Ok::<int, DeErrorView>(v as int),
                Err(e) => Err::<int, DeErrorView>(e@),
            } == old(self)@.read_integer(0, u8::MAX as int).0,
            final(self)@ == old(self)@.read_integer(0, u8::MAX as int).1,
    {
        let text = self.next_text(false)?;
        let v = parse_unsigned(text.as_bytes(), self.decoder(), u8::MAX as u128)?;
        Ok(v as u8)
    }

    /// Pulls one value and reads it as a `u16`.
    pub fn deserialize_u16(&mut self) -> (r: Result<u16, DeError>)
        requires
            old(self).inv(),
        ensures
            final(self).inv(),
            match r {
                Ok(v) => Ok::<int, DeErrorView>(v as int),
                Err(e) => Err::<int, DeErrorView>(e@),
            } == old(self)@.read_integer(0, u16::MAX as int).0,
            final(self)@ == old(self)@.read_integer(0, u16::MAX as int).1,
    {
        let text = self.next_text(false)?;
        let v = parse_unsigned(text.as_bytes(), self.decoder(), u16::MAX as u128)?;
        Ok(v as u16)
    }

    /// Pulls one value and reads it as a `u32`.
    pub fn deserialize_u32(&mut self) -> (r: Result<u32, DeError>)
        requires
            old(self).inv(),
        ensures
            final(self).inv(),
            match r {
                Ok(v) => Ok::<int, DeErrorView>(v as int),
                Err(e) => Err::<int, DeErrorView>(e@),
            } == old(self)@.read_integer(0, u32::MAX as int).0,
            final(self)@ == old(self)@.read_integer(0, u32::MAX as int).1,
    {
        let text = self.next_text(false)?;
        let v = parse_unsigned(text.as_bytes(), self.decoder(), u32::MAX as u128)?;
        Ok(v as u32)
    }

    /// Pulls one value and reads it as a `u64`.
    pub fn deserialize_u64(&mut self) -> (r: Result<u64, DeError>)
        requires
            old(self).inv(),
        ensures
            final(self).inv(),
            match r {
                Ok(v) => Ok::<int, DeErrorView>(v as int),
                Err(e) => Err::<int, DeErrorView>(e@),
            } == old(self)@.read_integer(0, u64::MAX as int).0,
            final(self)@ == old(self)@.read_integer(0, u64::MAX as int).1,
    {
        let text = self.next_text(false)?;
        let v = parse_unsigned(text.as_bytes(), self.decoder(), u64::MAX as u128)?;
        Ok(v as u64)
    }

    /// Pulls one value and reads it as a `u128`.
    pub fn deserialize_u128(&mut self) -> (r: Result<u128, DeError>)
        requires
            old(self).inv(),
        ensures
            final(self).inv(),
            match r {
                Ok(v) => Ok::<int, DeErrorView>(v as int),
                Err(e) => Err::<int, DeErrorView>(e@),
            } == old(self)@.read_integer(0, u128::MAX as int).0,
            final(self)@ == old(self)@.read_integer(0, u128::MAX as int).1,
    {
        let text = self.next_text(false)?;
        let v = parse_unsigned(text.as_bytes(), self.decoder(), u128::MAX as u128)?;
        Ok(v as u128)
    }

    /// Pulls one value and gives its bytes as they stand in the input, with
    /// no reference replaced.
    pub fn deserialize_byte_buf(&mut self) -> (r: Result<Vec<u8>, DeError>)
        requires
            old(self).inv(),
        ensures
            final(self).inv(),
            match r {
                Ok(v) => Ok::<Seq<u8>, DeErrorView>(v@),
                Err(e) => Err::<Seq<u8>, DeErrorView>(e@),
            } == old(self)@.read_bytes().0,
            final(self)@ == old(self)@.read_bytes().1,
    {
        let text = self.next_text(false)?;
        Ok(crate::bytes::to_vec(text.as_bytes()))
    }
}

} // verus!
