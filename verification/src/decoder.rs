//! Decoding of bytes into strings.
use crate::errors::Error;
use vstd::prelude::*;
use vstd::utf8::{decode_utf8, valid_utf8};

verus! {

/// The characters that `bytes` encode in UTF-8, or no characters where they
/// encode none.
pub open spec fn lossy(bytes: Seq<u8>) -> Seq<char> {
    if valid_utf8(bytes) {
        decode_utf8(bytes)
    } else {
        Seq::empty()
    }
}

/// `std::str::from_utf8` without its error: the string that `bytes` encode
/// in UTF-8, or `None` where they are no valid UTF-8.
#[verifier::external_body]
fn from_utf8(bytes: &[u8]) -> (r: Option<&str>)
    ensures
        r is Some <==> valid_utf8(bytes@),
        r matches Some(s) ==> s@ == decode_utf8(bytes@),
{
    std::str::from_utf8(bytes).ok()
}

/// The policy by which bytes of the input become strings: they are UTF-8.
#[derive(Clone, Copy, Debug, PartialEq, Eq, Structural)]
pub struct Decoder {}

impl Decoder {
    /// Decodes `bytes`; bytes that are no valid UTF-8 are an error.
    pub fn decode<'b>(&self, bytes: &'b [u8]) -> (r: Result<&'b str, Error>)
        ensures
            valid_utf8(bytes@) ==> (r matches Ok(s) && s@ == decode_utf8(bytes@)),
            !valid_utf8(bytes@) ==> (r matches Err(Error::NonDecodable)),
    {
        match from_utf8(bytes) {
            Some(s) => Ok(s),
            None => Err(Error::NonDecodable),
        }
    }

    /// Decodes `bytes` into a string of its own; bytes that are no valid
    /// UTF-8 give the empty string.
    pub fn decode_lossy(&self, bytes: &[u8]) -> (r: String)
        ensures
            r@ == lossy(bytes@),
    {
        match from_utf8(bytes) {
            Some(s) => s.to_owned(),
            None => String::new(),
        }
    }
}

} // verus!
