//! The errors of the tokenizer and of the decoder.
use crate::attributes::AttrError;
use vstd::prelude::*;

verus! {

/// A construct of the markup that the input may end in the middle of.
#[derive(Clone, Copy, Debug, PartialEq, Eq, Structural)]
pub enum Syntax {
    /// A start, end or empty-element tag.
    Element,
    /// A comment.
    Comment,
    /// A character data section.
    CData,
    /// A document type declaration.
    DocType,
    /// A processing instruction or a declaration.
    Instruction,
}

/// Why a run of escaped text could not be unescaped.  The positions count
/// bytes from the start of the text.
#[derive(Clone, Copy, Debug, PartialEq, Eq, Structural)]
pub enum EscapeError {
    /// The `&` at `start` is followed by no `;`.
    UnterminatedEntity { start: usize },
    /// The entity between the `&` at `start` and the `;` at `end` is none of
    /// the predefined ones.
    UnrecognizedEntity { start: usize, end: usize },
    /// The character reference between the `&` at `start` and the `;` at `end`
    /// is no number, or no number of a character.
    InvalidReference { start: usize, end: usize },
}

/// An error in the markup itself.
#[derive(Debug, PartialEq, Eq)]
pub enum Error {
    /// Text that had to be a string is not valid UTF-8.
    NonDecodable,
    /// The input ended inside the given construct.
    UnexpectedEof(Syntax),
    /// An end tag names another element than the innermost open one.  A name
    /// that is not valid UTF-8 is given as the empty string.
    EndEventMismatch { expected: String, found: String },
    /// `<!` is followed by a byte that starts no known construct.
    UnexpectedBang(u8),
    /// An entity in escaped text is malformed.
    EscapeError(EscapeError),
    /// The attributes of a start tag are malformed.
    InvalidAttr(AttrError),
}

/// The mathematical content of an [`Error`].
pub enum ErrorView {
    NonDecodable,
    UnexpectedEof(Syntax),
    EndEventMismatch { expected: Seq<char>, found: Seq<char> },
    UnexpectedBang(u8),
    EscapeError(EscapeError),
    InvalidAttr(AttrError),
}

impl View for Error {
    type V = ErrorView;

    open spec fn view(&self) -> ErrorView {
        match self {
            Error::NonDecodable => ErrorView::NonDecodable,
            Error::UnexpectedEof(s) => ErrorView::UnexpectedEof(*s),
            Error::EndEventMismatch { expected, found } => ErrorView::EndEventMismatch {
                expected: expected@,
                found: found@,
            },
            Error::UnexpectedBang(b) => ErrorView::UnexpectedBang(*b),
            Error::EscapeError(e) => ErrorView::EscapeError(*e),
            Error::InvalidAttr(e) => ErrorView::InvalidAttr(*e),
        }
    }
}

/// An error of decoding.  Each one ends the decoding that met it.
#[derive(Debug, PartialEq, Eq)]
pub enum DeError {
    /// The markup is malformed.
    InvalidXml(Error),
    /// Text that had to be an integer is none, or is out of the type's range.
    InvalidInt,
    /// Text that had to be a boolean is none of the accepted spellings.
    InvalidBoolean(String),
    /// A start tag stands where only text or an end tag may stand; the
    /// payload is the element's name.
    UnexpectedStart(Vec<u8>),
    /// An end tag stands where a value was expected; the payload is the
    /// element's name.
    UnexpectedEnd(Vec<u8>),
    /// The input ended where a value was still expected.
    UnexpectedEof,
    /// An element was required and only text or the end of input was found.
    ExpectedStart,
    /// The value of a field was asked for before its key.
    KeyNotRead,
    /// The event at the cursor cannot select a variant of an enum.
    Unsupported,
    /// More events had to be buffered than the configured bound, which is the
    /// payload, allows.
    TooManyEvents(usize),
}

/// The mathematical content of a [`DeError`].
pub enum DeErrorView {
    InvalidXml(ErrorView),
    InvalidInt,
    InvalidBoolean(Seq<char>),
    UnexpectedStart(Seq<u8>),
    UnexpectedEnd(Seq<u8>),
    UnexpectedEof,
    ExpectedStart,
    KeyNotRead,
    Unsupported,
    TooManyEvents(usize),
}

impl View for DeError {
    type V = DeErrorView;

    open spec fn view(&self) -> DeErrorView {
        match self {
            DeError::InvalidXml(e) => DeErrorView::InvalidXml(e@),
            DeError::InvalidInt => DeErrorView::InvalidInt,
            DeError::InvalidBoolean(s) => DeErrorView::InvalidBoolean(s@),
            DeError::UnexpectedStart(n) => DeErrorView::UnexpectedStart(n@),
            DeError::UnexpectedEnd(n) => DeErrorView::UnexpectedEnd(n@),
            DeError::UnexpectedEof => DeErrorView::UnexpectedEof,
            DeError::ExpectedStart => DeErrorView::ExpectedStart,
            DeError::KeyNotRead => DeErrorView::KeyNotRead,
            DeError::Unsupported => DeErrorView::Unsupported,
            DeError::TooManyEvents(n) => DeErrorView::TooManyEvents(*n),
        }
    }
}

} // verus!
