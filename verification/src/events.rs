//! The payloads of markup events, and the events that a tokenizer yields.
use crate::bytes::{cow_bytes, cow_clone, cow_into_owned};
use crate::name::QName;
use std::borrow::Cow;
use vstd::prelude::*;
use vstd::slice::slice_subrange;
use vstd::string::StringSliceAdditionalSpecFns;

verus! {

/// What a start tag holds: the element's name and the raw text that follows
/// the name inside the tag (the attributes, with the white space around them).
pub struct Tag {
    pub name: Seq<u8>,
    pub attributes: Seq<u8>,
}

/// The content of a start tag: the name, then the attributes.
#[derive(Debug, PartialEq, Eq)]
pub struct BytesStart<'a> {
    buf: Cow<'a, [u8]>,
    name_len: usize,
}

impl<'a> View for BytesStart<'a> {
    type V = Tag;

    closed spec fn view(&self) -> Tag {
        Tag {
            name: self.buf@.take(self.name_len as int),
            attributes: self.buf@.skip(self.name_len as int),
        }
    }
}

impl<'a> BytesStart<'a> {
    #[verifier::type_invariant]
    spec fn type_inv(self) -> bool {
        self.name_len <= self.buf@.len()
    }

    /// Whether the tag borrows its bytes, rather than owning a copy.
    pub closed spec fn is_borrowed(&self) -> bool {
        self.buf is Borrowed
    }

    /// A start tag over `content`, whose first `name_len` bytes are the name.
    pub fn borrowed(content: &'a [u8], name_len: usize) -> (r: Self)
        requires
            name_len <= content@.len(),
        ensures
            r@.name == content@.take(name_len as int),
            r@.attributes == content@.skip(name_len as int),
            r.is_borrowed(),
    {
        BytesStart { buf: Cow::Borrowed(content), name_len }
    }

    /// A start tag that holds a name and no attributes.
    pub fn borrowed_name(name: &'a [u8]) -> (r: Self)
        ensures
            r@.name == name@,
            r@.attributes == Seq::<u8>::empty(),
            r.is_borrowed(),
    {
        let r = BytesStart { buf: Cow::Borrowed(name), name_len: name.len() };
        assert(name@.take(name@.len() as int) =~= name@);
        assert(name@.skip(name@.len() as int) =~= Seq::<u8>::empty());
        r
    }

    /// A start tag that owns `content`, whose first `name_len` bytes are the
    /// name.
    pub fn owned(content: Vec<u8>, name_len: usize) -> (r: BytesStart<'static>)
        requires
            name_len <= content@.len(),
        ensures
            r@.name == content@.take(name_len as int),
            r@.attributes == content@.skip(name_len as int),
            !r.is_borrowed(),
    {
        BytesStart { buf: Cow::Owned(content), name_len }
    }

    /// The element's name.
    pub fn name(&self) -> (r: QName<'_>)
        ensures
            r@ == self@.name,
    {
        proof {
            use_type_invariant(self);
        }
        QName(slice_subrange(cow_bytes(&self.buf), 0, self.name_len))
    }

    /// The raw text after the name: the attributes as they stand in the tag.
    pub fn attributes_raw(&self) -> (r: &[u8])
        ensures
            r@ == self@.attributes,
    {
        proof {
            use_type_invariant(self);
        }
        let all = cow_bytes(&self.buf);
        slice_subrange(all, self.name_len, all.len())
    }

    /// The same tag, owning its bytes.
    pub fn into_owned(self) -> (r: BytesStart<'static>)
        ensures
            r@ == self@,
            !r.is_borrowed(),
    {
        proof {
            use_type_invariant(&self);
        }
        BytesStart { buf: cow_into_owned(self.buf), name_len: self.name_len }
    }
}

impl<'a> Clone for BytesStart<'a> {
    fn clone(&self) -> (r: Self)
        ensures
            r@ == self@,
    {
        proof {
            use_type_invariant(self);
        }
        BytesStart { buf: cow_clone(&self.buf), name_len: self.name_len }
    }
}

/// The content of an end tag: the element's name.
#[derive(Debug, PartialEq, Eq)]
pub struct BytesEnd<'a> {
    name: Cow<'a, [u8]>,
}

impl<'a> View for BytesEnd<'a> {
    type V = Seq<u8>;

    closed spec fn view(&self) -> Seq<u8> {
        self.name@
    }
}

impl<'a> BytesEnd<'a> {
    /// Whether the tag borrows its bytes, rather than owning a copy.
    pub closed spec fn is_borrowed(&self) -> bool {
        self.name is Borrowed
    }

    /// An end tag for the element `name`.
    pub fn borrowed(name: &'a [u8]) -> (r: Self)
        ensures
            r@ == name@,
            r.is_borrowed(),
    {
        BytesEnd { name: Cow::Borrowed(name) }
    }

    /// An end tag that owns the element's name.
    pub fn owned(name: Vec<u8>) -> (r: BytesEnd<'static>)
        ensures
            r@ == name@,
            !r.is_borrowed(),
    {
        BytesEnd { name: Cow::Owned(name) }
    }

    /// The element's name.
    pub fn name(&self) -> (r: QName<'_>)
        ensures
            r@ == self@,
    {
        QName(cow_bytes(&self.name))
    }

    /// The same tag, owning its bytes.
    pub fn into_owned(self) -> (r: BytesEnd<'static>)
        ensures
            r@ == self@,
            !r.is_borrowed(),
    {
        BytesEnd { name: cow_into_owned(self.name) }
    }
}

impl<'a> Clone for BytesEnd<'a> {
    fn clone(&self) -> (r: Self)
        ensures
            r@ == self@,
    {
        BytesEnd { name: cow_clone(&self.name) }
    }
}

/// Character data between tags, with its entities still escaped.
#[derive(Debug, PartialEq, Eq)]
pub struct BytesText<'a> {
    content: Cow<'a, [u8]>,
}

impl<'a> View for BytesText<'a> {
    type V = Seq<u8>;

    closed spec fn view(&self) -> Seq<u8> {
        self.content@
    }
}

impl<'a> BytesText<'a> {
    /// Whether the text borrows its bytes, rather than owning a copy.
    pub closed spec fn is_borrowed(&self) -> bool {
        self.content is Borrowed
    }

    /// Text that holds the escaped bytes `content`.
    pub fn from_escaped(content: &'a [u8]) -> (r: Self)
        ensures
            r@ == content@,
            r.is_borrowed(),
    {
        BytesText { content: Cow::Borrowed(content) }
    }

    /// Text that holds the bytes of the escaped string `content`.
    pub fn from_escaped_str(content: &'a str) -> (r: Self)
        ensures
            r@ == content.spec_bytes(),
            r.is_borrowed(),
    {
        BytesText { content: Cow::Borrowed(content.as_bytes()) }
    }

    /// Text that owns the escaped bytes `content`.
    pub fn owned(content: Vec<u8>) -> (r: BytesText<'static>)
        ensures
            r@ == content@,
            !r.is_borrowed(),
    {
        BytesText { content: Cow::Owned(content) }
    }

    /// The escaped bytes.
    pub fn escaped(&self) -> (r: &[u8])
        ensures
            r@ == self@,
    {
        cow_bytes(&self.content)
    }

    /// Whether the text holds no byte.
    pub fn is_empty(&self) -> (r: bool)
        ensures
            r == (self@.len() == 0),
    {
        cow_bytes(&self.content).len() == 0
    }

    /// Gives up the bytes.
    pub fn into_inner(self) -> (r: Cow<'a, [u8]>)
        ensures
            r@ == self@,
            r is Borrowed == self.is_borrowed(),
    {
        self.content
    }

    /// The same text, owning its bytes.
    pub fn into_owned(self) -> (r: BytesText<'static>)
        ensures
            r@ == self@,
            !r.is_borrowed(),
    {
        BytesText { content: cow_into_owned(self.content) }
    }
}

impl<'a> Clone for BytesText<'a> {
    fn clone(&self) -> (r: Self)
        ensures
            r@ == self@,
    {
        BytesText { content: cow_clone(&self.content) }
    }
}

/// The content of a character data section, which holds no escapes.
#[derive(Debug, PartialEq, Eq)]
pub struct BytesCData<'a> {
    content: Cow<'a, [u8]>,
}

impl<'a> View for BytesCData<'a> {
    type V = Seq<u8>;

    closed spec fn view(&self) -> Seq<u8> {
        self.content@
    }
}

impl<'a> BytesCData<'a> {
    /// Whether the section borrows its bytes, rather than owning a copy.
    pub closed spec fn is_borrowed(&self) -> bool {
        self.content is Borrowed
    }

    /// Character data that holds `content`.
    pub fn new(content: Cow<'a, [u8]>) -> (r: Self)
        ensures
            r@ == content@,
            r.is_borrowed() == content is Borrowed,
    {
        BytesCData { content }
    }

    /// Character data that holds the bytes of `content`.
    pub fn from_str(content: &'a str) -> (r: Self)
        ensures
            r@ == content.spec_bytes(),
            r.is_borrowed(),
    {
        BytesCData { content: Cow::Borrowed(content.as_bytes()) }
    }

    /// Character data without content.
    pub fn empty() -> (r: BytesCData<'static>)
        ensures
            r@ == Seq::<u8>::empty(),
            !r.is_borrowed(),
    {
        BytesCData { content: Cow::Owned(Vec::new()) }
    }

    /// The bytes of the section.
    pub fn as_bytes(&self) -> (r: &[u8])
        ensures
            r@ == self@,
    {
        cow_bytes(&self.content)
    }

    /// Whether the section holds no byte.
    pub fn is_empty(&self) -> (r: bool)
        ensures
            r == (self@.len() == 0),
    {
        cow_bytes(&self.content).len() == 0
    }

    /// Gives up the bytes.
    pub fn into_inner(self) -> (r: Cow<'a, [u8]>)
        ensures
            r@ == self@,
            r is Borrowed == self.is_borrowed(),
    {
        self.content
    }

    /// The same section, owning its bytes.
    pub fn into_owned(self) -> (r: BytesCData<'static>)
        ensures
            r@ == self@,
            !r.is_borrowed(),
    {
        BytesCData { content: cow_into_owned(self.content) }
    }
}

impl<'a> Clone for BytesCData<'a> {
    fn clone(&self) -> (r: Self)
        ensures
            r@ == self@,
    {
        BytesCData { content: cow_clone(&self.content) }
    }
}

/// An event as the tokenizer yields it.
#[derive(Debug, PartialEq, Eq)]
pub enum Event<'a> {
    /// A start tag, with its attributes.
    Start(BytesStart<'a>),
    /// An end tag.
    End(BytesEnd<'a>),
    /// An empty-element tag, with its attributes.
    Empty(BytesStart<'a>),
    /// Escaped character data between tags.
    Text(BytesText<'a>),
    /// The content of a comment.
    Comment(BytesText<'a>),
    /// The content of a character data section.
    CData(BytesCData<'a>),
    /// The content of a processing instruction or of a declaration.
    PI(BytesText<'a>),
    /// The content of a document type declaration.
    DocType(BytesText<'a>),
    /// The end of the input.
    Eof,
}

/// The mathematical content of an [`Event`].
pub enum Markup {
    Start(Tag),
    End(Seq<u8>),
    Empty(Tag),
    Text(Seq<u8>),
    Comment(Seq<u8>),
    CData(Seq<u8>),
    PI(Seq<u8>),
    DocType(Seq<u8>),
    Eof,
}

impl<'a> Event<'a> {
    /// Whether the event borrows what it holds, rather than owning a copy.
    pub open spec fn is_borrowed(&self) -> bool {
        match self {
            Event::Start(e) => e.is_borrowed(),
            Event::End(e) => e.is_borrowed(),
            Event::Empty(e) => e.is_borrowed(),
            Event::Text(e) => e.is_borrowed(),
            Event::Comment(e) => e.is_borrowed(),
            Event::CData(e) => e.is_borrowed(),
            Event::PI(e) => e.is_borrowed(),
            Event::DocType(e) => e.is_borrowed(),
            Event::Eof => true,
        }
    }
}

impl<'a> View for Event<'a> {
    type V = Markup;

    open spec fn view(&self) -> Markup {
        match self {
            Event::Start(e) => Markup::Start(e@),
            Event::End(e) => Markup::End(e@),
            Event::Empty(e) => Markup::Empty(e@),
            Event::Text(e) => Markup::Text(e@),
            Event::Comment(e) => Markup::Comment(e@),
            Event::CData(e) => Markup::CData(e@),
            Event::PI(e) => Markup::PI(e@),
            Event::DocType(e) => Markup::DocType(e@),
            Event::Eof => Markup::Eof,
        }
    }
}

} // verus!
