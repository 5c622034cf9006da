//! Values that are told by the event at the cursor: units, options, the
//! element of a struct, and the choice among them.
use crate::bytes::to_vec;
use crate::de::model::{Cursor, EventView};
use crate::de::{done, plain, DeEvent, Deserializer, XmlRead};
use crate::errors::{DeError, DeErrorView};
use crate::events::{BytesStart, Tag};
use vstd::prelude::*;

verus! {

/// The shape of the value that starts with the event at the cursor.
#[derive(Clone, Copy, Debug, PartialEq, Eq, Structural)]
pub enum Shape {
    /// An element: a struct or a map.
    Element,
    /// Text or character data: a string.
    Text,
    /// An end tag or the end of the input: no value stands here, and to read
    /// one as a unit reports which of the two was met.
    Unit,
}

/// Whether `e` stands for an absent value: the end of the input, or text or
/// character data without content.
pub open spec fn is_absent(e: EventView) -> bool {
    match e {
        EventView::Eof => true,
        EventView::Text(t) => t.len() == 0,
        EventView::CData(t) => t.len() == 0,
        _ => false,
    }
}

/// The shape of the value that starts with `e`.
pub open spec fn shape_of(e: EventView) -> Shape {
    match e {
        EventView::Start(_) => Shape::Element,
        EventView::End(_) => Shape::Unit,
        EventView::Eof => Shape::Unit,
        _ => Shape::Text,
    }
}

/// The mathematical content of the result of opening a struct.
pub open spec fn opened<'a>(r: Result<BytesStart<'a>, DeError>) -> Result<Tag, DeErrorView> {
    match r {
        Ok(e) => Ok(e@),
        Err(e) => Err(e@),
    }
}

impl Cursor {
    /// Pulls one whole value and drops it: an element with all that is in
    /// it, or one text or character data event.  An end tag and the end of
    /// the input are no value.
    pub open spec fn unit(self) -> (Result<(), DeErrorView>, Cursor) {
        let c = self.advance();
        match self.head() {
            Err(e) => (Err(e), c),
            Ok(EventView::Start(tag)) => c.read_to_end(tag.name),
            Ok(EventView::End(name)) => (Err(DeErrorView::UnexpectedEnd(name)), c),
            Ok(EventView::Eof) => (Err(DeErrorView::UnexpectedEof), c),
            Ok(_) => (Ok(()), c),
        }
    }

    /// Pulls events up to the start tag of the element that holds a struct.
    pub open spec fn open_struct(self) -> (Result<Tag, DeErrorView>, Cursor) {
        let (r, c) = self.next_start();
        match r {
            Ok(Some(tag)) => (Ok(tag), c),
            Ok(None) => (Err(DeErrorView::ExpectedStart), c),
            Err(e) => (Err(e), c),
        }
    }

    /// Whether a value is present at the cursor.
    pub open spec fn present(self) -> Result<bool, DeErrorView> {
        match self.head() {
            Ok(e) => Ok(!is_absent(e)),
            Err(e) => Err(e),
        }
    }

    /// The shape of the value at the cursor.
    pub open spec fn shape(self) -> Result<Shape, DeErrorView> {
        match self.head() {
            Ok(e) => Ok(shape_of(e)),
            Err(e) => Err(e),
        }
    }
}

impl<'de, R: XmlRead<'de>> Deserializer<'de, R> {
    /// Reads a unit: pulls one whole value and drops what it holds.
    pub fn deserialize_unit(&mut self) -> (r: Result<(), DeError>)
        requires
            old(self).inv(),
        ensures
            final(self).inv(),
            done(r) == old(self)@.unit().0,
            final(self)@ == old(self)@.unit().1,
    {
        match self.next()? {
            DeEvent::Start(s) => self.read_to_end(s.name()),
            DeEvent::Text(_) => Ok(()),
            DeEvent::CData(_) => Ok(()),
            DeEvent::End(e) => Err(DeError::UnexpectedEnd(to_vec(e.name().into_inner()))),
            DeEvent::Eof => Err(DeError::UnexpectedEof),
        }
    }

    /// Passes over a value that nobody asked for, as a unit is read.
    pub fn deserialize_ignored_any(&mut self) -> (r: Result<(), DeError>)
        requires
            old(self).inv(),
        ensures
            final(self).inv(),
            done(r) == old(self)@.unit().0,
            final(self)@ == old(self)@.unit().1,
    {
        self.deserialize_unit()
    }

    /// Opens a struct: pulls events up to the start tag of the element that
    /// holds it, passing over text, and gives the tag.  When the fields are
    /// read, `read_to_end` with the tag's name closes the struct.
    pub fn deserialize_struct(&mut self) -> (r: Result<BytesStart<'de>, DeError>)
        requires
            old(self).inv(),
        ensures
            final(self).inv(),
            opened(r) == old(self)@.open_struct().0,
            final(self)@ == old(self)@.open_struct().1,
    {
        match self.next_start()? {
            Some(e) => Ok(e),
            None => Err(DeError::ExpectedStart),
        }
    }

    /// Opens a map, as a struct is opened.
    pub fn deserialize_map(&mut self) -> (r: Result<BytesStart<'de>, DeError>)
        requires
            old(self).inv(),
        ensures
            final(self).inv(),
            opened(r) == old(self)@.open_struct().0,
            final(self)@ == old(self)@.open_struct().1,
    {
        self.deserialize_struct()
    }

    /// Tells whether an optional value is present.  The end of the input and
    /// text or character data without content stand for an absent value;
    /// any other event starts a value.  No event is pulled.
    pub fn deserialize_option(&mut self) -> (r: Result<bool, DeError>)
        requires
            old(self).inv(),
        ensures
            final(self).inv(),
            plain(r) == old(self)@.present(),
            final(self)@ == old(self)@.filled(),
    {
        match self.peek()? {
            DeEvent::Text(t) => Ok(!t.is_empty()),
            DeEvent::CData(t) => Ok(!t.is_empty()),
            DeEvent::Eof => Ok(false),
            _ => Ok(true),
        }
    }

    /// Tells the shape of the value at the cursor, for a caller that knows
    /// none: an element is a map, text is a string.  No event is pulled.
    pub fn deserialize_any(&mut self) -> (r: Result<Shape, DeError>)
        requires
            old(self).inv(),
        ensures
            final(self).inv(),
            plain(r) == old(self)@.shape(),
            final(self)@ == old(self)@.filled(),
    {
        match self.peek()? {
            DeEvent::Start(_) => Ok(Shape::Element),
            DeEvent::End(_) => Ok(Shape::Unit),
            DeEvent::Eof => Ok(Shape::Unit),
            _ => Ok(Shape::Text),
        }
    }
}

} // verus!
