//! Structs and maps: the fields of an element, from its attributes, from
//! its child elements and from its text.
use crate::attributes::{attribute_at, next_attribute};
use crate::bytes::{bytes_eq, to_vec};
use crate::de::model::{Cursor, EventView};
use crate::de::seq::{filtered, Filter, TagFilter};
use crate::de::{DeEvent, Deserializer, XmlRead};
use crate::errors::{DeError, DeErrorView, Error, ErrorView};
use crate::events::{BytesStart, Tag};
use vstd::prelude::*;
use vstd::slice::slice_subrange;
use vstd::string::StringSliceAdditionalSpecFns;

verus! {

/// The name of the field that takes the content of an element: its text,
/// or the child elements that are named like no field.
pub const INNER_VALUE: &'static str = "$value";

/// Where the value of the field comes from whose key was read last.
#[derive(Clone, Copy, Debug, PartialEq, Eq, Structural)]
pub enum ValueSource {
    /// No key was read, or its value was taken.
    Unknown,
    /// The attribute value that stands in `[start, end)` of the text after
    /// the name of the start tag.
    Attribute { start: usize, end: usize },
    /// The text or character data at the cursor.
    Text,
    /// The child element at the cursor, which is named like no field.
    Content,
    /// The child element at the cursor, which is named like the key.
    Nested,
}

/// The key of a field.
#[derive(Debug, PartialEq, Eq)]
pub enum MapKey {
    /// The name of an attribute.
    Attribute(Vec<u8>),
    /// The name of the field that takes the content of the element.
    Value,
    /// The name of a child element.
    Element(Vec<u8>),
}

/// The mathematical content of a [`MapKey`].
pub enum Key {
    Attribute(Seq<u8>),
    Value,
    Element(Seq<u8>),
}

impl View for MapKey {
    type V = Key;

    open spec fn view(&self) -> Key {
        match self {
            MapKey::Attribute(n) => Key::Attribute(n@),
            MapKey::Value => Key::Value,
            MapKey::Element(n) => Key::Element(n@),
        }
    }
}

/// The value of a field, or where to read it.
#[derive(Debug, PartialEq, Eq)]
pub enum MapValue<'a> {
    /// The value of an attribute, with its references still escaped.
    Attribute(&'a [u8]),
    /// The text or character data at the cursor; a start tag there would be
    /// an error.
    Text,
    /// The child element at the cursor, read as a value of its own; a start
    /// tag inside a scalar would be an error.
    Content,
    /// The child element at the cursor; a scalar stands one level down,
    /// inside the element.
    Nested,
}

/// The mathematical content of a [`MapValue`].
pub enum Value {
    Attribute(Seq<u8>),
    Text,
    Content,
    Nested,
}

impl<'a> View for MapValue<'a> {
    type V = Value;

    open spec fn view(&self) -> Value {
        match self {
            MapValue::Attribute(v) => Value::Attribute(v@),
            MapValue::Text => Value::Text,
            MapValue::Content => Value::Content,
            MapValue::Nested => Value::Nested,
        }
    }
}

/// The state of the reader of a struct's fields.
pub struct Fields {
    /// The start tag of the element that holds the struct.
    pub tag: Tag,
    /// How much of the attributes is read.
    pub pos: int,
    /// Where the value comes from whose key was read last.
    pub source: ValueSource,
    /// The names of the struct's fields.
    pub names: Seq<Seq<u8>>,
    /// Whether one of the fields takes the content of the element.
    pub takes_content: bool,
}

/// The names of `fields`, as bytes.
pub open spec fn names_of(fields: &[&str]) -> Seq<Seq<u8>> {
    Seq::new(fields@.len(), |i: int| fields@[i].spec_bytes())
}

/// Whether one of the fields `names` is the one that takes the content of
/// an element.
pub open spec fn has_value_field(names: Seq<Seq<u8>>) -> bool {
    exists|i: int| 0 <= i < names.len() && #[trigger] names[i] == INNER_VALUE.spec_bytes()
}

impl Fields {
    /// Whether no field is named `name`.
    pub open spec fn not_in(self, name: Seq<u8>) -> bool {
        forall|i: int| 0 <= i < self.names.len() ==> self.names[i] != name
    }

    /// Reads the key of the next field.
    ///
    /// The attributes come first, in their order.  After them the event at
    /// the cursor decides, and is not pulled: text or character data is the
    /// content of the element; a child element is a field of its name, or
    /// content where the struct takes content and has no field of that
    /// name; the end tag of the element ends the fields.  Any other end tag
    /// and the end of the input are errors.
    pub open spec fn next_key(self, c: Cursor) -> (Result<Option<Key>, DeErrorView>, Fields, Cursor) {
        match attribute_at(self.tag.attributes, self.pos) {
            Err(e) => (Err(DeErrorView::InvalidXml(ErrorView::InvalidAttr(e))), self, c),
            Ok(Some(a)) => (
                Ok(
                    Some(
                        Key::Attribute(
                            self.tag.attributes.subrange(a.key_start as int, a.key_end as int),
                        ),
                    ),
                ),
                Fields {
                    pos: a.next as int,
                    source: ValueSource::Attribute { start: a.value_start, end: a.value_end },
                    ..self
                },
                c,
            ),
            Ok(None) => {
                let f = c.filled();
                match c.head() {
                    Err(e) => (Err(e), self, f),
                    Ok(EventView::Text(_)) => (
                        Ok(Some(Key::Value)),
                        Fields { source: ValueSource::Text, ..self },
                        f,
                    ),
                    Ok(EventView::CData(_)) => (
                        Ok(Some(Key::Value)),
                        Fields { source: ValueSource::Text, ..self },
                        f,
                    ),
                    Ok(EventView::Start(tag)) => if self.takes_content && self.not_in(tag.name) {
                        (Ok(Some(Key::Value)), Fields { source: ValueSource::Content, ..self }, f)
                    } else {
                        (
                            Ok(Some(Key::Element(tag.name))),
                            Fields { source: ValueSource::Nested, ..self },
                            f,
                        )
                    },
                    Ok(EventView::End(name)) => if name == self.tag.name {
                        (Ok(None), self, f)
                    } else {
                        (Err(DeErrorView::UnexpectedEnd(name)), self, f)
                    },
                    Ok(EventView::Eof) => (Err(DeErrorView::UnexpectedEof), self, f),
                }
            },
        }
    }

    /// Takes the value of the field whose key was read last, or the place
    /// to read it from.  To ask twice, or before a key, is an error.
    pub open spec fn next_value(self) -> (Result<Value, DeErrorView>, Fields) {
        let taken = Fields { source: ValueSource::Unknown, ..self };
        match self.source {
            ValueSource::Unknown => (Err(DeErrorView::KeyNotRead), taken),
            ValueSource::Attribute { start, end } => (
                Ok(Value::Attribute(self.tag.attributes.subrange(start as int, end as int))),
                taken,
            ),
            ValueSource::Text => (Ok(Value::Text), taken),
            ValueSource::Content => (Ok(Value::Content), taken),
            ValueSource::Nested => (Ok(Value::Nested), taken),
        }
    }

    /// The filter of a sequence that is the value of a field.  Where the
    /// field is a child element, the items are the elements of its name;
    /// where it is the content, the items are the elements that are named
    /// like no field.
    pub open spec fn seq_filter(self, c: Cursor, nested: bool) -> (
        Result<Filter, DeErrorView>,
        Cursor,
    ) {
        if nested {
            match c.head() {
                Err(e) => (Err(e), c.filled()),
                Ok(EventView::Start(tag)) => (Ok(Filter::Include(tag.name)), c.filled()),
                Ok(_) => (Ok(Filter::Exclude(self.names)), c.filled()),
            }
        } else {
            (Ok(Filter::Exclude(self.names)), c)
        }
    }
}

/// The reader of a struct's fields.
pub struct MapAccess<'de> {
    start: BytesStart<'de>,
    pos: usize,
    source: ValueSource,
    fields: &'static [&'static str],
    has_value_field: bool,
}

impl<'de> View for MapAccess<'de> {
    type V = Fields;

    closed spec fn view(&self) -> Fields {
        Fields {
            tag: self.start@,
            pos: self.pos as int,
            source: self.source,
            names: names_of(self.fields),
            takes_content: self.has_value_field,
        }
    }
}

/// The mathematical content of the result of reading a key.
pub open spec fn keyed(r: Result<Option<MapKey>, DeError>) -> Result<Option<Key>, DeErrorView> {
    match r {
        Ok(Some(k)) => Ok(Some(k@)),
        Ok(None) => Ok(None),
        Err(e) => Err(e@),
    }
}

/// The mathematical content of the result of taking a value.
pub open spec fn valued<'a>(r: Result<MapValue<'a>, DeError>) -> Result<Value, DeErrorView> {
    match r {
        Ok(v) => Ok(v@),
        Err(e) => Err(e@),
    }
}

/// Tests whether a name is among the names of fields.
fn contains(fields: &[&str], name: &[u8]) -> (r: bool)
    ensures
        r == exists|i: int| 0 <= i < fields@.len() && #[trigger] names_of(fields)[i] == name@,
{
    let mut i: usize = 0;
    while i < fields.len()
        invariant
            i <= fields@.len(),
            forall|j: int| 0 <= j < i ==> #[trigger] names_of(fields)[j] != name@,
        decreases fields@.len() - i,
    {
        if bytes_eq(fields[i].as_bytes(), name) {
            assert(names_of(fields)[i as int] == name@);
            return true;
        }
        i += 1;
    }
    false
}

impl<'de> MapAccess<'de> {
    #[verifier::type_invariant]
    spec fn type_inv(self) -> bool {
        &&& self.pos <= self.start@.attributes.len()
        &&& match self.source {
            ValueSource::Attribute { start, end } => start <= end <= self.start@.attributes.len(),
            _ => true,
        }
    }

    /// A reader of the fields `fields` of the struct that the element with
    /// the start tag `start` holds.
    pub fn new(start: BytesStart<'de>, fields: &'static [&'static str]) -> (r: Self)
        ensures
            r@ == (Fields {
                tag: start@,
                pos: 0,
                source: ValueSource::Unknown,
                names: names_of(fields),
                takes_content: has_value_field(names_of(fields)),
            }),
    {
        let has_value_field = contains(fields, INNER_VALUE.as_bytes());
        MapAccess { start, pos: 0, source: ValueSource::Unknown, fields, has_value_field }
    }

    /// Moves on in the attributes and notes where the next value comes from.
    fn set(&mut self, pos: usize, source: ValueSource)
        requires
            pos <= old(self)@.tag.attributes.len(),
            match source {
                ValueSource::Attribute { start, end } => start <= end
                    <= old(self)@.tag.attributes.len(),
                _ => true,
            },
        ensures
            final(self)@ == (Fields { pos: pos as int, source, ..old(self)@ }),
    {
        proof {
            use_type_invariant(&*self);
        }
        self.pos = pos;
        self.source = source;
    }

    /// The start tag of the element that holds the struct.
    pub fn start(&self) -> (r: &BytesStart<'de>)
        ensures
            r@ == self@.tag,
    {
        &self.start
    }

    /// Reads the key of the next field, or `None` after the last field.
    pub fn next_key<R: XmlRead<'de>>(&mut self, de: &mut Deserializer<'de, R>) -> (r: Result<
        Option<MapKey>,
        DeError,
    >)
        requires
            old(de).inv(),
        ensures
            final(de).inv(),
            keyed(r) == old(self)@.next_key(old(de)@).0,
            final(self)@ == old(self)@.next_key(old(de)@).1,
            final(de)@ == old(self)@.next_key(old(de)@).2,
    {
        proof {
            use_type_invariant(&*self);
        }
        let pos = self.pos;
        let attribute = match next_attribute(self.start.attributes_raw(), pos) {
            Err(e) => return Err(DeError::InvalidXml(Error::InvalidAttr(e))),
            Ok(Some(a)) => Some(
                (a, to_vec(slice_subrange(self.start.attributes_raw(), a.key_start, a.key_end))),
            ),
            Ok(None) => None,
        };
        match attribute {
            Some((a, key)) => {
                self.set(a.next, ValueSource::Attribute { start: a.value_start, end: a.value_end });
                Ok(Some(MapKey::Attribute(key)))
            },
            None => {
                let has_value_field = self.has_value_field;
                let (key, source) = match de.peek()? {
                    DeEvent::Text(_) => (MapKey::Value, ValueSource::Text),
                    DeEvent::CData(_) => (MapKey::Value, ValueSource::Text),
                    DeEvent::Start(e) => {
                        let name = e.name().into_inner();
                        if has_value_field && !contains(self.fields, name) {
                            (MapKey::Value, ValueSource::Content)
                        } else {
                            (MapKey::Element(to_vec(name)), ValueSource::Nested)
                        }
                    },
                    DeEvent::End(e) => {
                        if bytes_eq(e.name().into_inner(), self.start.name().into_inner()) {
                            return Ok(None);
                        }
                        return Err(DeError::UnexpectedEnd(to_vec(e.name().into_inner())));
                    },
                    DeEvent::Eof => return Err(DeError::UnexpectedEof),
                };
                self.set(pos, source);
                Ok(Some(key))
            },
        }
    }

    /// Takes the value of the field whose key was read last, or the place
    /// to read it from.
    pub fn next_value(&mut self) -> (r: Result<MapValue<'_>, DeError>)
        ensures
            valued(r) == old(self)@.next_value().0,
            final(self)@ == old(self)@.next_value().1,
    {
        proof {
            use_type_invariant(&*self);
        }
        let source = self.source;
        self.source = ValueSource::Unknown;
        match source {
            ValueSource::Unknown => Err(DeError::KeyNotRead),
            ValueSource::Attribute { start, end } => Ok(
                MapValue::Attribute(slice_subrange(self.start.attributes_raw(), start, end)),
            ),
            ValueSource::Text => Ok(MapValue::Text),
            ValueSource::Content => Ok(MapValue::Content),
            ValueSource::Nested => Ok(MapValue::Nested),
        }
    }

    /// Starts a sequence that is the value of a field, and gives the filter
    /// that tells its items.  With `nested` the field is the child element
    /// at the cursor.  No event is pulled.
    pub fn seq_filter<R: XmlRead<'de>>(&self, de: &mut Deserializer<'de, R>, nested: bool) -> (r:
        Result<TagFilter, DeError>)
        requires
            old(de).inv(),
        ensures
            final(de).inv(),
            filtered(r) == self@.seq_filter(old(de)@, nested).0,
            final(de)@ == self@.seq_filter(old(de)@, nested).1,
    {
        if nested {
            if let DeEvent::Start(e) = de.peek()? {
                return Ok(TagFilter::Include(to_vec(e.name().into_inner())));
            }
        }
        Ok(TagFilter::Exclude(self.fields))
    }
}

} // verus!
