//! The decoder: a cursor over a source of events, with one event of
//! lookahead and a buffer for events that are skipped and replayed.
pub mod laws;
pub mod map;
pub mod model;
pub mod modes;
pub mod nesting;
pub mod round_trip;
pub mod scalar;
pub mod seq;
pub mod source;
pub mod value;
pub mod var;

use crate::bytes::{bytes_eq, to_vec};
use crate::de::model::{
    drain, drain_buffer, first, rest, text_content, Cursor, EventView, Pull,
};
use crate::de::source::{discard_to_end, events, next_event};
use crate::decoder::Decoder;
use crate::errors::{DeError, DeErrorView, Error};
use crate::events::{BytesCData, BytesEnd, BytesStart, BytesText, Tag};
use crate::name::QName;
use crate::reader::{Config, Lex, Tokenizer};
use std::collections::VecDeque;
use vstd::prelude::*;
use vstd::string::StringSliceAdditionalSpecFns;

verus! {

/// An event of the markup, reduced to the kinds that decoding needs.
#[derive(Debug, PartialEq, Eq)]
pub enum DeEvent<'a> {
    /// A start tag, with its attributes.
    Start(BytesStart<'a>),
    /// An end tag.
    End(BytesEnd<'a>),
    /// Escaped character data between tags.
    Text(BytesText<'a>),
    /// Unescaped character data from a character data section.
    CData(BytesCData<'a>),
    /// The end of the input.
    Eof,
}

impl<'a> View for DeEvent<'a> {
    type V = EventView;

    open spec fn view(&self) -> EventView {
        match self {
            DeEvent::Start(e) => EventView::Start(e@),
            DeEvent::End(e) => EventView::End(e@),
            DeEvent::Text(e) => EventView::Text(e@),
            DeEvent::CData(e) => EventView::CData(e@),
            DeEvent::Eof => EventView::Eof,
        }
    }
}

impl<'a> DeEvent<'a> {
    /// Whether the event borrows what it holds, rather than owning a copy.
    pub open spec fn is_borrowed(&self) -> bool {
        match self {
            DeEvent::Start(e) => e.is_borrowed(),
            DeEvent::End(e) => e.is_borrowed(),
            DeEvent::Text(e) => e.is_borrowed(),
            DeEvent::CData(e) => e.is_borrowed(),
            DeEvent::Eof => true,
        }
    }

    /// Whether the event owns what it holds, rather than borrowing it.
    pub open spec fn is_owned(&self) -> bool {
        match self {
            DeEvent::Start(e) => !e.is_borrowed(),
            DeEvent::End(e) => !e.is_borrowed(),
            DeEvent::Text(e) => !e.is_borrowed(),
            DeEvent::CData(e) => !e.is_borrowed(),
            DeEvent::Eof => true,
        }
    }

    /// The same event, owning its bytes.
    pub fn into_owned(self) -> (r: DeEvent<'static>)
        ensures
            r@ == self@,
            r.is_owned(),
    {
        match self {
            DeEvent::Start(e) => DeEvent::Start(e.into_owned()),
            DeEvent::End(e) => DeEvent::End(e.into_owned()),
            DeEvent::Text(e) => DeEvent::Text(e.into_owned()),
            DeEvent::CData(e) => DeEvent::CData(e.into_owned()),
            DeEvent::Eof => DeEvent::Eof,
        }
    }
}

/// The mathematical content of a pull's result.
pub open spec fn pulled<'a>(r: Result<DeEvent<'a>, DeError>) -> Pull {
    match r {
        Ok(e) => Ok(e@),
        Err(e) => Err(e@),
    }
}

/// The mathematical content of a look's result.
pub open spec fn looked<'a, 'b>(r: Result<&'b DeEvent<'a>, DeError>) -> Pull {
    match r {
        Ok(e) => Ok(e@),
        Err(e) => Err(e@),
    }
}

/// The mathematical content of a result that carries no value.
pub open spec fn done(r: Result<(), DeError>) -> Result<(), DeErrorView> {
    match r {
        Ok(()) => Ok(()),
        Err(e) => Err(e@),
    }
}

/// The mathematical content of a result that carries a plain value.
pub open spec fn plain<T>(r: Result<T, DeError>) -> Result<T, DeErrorView> {
    match r {
        Ok(v) => Ok(v),
        Err(e) => Err(e@),
    }
}

/// The mathematical content of a queue of events.
pub open spec fn views<'a>(s: Seq<DeEvent<'a>>) -> Seq<EventView> {
    s.map_values(|e: DeEvent<'a>| e@)
}

/// A forward-only source of events.
///
/// A source is modelled by `pending`: the results that its pulls will yield,
/// in order, before its input ends.  After them every pull yields the end of
/// the input.  A source that says nothing of itself is modelled as one whose
/// input has ended.
pub trait XmlRead<'i>: Sized {
    /// What the source needs to hold of itself.
    open spec fn inv(&self) -> bool {
        true
    }

    /// What is still to come before the input ends.
    open spec fn pending(&self) -> Seq<Pull> {
        Seq::empty()
    }

    /// Pulls one event.  At the end of the input it yields `Eof`, again and
    /// again.
    fn next(&mut self) -> (r: Result<DeEvent<'i>, DeError>)
        requires
            old(self).inv(),
        ensures
            final(self).inv(),
            pulled(r) == first(old(self).pending()),
            final(self).pending() == rest(old(self).pending()),
    ;

    /// Discards events up to and including the end tag that closes the
    /// element `name`, whose start tag was pulled before.
    fn read_to_end(&mut self, name: QName) -> (r: Result<(), DeError>)
        requires
            old(self).inv(),
        ensures
            final(self).inv(),
            done(r) == drain(old(self).pending(), name@, 0).0,
            final(self).pending() == drain(old(self).pending(), name@, 0).1,
    ;

    /// The policy by which the bytes of this source become strings.
    fn decoder(&self) -> Decoder;
}

/// The state of a tokenizer at the start of its input.
pub open spec fn at_start() -> Lex {
    Lex { pos: 0, pending: None, opened: Seq::empty() }
}

/// A source that reads a document from a slice of bytes.  Its events borrow
/// from the slice.
pub struct SliceReader<'de> {
    input: &'de [u8],
    tokenizer: Tokenizer,
}

impl<'de> SliceReader<'de> {
    /// A source at the start of `input`.
    pub fn new(input: &'de [u8], config: Config) -> (r: Self)
        ensures
            r.inv(),
            r.pending() == events(input@, config, at_start()),
    {
        SliceReader { input, tokenizer: Tokenizer::new(config) }
    }
}

impl<'de> XmlRead<'de> for SliceReader<'de> {
    closed spec fn inv(&self) -> bool {
        self.tokenizer.wf(self.input@)
    }

    closed spec fn pending(&self) -> Seq<Pull> {
        events(self.input@, self.tokenizer.config(), self.tokenizer.lex(self.input@))
    }

    fn next(&mut self) -> (r: Result<DeEvent<'de>, DeError>)
        ensures
            r matches Ok(e) ==> e.is_borrowed(),
    {
        next_event(&mut self.tokenizer, self.input)
    }

    fn read_to_end(&mut self, name: QName) -> (r: Result<(), DeError>) {
        discard_to_end(&mut self.tokenizer, self.input, name)
    }

    fn decoder(&self) -> Decoder {
        Decoder {  }
    }
}

/// A source that owns the bytes of a document, as they were read from a
/// stream.  Each of its events is a copy that owns its bytes.
pub struct IoReader {
    input: Vec<u8>,
    tokenizer: Tokenizer,
}

impl IoReader {
    /// A source at the start of `input`.
    pub fn new(input: Vec<u8>, config: Config) -> (r: Self)
        ensures
            r.inv(),
            r.pending() == events(input@, config, at_start()),
    {
        IoReader { input, tokenizer: Tokenizer::new(config) }
    }
}

impl<'i> XmlRead<'i> for IoReader {
    closed spec fn inv(&self) -> bool {
        self.tokenizer.wf(self.input@)
    }

    closed spec fn pending(&self) -> Seq<Pull> {
        events(self.input@, self.tokenizer.config(), self.tokenizer.lex(self.input@))
    }

    fn next(&mut self) -> (r: Result<DeEvent<'i>, DeError>)
        ensures
            r matches Ok(e) ==> e.is_owned(),
    {
        match next_event(&mut self.tokenizer, self.input.as_slice()) {
            Ok(event) => Ok(event.into_owned()),
            Err(e) => Err(e),
        }
    }

    fn read_to_end(&mut self, name: QName) -> (r: Result<(), DeError>) {
        discard_to_end(&mut self.tokenizer, self.input.as_slice(), name)
    }

    fn decoder(&self) -> Decoder {
        Decoder {  }
    }
}

/// Decodes values from the events of a source.
pub struct Deserializer<'de, R: XmlRead<'de>> {
    reader: R,
    overlapped: bool,
    read: VecDeque<DeEvent<'de>>,
    write: VecDeque<DeEvent<'de>>,
    limit: Option<usize>,
}

impl<'de, R: XmlRead<'de>> View for Deserializer<'de, R> {
    type V = Cursor;

    closed spec fn view(&self) -> Cursor {
        Cursor {
            overlapped: self.overlapped,
            read: views(self.read@),
            write: views(self.write@),
            limit: self.limit,
            source: self.reader.pending(),
        }
    }
}

impl<'de, R: XmlRead<'de>> Deserializer<'de, R> {
    /// The decoder's invariant: the source's own, and the shape of the cursor.
    pub closed spec fn inv(&self) -> bool {
        &&& self.reader.inv()
        &&& self@.wf()
    }

    /// A decoder over `reader` that tolerates lists which overlap with other
    /// elements, with no bound on what it buffers.
    pub fn new(reader: R) -> (r: Self)
        requires
            reader.inv(),
        ensures
            r.inv(),
            r@ == (Cursor {
                overlapped: true,
                read: Seq::empty(),
                write: Seq::empty(),
                limit: None,
                source: reader.pending(),
            }),
    {
        let r = Deserializer {
            reader,
            overlapped: true,
            read: VecDeque::new(),
            write: VecDeque::new(),
            limit: None,
        };
        assert(views(r.read@) =~= Seq::empty());
        assert(views(r.write@) =~= Seq::empty());
        r
    }

    /// Pulls the next event: the one that was looked at or is being
    /// replayed, else one from the source.
    pub fn next(&mut self) -> (r: Result<DeEvent<'de>, DeError>)
        requires
            old(self).inv(),
        ensures
            final(self).inv(),
            pulled(r) == old(self)@.head(),
            final(self)@ == old(self)@.advance(),
    {
        if let Some(event) = self.read.pop_front() {
            assert(views(self.read@) =~= views(old(self).read@).skip(1));
            return Ok(event);
        }
        self.reader.next()
    }

    /// A decoder over `reader`, as `new` makes it.
    pub fn from_borrowing_reader(reader: R) -> (r: Self)
        requires
            reader.inv(),
        ensures
            r.inv(),
            r@ == (Cursor {
                overlapped: true,
                read: Seq::empty(),
                write: Seq::empty(),
                limit: None,
                source: reader.pending(),
            }),
    {
        Self::new(reader)
    }

    /// A decoder over `reader`.  With `overlapped` it tolerates lists that
    /// overlap with other elements, by skipping and replaying events; without
    /// it the decoder holds one event of lookahead and never skips.
    pub fn with_overlapped_lists(reader: R, overlapped: bool) -> (r: Self)
        requires
            reader.inv(),
        ensures
            r.inv(),
            r@ == (Cursor {
                overlapped,
                read: Seq::empty(),
                write: Seq::empty(),
                limit: None,
                source: reader.pending(),
            }),
    {
        let r = Deserializer {
            reader,
            overlapped,
            read: VecDeque::new(),
            write: VecDeque::new(),
            limit: None,
        };
        assert(views(r.read@) =~= Seq::empty());
        assert(views(r.write@) =~= Seq::empty());
        r
    }

    /// Sets the most events that may be buffered while a list is scanned for
    /// its next item; `None` sets no bound.  Once the buffer holds that many,
    /// the next event to be skipped fails with `TooManyEvents`.
    pub fn event_buffer_size(&mut self, limit: Option<usize>) -> (r: &mut Self)
        requires
            old(self).inv(),
        ensures
            r.inv(),
            r@ == (Cursor { limit, ..old(self)@ }),
            *final(self) == *final(r),
    {
        self.limit = limit;
        self
    }

    /// Whether the decoder tolerates lists that overlap with other elements.
    pub fn is_overlapped(&self) -> (r: bool)
        ensures
            r == self@.overlapped,
    {
        self.overlapped
    }

    /// The events that the next pulls return before the source is asked.
    pub fn read_buffer(&self) -> (r: &VecDeque<DeEvent<'de>>)
        ensures
            views(r@) == self@.read,
    {
        &self.read
    }

    /// The events skipped since the last replay started.
    pub fn write_buffer(&self) -> (r: &VecDeque<DeEvent<'de>>)
        ensures
            views(r@) == self@.write,
    {
        &self.write
    }

    /// Looks at the next event without pulling it.  Where no event is held,
    /// one is pulled from the source and held for the next look or pull.
    pub fn peek(&mut self) -> (r: Result<&DeEvent<'de>, DeError>)
        requires
            old(self).inv(),
        ensures
            final(self).inv(),
            looked(r) == old(self)@.head(),
            final(self)@ == old(self)@.filled(),
    {
        if self.read.len() == 0 {
            let event = self.reader.next()?;
            self.read.push_front(event);
            assert(views(self.read@) =~= seq![event@]);
        }
        Ok(&self.read[0])
    }

    /// Buffers `event` as skipped, unless the buffer is full.
    pub fn skip_event(&mut self, event: DeEvent<'de>) -> (r: Result<(), DeError>)
        requires
            old(self).inv(),
            old(self)@.overlapped,
        ensures
            final(self).inv(),
            old(self)@.has_room() ==> r is Ok && final(self)@ == old(self)@.stored(event@),
            !old(self)@.has_room() ==> done(r) == Err::<(), DeErrorView>(old(self)@.full())
                && final(self)@ == old(self)@,
    {
        if let Some(max) = self.limit {
            if self.write.len() >= max {
                return Err(DeError::TooManyEvents(max));
            }
        }
        self.write.push_back(event);
        assert(views(self.write@) =~= views(old(self).write@).push(event@));
        Ok(())
    }

    /// Buffers one logical value as skipped: the next event and, where that
    /// is a start tag, the events of its element up to and including the end
    /// tag.  The input ending inside the element is an error.
    pub fn skip(&mut self) -> (r: Result<(), DeError>)
        requires
            old(self).inv(),
            old(self)@.overlapped,
        ensures
            final(self).inv(),
            done(r) == old(self)@.skip().0,
            final(self)@ == old(self)@.skip().1,
    {
        let event = self.next()?;
        let name: Option<Vec<u8>> = match &event {
            DeEvent::Start(e) => Some(to_vec(e.name().into_inner())),
            _ => None,
        };
        self.skip_event(event)?;
        match name {
            Some(end) => {
                let mut depth: usize = 0;
                loop
                    invariant
                        self.inv(),
                        self@.overlapped,
                        depth <= self@.write.len(),
                        old(self)@.skip() == self@.skip_subtree(end@, depth as nat),
                    decreases self@.remaining(),
                {
                    let event = self.next()?;
                    let opens = match &event {
                        DeEvent::Start(e) => bytes_eq(e.name().into_inner(), end.as_slice()),
                        _ => false,
                    };
                    let closes = match &event {
                        DeEvent::End(e) => bytes_eq(e.name().into_inner(), end.as_slice()),
                        _ => false,
                    };
                    if let DeEvent::Eof = event {
                        return Err(DeError::UnexpectedEof);
                    }
                    self.skip_event(event)?;
                    assert(self@.write.len() == self.write.len());
                    if opens {
                        depth += 1;
                    } else if closes {
                        if depth == 0 {
                            return Ok(());
                        }
                        depth -= 1;
                    }
                }
            },
            None => Ok(()),
        }
    }

    /// Starts to replay what was skipped: the skipped events go in front of
    /// what was still to be replayed, in the order in which they were pulled.
    pub fn start_replay(&mut self)
        requires
            old(self).inv(),
            old(self)@.overlapped,
        ensures
            final(self).inv(),
            final(self)@ == old(self)@.replayed(),
    {
        self.write.append(&mut self.read);
        std::mem::swap(&mut self.read, &mut self.write);
        assert(views(self.read@) =~= views(old(self).write@) + views(old(self).read@));
        assert(views(self.write@) =~= Seq::empty());
    }

    /// Pulls events up to the next start tag, passing over text, and gives
    /// the tag; `None` at the end of the input.
    pub fn next_start(&mut self) -> (r: Result<Option<BytesStart<'de>>, DeError>)
        requires
            old(self).inv(),
        ensures
            final(self).inv(),
            started(r) == old(self)@.next_start().0,
            final(self)@ == old(self)@.next_start().1,
    {
        loop
            invariant
                self.inv(),
                old(self)@.next_start() == self@.next_start(),
            decreases self@.remaining(),
        {
            let e = self.next()?;
            match e {
                DeEvent::Start(e) => return Ok(Some(e)),
                DeEvent::End(e) => {
                    return Err(DeError::UnexpectedEnd(to_vec(e.name().into_inner())))
                },
                DeEvent::Eof => return Ok(None),
                _ => (),
            }
        }
    }

    /// Discards events up to and including the end tag that closes the
    /// element `name`, whose start tag was pulled before.
    pub fn read_to_end(&mut self, name: QName) -> (r: Result<(), DeError>)
        requires
            old(self).inv(),
        ensures
            final(self).inv(),
            done(r) == old(self)@.read_to_end(name@).0,
            final(self)@ == old(self)@.read_to_end(name@).1,
    {
        if self.overlapped {
            let mut depth: usize = 0;
            assert(self@.read.len() == self.read.len());
            loop
                invariant
                    self.inv(),
                    self@ == (Cursor { read: self@.read, ..old(self)@ }),
                    self@.overlapped,
                    depth + self@.read.len() <= old(self)@.read.len() <= usize::MAX,
                    drain_buffer(old(self)@.read, name@, 0) == drain_buffer(
                        self@.read,
                        name@,
                        depth as nat,
                    ),
                decreases self@.read.len(),
            {
                let ghost before = self@.read;
                match self.read.pop_front() {
                    Some(event) => {
                        assert(views(self.read@) =~= before.skip(1));
                        let opens = match &event {
                            DeEvent::Start(e) => bytes_eq(e.name().into_inner(), name.into_inner()),
                            _ => false,
                        };
                        let closes = match &event {
                            DeEvent::End(e) => bytes_eq(e.name().into_inner(), name.into_inner()),
                            _ => false,
                        };
                        if opens {
                            depth += 1;
                        } else if closes {
                            if depth == 0 {
                                return Ok(());
                            }
                            depth -= 1;
                        }
                    },
                    None => {
                        assert(self@.read =~= Seq::empty());
                        return self.reader.read_to_end(name);
                    },
                }
            }
        } else {
            let event = self.next()?;
            match event {
                DeEvent::Start(e) => {
                    self.reader.read_to_end(e.name())?;
                },
                DeEvent::End(e) => {
                    if bytes_eq(e.name().into_inner(), name.into_inner()) {
                        return Ok(());
                    }
                },
                _ => {},
            }
            self.reader.read_to_end(name)
        }
    }

    /// Pulls one value and gives its text, unescaped where `unescape` asks
    /// for it.  The value may stand one level down, inside an element.
    pub fn next_text(&mut self, unescape: bool) -> (r: Result<BytesCData<'de>, DeError>)
        requires
            old(self).inv(),
        ensures
            final(self).inv(),
            texted(r) == old(self)@.next_text(unescape, true).0,
            final(self)@ == old(self)@.next_text(unescape, true).1,
    {
        self.next_text_impl(unescape, true)
    }

    /// Pulls one value and gives its text, unescaped where `unescape` asks
    /// for it.  With `allow_start` the value may stand one level down,
    /// inside an element, which is then used up as a whole; without it a
    /// start tag is an error and one event is pulled.
    pub fn next_text_impl(&mut self, unescape: bool, allow_start: bool) -> (r: Result<
        BytesCData<'de>,
        DeError,
    >)
        requires
            old(self).inv(),
        ensures
            final(self).inv(),
            texted(r) == old(self)@.next_text(unescape, allow_start).0,
            final(self)@ == old(self)@.next_text(unescape, allow_start).1,
    {
        match self.next()? {
            DeEvent::Text(e) => text_of(e, unescape),
            DeEvent::CData(e) => Ok(e),
            DeEvent::Start(e) => {
                if !allow_start {
                    return Err(DeError::UnexpectedStart(to_vec(e.name().into_inner())));
                }
                let inner = self.next()?;
                let t = match inner {
                    DeEvent::Text(t) => text_of(t, unescape)?,
                    DeEvent::CData(t) => t,
                    DeEvent::Start(s) => {
                        return Err(DeError::UnexpectedStart(to_vec(s.name().into_inner())));
                    },
                    DeEvent::End(end) => {
                        if bytes_eq(end.name().into_inner(), e.name().into_inner()) {
                            return Ok(BytesCData::empty());
                        }
                        return Err(DeError::UnexpectedEnd(to_vec(end.name().into_inner())));
                    },
                    DeEvent::Eof => return Err(DeError::UnexpectedEof),
                };
                self.read_to_end(e.name())?;
                Ok(t)
            },
            DeEvent::End(e) => Err(DeError::UnexpectedEnd(to_vec(e.name().into_inner()))),
            DeEvent::Eof => Err(DeError::UnexpectedEof),
        }
    }

    /// The policy by which the bytes of the source become strings.
    pub fn decoder(&self) -> Decoder {
        self.reader.decoder()
    }
}

impl<'de> Deserializer<'de, SliceReader<'de>> {
    /// A decoder that borrows from the string `s`.
    pub fn from_str(s: &'de str) -> (r: Self)
        ensures
            r.inv(),
            r@ == (Cursor {
                overlapped: true,
                read: Seq::empty(),
                write: Seq::empty(),
                limit: None,
                source: events(s.spec_bytes(), Config::decoding(), at_start()),
            }),
    {
        Self::from_slice(s.as_bytes())
    }

    /// A decoder that borrows from the bytes `bytes`.  Its source expands
    /// empty-element tags, checks the names of end tags and trims text.
    pub fn from_slice(bytes: &'de [u8]) -> (r: Self)
        ensures
            r.inv(),
            r@ == (Cursor {
                overlapped: true,
                read: Seq::empty(),
                write: Seq::empty(),
                limit: None,
                source: events(bytes@, Config::decoding(), at_start()),
            }),
    {
        Self::new(SliceReader::new(bytes, Config::decoding()))
    }
}

impl<'de> Deserializer<'de, IoReader> {
    /// A decoder over the bytes `input` of a stream.  Its events are copies;
    /// where the document is at hand as a string or a slice, `from_str` and
    /// `from_slice` borrow instead.
    pub fn from_reader(input: Vec<u8>) -> (r: Self)
        ensures
            r.inv(),
            r@ == (Cursor {
                overlapped: true,
                read: Seq::empty(),
                write: Seq::empty(),
                limit: None,
                source: events(input@, Config::decoding(), at_start()),
            }),
    {
        Self::new(IoReader::new(input, Config::decoding()))
    }
}

/// The mathematical content of the result of a search for text.
pub open spec fn texted<'a>(r: Result<BytesCData<'a>, DeError>) -> Result<Seq<u8>, DeErrorView> {
    match r {
        Ok(t) => Ok(t@),
        Err(e) => Err(e@),
    }
}

/// The bytes that the text event `e` gives, unescaped where `unescape` asks
/// for it.
pub(crate) fn text_of<'a>(e: BytesText<'a>, unescape: bool) -> (r: Result<BytesCData<'a>, DeError>)
    ensures
        texted(r) == text_content(e@, unescape),
        !unescape && e.is_borrowed() ==> (r matches Ok(t) && t.is_borrowed()),
{
    if unescape {
        match crate::escape::unescape(e.into_inner()) {
            Ok(text) => Ok(BytesCData::new(text)),
            Err(err) => Err(DeError::InvalidXml(Error::EscapeError(err))),
        }
    } else {
        Ok(BytesCData::new(e.into_inner()))
    }
}

/// The mathematical content of the result of a search for a start tag.
pub open spec fn started<'a>(r: Result<Option<BytesStart<'a>>, DeError>) -> Result<
    Option<Tag>,
    DeErrorView,
> {
    match r {
        Ok(Some(e)) => Ok(Some(e@)),
        Ok(None) => Ok(None),
        Err(e) => Err(e@),
    }
}

} // verus!
