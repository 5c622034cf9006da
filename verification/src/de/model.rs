//! The mathematical model of the decoder: events as values, a source as the
//! sequence of what its pulls will yield, and the cursor as two queues in
//! front of a source.
use crate::errors::{DeErrorView, ErrorView};
use crate::escape::unescaped;
use crate::events::Tag;
use vstd::prelude::*;

verus! {

/// The mathematical content of an event.
pub enum EventView {
    /// A start tag.
    Start(Tag),
    /// An end tag, with the element's name.
    End(Seq<u8>),
    /// Escaped text.
    Text(Seq<u8>),
    /// A character data section.
    CData(Seq<u8>),
    /// The end of the input.
    Eof,
}

/// What one pull on a source yields: an event or an error.
pub type Pull = Result<EventView, DeErrorView>;

/// What the next pull on a source yields, where `s` lists what is still to
/// come before the end of the input.  An exhausted source yields `Eof`.
pub open spec fn first(s: Seq<Pull>) -> Pull {
    if s.len() == 0 {
        Ok(EventView::Eof)
    } else {
        s[0]
    }
}

/// What is still to come after one pull.  An exhausted source stays so.
pub open spec fn rest(s: Seq<Pull>) -> Seq<Pull> {
    if s.len() == 0 {
        s
    } else {
        s.skip(1)
    }
}

/// Whether `e` opens an element named `name`.
pub open spec fn opens(e: EventView, name: Seq<u8>) -> bool {
    e matches EventView::Start(tag) && tag.name == name
}

/// Whether `e` closes an element named `name`.
pub open spec fn closes(e: EventView, name: Seq<u8>) -> bool {
    e matches EventView::End(n) && n == name
}

/// The error that a source reports when it fails with `e` while it discards
/// events: an input that ends inside a construct counts as an input that
/// ended.
pub open spec fn while_discarding(e: DeErrorView) -> DeErrorView {
    match e {
        DeErrorView::InvalidXml(ErrorView::UnexpectedEof(_)) => DeErrorView::UnexpectedEof,
        _ => e,
    }
}

/// Discards what a source yields up to and including the end tag that closes
/// the element `name`, where `depth` elements of that name were opened on the
/// way and are still open.  Gives the outcome and what the source holds
/// afterwards.  Running out of input before that end tag is an error.
pub open spec fn drain(s: Seq<Pull>, name: Seq<u8>, depth: nat) -> (Result<(), DeErrorView>, Seq<Pull>)
    decreases s.len(),
{
    if s.len() == 0 {
        (Err(DeErrorView::UnexpectedEof), s)
    } else {
        match s[0] {
            Err(e) => (Err(while_discarding(e)), s.skip(1)),
            Ok(EventView::Eof) => (Err(DeErrorView::UnexpectedEof), s.skip(1)),
            Ok(e) => if closes(e, name) {
                if depth == 0 {
                    (Ok(()), s.skip(1))
                } else {
                    drain(s.skip(1), name, (depth - 1) as nat)
                }
            } else if opens(e, name) {
                drain(s.skip(1), name, depth + 1)
            } else {
                drain(s.skip(1), name, depth)
            },
        }
    }
}

/// Discards buffered events up to and including the end tag that closes the
/// element `name`, as [`drain`] does on a source.  Gives what is left of the
/// buffer, or `None` where the buffer holds no such end tag.
pub open spec fn drain_buffer(b: Seq<EventView>, name: Seq<u8>, depth: nat) -> Option<Seq<EventView>>
    decreases b.len(),
{
    if b.len() == 0 {
        None
    } else if closes(b[0], name) {
        if depth == 0 {
            Some(b.skip(1))
        } else {
            drain_buffer(b.skip(1), name, (depth - 1) as nat)
        }
    } else if opens(b[0], name) {
        drain_buffer(b.skip(1), name, depth + 1)
    } else {
        drain_buffer(b.skip(1), name, depth)
    }
}

/// The bytes that a text event with the content `t` gives: where `unescape`
/// is asked for, `t` with its references replaced; a malformed reference is
/// an error of the markup.
pub open spec fn text_content(t: Seq<u8>, unescape: bool) -> Result<Seq<u8>, DeErrorView> {
    if unescape {
        match unescaped(t) {
            Ok(text) => Ok(text),
            Err(e) => Err(DeErrorView::InvalidXml(ErrorView::EscapeError(e))),
        }
    } else {
        Ok(t)
    }
}

/// The state of a decoder's cursor.
pub struct Cursor {
    /// Whether lists may overlap with other elements: whether events can be
    /// skipped and replayed.
    pub overlapped: bool,
    /// The events that the next pulls return before the source is asked: the
    /// lookahead and what is being replayed.
    pub read: Seq<EventView>,
    /// The events skipped since the last replay started.
    pub write: Seq<EventView>,
    /// The most events that `write` may hold, if bounded.
    pub limit: Option<usize>,
    /// What the source will still yield.
    pub source: Seq<Pull>,
}

impl Cursor {
    /// A cursor that may not skip holds at most one event of lookahead and
    /// nothing else.
    pub open spec fn wf(self) -> bool {
        !self.overlapped ==> self.read.len() <= 1 && self.write.len() == 0
    }

    /// How many pulls can still return something other than the end of input.
    pub open spec fn remaining(self) -> nat {
        self.read.len() + self.source.len()
    }

    /// What the next pull returns.
    pub open spec fn head(self) -> Pull {
        if self.read.len() > 0 {
            Ok(self.read[0])
        } else {
            first(self.source)
        }
    }

    /// What the pull after `i` others returns.
    pub open spec fn at(self, i: int) -> Pull {
        if i < self.read.len() {
            Ok(self.read[i])
        } else if i - self.read.len() < self.source.len() {
            self.source[i - self.read.len()]
        } else {
            Ok(EventView::Eof)
        }
    }

    /// The cursor after one pull.
    pub open spec fn advance(self) -> Cursor {
        if self.read.len() > 0 {
            Cursor { read: self.read.skip(1), ..self }
        } else {
            Cursor { source: rest(self.source), ..self }
        }
    }

    /// The cursor after a look at the next event: where no event was held,
    /// the source was asked, and an event that it gave is now held.
    pub open spec fn filled(self) -> Cursor {
        if self.read.len() > 0 {
            self
        } else {
            match first(self.source) {
                Ok(e) => Cursor { read: seq![e], source: rest(self.source), ..self },
                Err(_) => Cursor { source: rest(self.source), ..self },
            }
        }
    }

    /// Whether one more event may be buffered.
    pub open spec fn has_room(self) -> bool {
        match self.limit {
            Some(max) => self.write.len() < max,
            None => true,
        }
    }

    /// The error that reports a full buffer.
    pub open spec fn full(self) -> DeErrorView {
        DeErrorView::TooManyEvents(self.limit.unwrap())
    }

    /// The cursor after `e` was buffered as skipped.
    pub open spec fn stored(self, e: EventView) -> Cursor {
        Cursor { write: self.write.push(e), ..self }
    }

    /// The cursor after a replay started: what was skipped comes first, then
    /// what was still to be replayed.
    pub open spec fn replayed(self) -> Cursor {
        Cursor { read: self.write + self.read, write: Seq::empty(), ..self }
    }

    /// Buffers the events of an element whose start tag was just buffered, up
    /// to and including its end tag, where `depth` elements of the same name
    /// were opened inside it and are still open.  Fails where an event cannot
    /// be had, where the buffer is full, and where the input ends first.
    pub open spec fn skip_subtree(self, name: Seq<u8>, depth: nat) -> (Result<(), DeErrorView>, Cursor)
        decreases self.remaining(),
    {
        match self.head() {
            Err(e) => (Err(e), self.advance()),
            Ok(EventView::Eof) => (Err(DeErrorView::UnexpectedEof), self.advance()),
            Ok(e) => if !self.has_room() {
                (Err(self.full()), self.advance())
            } else if closes(e, name) {
                if depth == 0 {
                    (Ok(()), self.advance().stored(e))
                } else {
                    self.advance().stored(e).skip_subtree(name, (depth - 1) as nat)
                }
            } else if opens(e, name) {
                self.advance().stored(e).skip_subtree(name, depth + 1)
            } else {
                self.advance().stored(e).skip_subtree(name, depth)
            },
        }
    }

    /// Buffers one logical value: a whole element where a start tag comes
    /// next, else the one event that comes next.
    pub open spec fn skip(self) -> (Result<(), DeErrorView>, Cursor) {
        match self.head() {
            Err(e) => (Err(e), self.advance()),
            Ok(e) => if !self.has_room() {
                (Err(self.full()), self.advance())
            } else {
                match e {
                    EventView::Start(tag) => self.advance().stored(e).skip_subtree(tag.name, 0),
                    _ => (Ok(()), self.advance().stored(e)),
                }
            },
        }
    }

    /// Pulls events up to the next start tag, passing over text.  Gives the
    /// tag, or `None` at the end of the input; an end tag is an error.
    pub open spec fn next_start(self) -> (Result<Option<Tag>, DeErrorView>, Cursor)
        decreases self.remaining(),
    {
        match self.head() {
            Err(e) => (Err(e), self.advance()),
            Ok(EventView::Start(tag)) => (Ok(Some(tag)), self.advance()),
            Ok(EventView::End(name)) => (Err(DeErrorView::UnexpectedEnd(name)), self.advance()),
            Ok(EventView::Eof) => (Ok(None), self.advance()),
            Ok(_) => self.advance().next_start(),
        }
    }

    /// Discards events up to and including the end tag that closes the
    /// element `name`, whose start tag was pulled before.
    ///
    /// A cursor that may skip scans what it holds first, counting the
    /// elements of that name that open and close there; once that is used up
    /// it leaves the rest to the source, which counts anew.  A cursor that
    /// may not skip takes one event: past a start tag it has the source
    /// discard that element first; an end tag of that name ends the work;
    /// otherwise the source discards up to the end tag.
    pub open spec fn read_to_end(self, name: Seq<u8>) -> (Result<(), DeErrorView>, Cursor) {
        if self.overlapped {
            match drain_buffer(self.read, name, 0) {
                Some(left) => (Ok(()), Cursor { read: left, ..self }),
                None => {
                    let (r, s) = drain(self.source, name, 0);
                    (r, Cursor { read: Seq::empty(), source: s, ..self })
                },
            }
        } else {
            let c = self.advance();
            match self.head() {
                Err(e) => (Err(e), c),
                Ok(EventView::Start(tag)) => {
                    let (r, s) = drain(c.source, tag.name, 0);
                    if r is Err {
                        (r, Cursor { source: s, ..c })
                    } else {
                        let (r2, s2) = drain(s, name, 0);
                        (r2, Cursor { source: s2, ..c })
                    }
                },
                Ok(e) => if closes(e, name) {
                    (Ok(()), c)
                } else {
                    let (r, s) = drain(c.source, name, 0);
                    (r, Cursor { source: s, ..c })
                },
            }
        }
    }

    /// After the start tag `tag` was pulled and `text` was found inside the
    /// element: discards the rest of the element and gives the text.
    pub open spec fn text_then_end(self, tag: Tag, text: Result<Seq<u8>, DeErrorView>) -> (
        Result<Seq<u8>, DeErrorView>,
        Cursor,
    ) {
        match text {
            Err(e) => (Err(e), self),
            Ok(t) => {
                let (r, c) = self.read_to_end(tag.name);
                match r {
                    Ok(()) => (Ok(t), c),
                    Err(e) => (Err(e), c),
                }
            },
        }
    }

    /// Pulls one value and gives its text.
    ///
    /// Text is unescaped where `unescape` asks for it; character data is
    /// given as it stands.  A start tag is an error, unless `allow_start`
    /// lets the value stand one level down: then the event after the start
    /// tag decides.  Text or character data is the value, and the rest of
    /// the element is discarded; the end tag of the element makes the value
    /// empty; a second start tag, any other end tag and the end of the input
    /// are errors.  Without a start tag before them, an end tag and the end
    /// of the input are errors.
    pub open spec fn next_text(self, unescape: bool, allow_start: bool) -> (
        Result<Seq<u8>, DeErrorView>,
        Cursor,
    ) {
        let c = self.advance();
        match self.head() {
            Err(e) => (Err(e), c),
            Ok(EventView::Text(t)) => (text_content(t, unescape), c),
            Ok(EventView::CData(t)) => (Ok(t), c),
            Ok(EventView::Start(tag)) => if !allow_start {
                (Err(DeErrorView::UnexpectedStart(tag.name)), c)
            } else {
                let d = c.advance();
                match c.head() {
                    Err(e) => (Err(e), d),
                    Ok(EventView::Text(t)) => d.text_then_end(tag, text_content(t, unescape)),
                    Ok(EventView::CData(t)) => d.text_then_end(tag, Ok(t)),
                    Ok(EventView::Start(inner)) => (
                        Err(DeErrorView::UnexpectedStart(inner.name)),
                        d,
                    ),
                    Ok(EventView::End(name)) => if name == tag.name {
                        (Ok(Seq::empty()), d)
                    } else {
                        (Err(DeErrorView::UnexpectedEnd(name)), d)
                    },
                    Ok(EventView::Eof) => (Err(DeErrorView::UnexpectedEof), d),
                }
            },
            Ok(EventView::End(name)) => (Err(DeErrorView::UnexpectedEnd(name)), c),
            Ok(EventView::Eof) => (Err(DeErrorView::UnexpectedEof), c),
        }
    }
}

} // verus!
