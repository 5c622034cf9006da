//! Sequences: repeated elements, possibly with other elements between them.
use crate::bytes::{bytes_eq, to_vec};
use crate::de::laws::lemma_advance_shifts;
use crate::de::model::{Cursor, EventView};
use crate::de::{plain, DeEvent, Deserializer, XmlRead};
use crate::errors::{DeError, DeErrorView};
use crate::events::BytesStart;
use crate::name::QName;
use vstd::prelude::*;
use vstd::string::StringSliceAdditionalSpecFns;

verus! {

/// Which elements are the items of a sequence.
#[derive(Debug)]
pub enum TagFilter {
    /// The elements with this name.
    Include(Vec<u8>),
    /// The elements with any name but these.
    Exclude(&'static [&'static str]),
}

/// The mathematical content of a [`TagFilter`].
pub enum Filter {
    /// The elements with this name.
    Include(Seq<u8>),
    /// The elements with any name but these.
    Exclude(Seq<Seq<u8>>),
}

impl Filter {
    /// Whether an element named `name` is an item.
    pub open spec fn suits(self, name: Seq<u8>) -> bool {
        match self {
            Filter::Include(n) => n == name,
            Filter::Exclude(names) => forall|i: int| 0 <= i < names.len() ==> names[i] != name,
        }
    }
}

impl View for TagFilter {
    type V = Filter;

    open spec fn view(&self) -> Filter {
        match self {
            TagFilter::Include(n) => Filter::Include(n@),
            TagFilter::Exclude(fields) => Filter::Exclude(
                Seq::new(fields@.len(), |i: int| fields@[i].spec_bytes()),
            ),
        }
    }
}

impl TagFilter {
    /// Whether the element that `start` opens is an item.
    pub fn is_suitable(&self, start: &BytesStart) -> (r: bool)
        ensures
            r == self@.suits(start@.name),
    {
        let name = start.name().into_inner();
        match self {
            TagFilter::Include(n) => bytes_eq(n.as_slice(), name),
            TagFilter::Exclude(fields) => {
                let mut i: usize = 0;
                while i < fields.len()
                    invariant
                        i <= fields@.len(),
                        name@ == start@.name,
                        self@ == Filter::Exclude(
                            Seq::new(fields@.len(), |i: int| fields@[i].spec_bytes()),
                        ),
                        forall|j: int| 0 <= j < i ==> fields@[j].spec_bytes() != name@,
                    decreases fields@.len() - i,
                {
                    if bytes_eq(fields[i].as_bytes(), name) {
                        assert(self@->Exclude_0[i as int] == name@);
                        return false;
                    }
                    i += 1;
                }
                true
            },
        }
    }
}

/// What the event at the cursor means for a sequence.
enum Scan {
    /// An item starts here.
    Item,
    /// An element starts here that is no item.
    Other,
    /// The sequence ends here.
    End,
}

impl Cursor {
    /// The filter of a sequence that starts at the cursor and stands in no
    /// struct: where an element starts, its name is the name of the items;
    /// otherwise every element is an item.
    pub open spec fn seq_filter(self) -> Result<Filter, DeErrorView> {
        match self.head() {
            Err(e) => Err(e),
            Ok(EventView::Start(tag)) => Ok(Filter::Include(tag.name)),
            Ok(_) => Ok(Filter::Exclude(Seq::empty())),
        }
    }

    /// Looks for the next item of a sequence and tells whether there is one.
    ///
    /// Text, character data and an element that suits the filter are items.
    /// An element that is no item ends the sequence for a cursor that may
    /// not skip; a cursor that may skip buffers that element and looks
    /// again.  An end tag and the end of the input end the sequence; inside
    /// the element `parent` the end tag has to be the parent's, and the
    /// input may not end.  No item is pulled.
    ///
    /// That less remains after a skip is asked so that the definition ends;
    /// it always holds, as `lemma_skip_shrinks` shows.
    pub open spec fn seq_next(self, filter: Filter, parent: Option<Seq<u8>>) -> (
        Result<bool, DeErrorView>,
        Cursor,
    )
        decreases self.remaining(),
    {
        let f = self.filled();
        match self.head() {
            Err(e) => (Err(e), f),
            Ok(EventView::Start(tag)) => if filter.suits(tag.name) {
                (Ok(true), f)
            } else if !self.overlapped {
                (Ok(false), f)
            } else {
                let (r, d) = f.skip();
                match r {
                    Err(e) => (Err(e), d),
                    Ok(()) => if d.remaining() < self.remaining() {
                        d.seq_next(filter, parent)
                    } else {
                        (Ok(false), d)
                    },
                }
            },
            Ok(EventView::End(name)) => match parent {
                Some(p) => if name == p {
                    (Ok(false), f)
                } else {
                    (Err(DeErrorView::UnexpectedEnd(name)), f)
                },
                None => (Ok(false), f),
            },
            Ok(EventView::Eof) => match parent {
                Some(_) => (Err(DeErrorView::UnexpectedEof), f),
                None => (Ok(false), f),
            },
            Ok(_) => (Ok(true), f),
        }
    }

    /// The cursor after a sequence: a cursor that may skip replays what the
    /// search for items has buffered.
    pub open spec fn seq_end(self) -> Cursor {
        if self.overlapped {
            self.replayed()
        } else {
            self
        }
    }
}

/// Skipping the rest of an element uses up events and gives none back.
pub proof fn lemma_skip_subtree_shrinks(c: Cursor, name: Seq<u8>, depth: nat)
    ensures
        c.skip_subtree(name, depth).1.remaining() <= c.remaining(),
    decreases c.remaining(),
{
    lemma_advance_shifts(c);
    if let Ok(e) = c.head() {
        if e != EventView::Eof && c.has_room() {
            if !(crate::de::model::closes(e, name) && depth == 0) {
                let depth1: nat = if crate::de::model::closes(e, name) {
                    (depth - 1) as nat
                } else if crate::de::model::opens(e, name) {
                    depth + 1
                } else {
                    depth
                };
                lemma_skip_subtree_shrinks(c.advance().stored(e), name, depth1);
            }
        }
    }
}

/// A skip uses up at least one event, where one is left.
pub proof fn lemma_skip_shrinks(c: Cursor)
    requires
        c.remaining() > 0,
    ensures
        c.skip().1.remaining() < c.remaining(),
{
    lemma_advance_shifts(c);
    if let Ok(e) = c.head() {
        if c.has_room() {
            if let EventView::Start(tag) = e {
                lemma_skip_subtree_shrinks(c.advance().stored(e), tag.name, 0);
            }
        }
    }
}

/// The mathematical content of the result of choosing a filter.
pub open spec fn filtered(r: Result<TagFilter, DeError>) -> Result<Filter, DeErrorView> {
    match r {
        Ok(f) => Ok(f@),
        Err(e) => Err(e@),
    }
}

/// The name that `parent` holds.
pub open spec fn parent_name(parent: Option<QName>) -> Option<Seq<u8>> {
    match parent {
        Some(n) => Some(n@),
        None => None,
    }
}

impl<'de, R: XmlRead<'de>> Deserializer<'de, R> {
    /// Starts a sequence that stands in no struct, and gives the filter that
    /// tells its items: the elements named like the one at the cursor.  No
    /// event is pulled.
    pub fn deserialize_seq(&mut self) -> (r: Result<TagFilter, DeError>)
        requires
            old(self).inv(),
        ensures
            final(self).inv(),
            filtered(r) == old(self)@.seq_filter(),
            final(self)@ == old(self)@.filled(),
    {
        match self.peek()? {
            DeEvent::Start(e) => Ok(TagFilter::Include(to_vec(e.name().into_inner()))),
            _ => {
                let none: &'static [&'static str] = &[];
                assert(Seq::new(none@.len(), |i: int| none@[i].spec_bytes()) =~= Seq::<
                    Seq<u8>,
                >::empty());
                Ok(TagFilter::Exclude(none))
            },
        }
    }

    /// Looks for the next item of a sequence and tells whether there is one;
    /// the caller then reads the item.  `parent` names the element that the
    /// sequence stands in, if it stands in one.
    pub fn next_element(&mut self, filter: &TagFilter, parent: Option<QName>) -> (r: Result<
        bool,
        DeError,
    >)
        requires
            old(self).inv(),
        ensures
            final(self).inv(),
            plain(r) == old(self)@.seq_next(filter@, parent_name(parent)).0,
            final(self)@ == old(self)@.seq_next(filter@, parent_name(parent)).1,
    {
        loop
            invariant
                self.inv(),
                old(self)@.seq_next(filter@, parent_name(parent)) == self@.seq_next(
                    filter@,
                    parent_name(parent),
                ),
            decreases self@.remaining(),
        {
            let ghost before = self@;
            let scan = match self.peek()? {
                DeEvent::Start(e) => if filter.is_suitable(e) {
                    Scan::Item
                } else {
                    Scan::Other
                },
                DeEvent::End(e) => match parent {
                    Some(p) => if bytes_eq(e.name().into_inner(), p.into_inner()) {
                        Scan::End
                    } else {
                        return Err(DeError::UnexpectedEnd(to_vec(e.name().into_inner())));
                    },
                    None => Scan::End,
                },
                DeEvent::Eof => match parent {
                    Some(_) => return Err(DeError::UnexpectedEof),
                    None => Scan::End,
                },
                _ => Scan::Item,
            };
            match scan {
                Scan::Item => return Ok(true),
                Scan::End => return Ok(false),
                Scan::Other => {
                    if !self.is_overlapped() {
                        return Ok(false);
                    }
                    proof {
                        lemma_skip_shrinks(before.filled());
                    }
                    self.skip()?;
                },
            }
        }
    }

    /// Ends a sequence: a decoder that may skip starts to replay what the
    /// search for items has buffered, so that the fields which follow see
    /// it.
    pub fn end_seq(&mut self)
        requires
            old(self).inv(),
        ensures
            final(self).inv(),
            final(self)@ == old(self)@.seq_end(),
    {
        if self.is_overlapped() {
            self.start_replay();
        }
    }
}

} // verus!
