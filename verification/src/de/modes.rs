//! The two kinds of cursor, one that may skip and one that may not, do the
//! same wherever no list overlaps with other elements.
//!
//! A pull and a look ask nothing of the kind of cursor.  Two operations do:
//! the search for the next item of a sequence, and discarding up to an end
//! tag.  Each of them is shown to act alike on two cursors of different
//! kind that have the same events to come.
use crate::de::laws::{
    lemma_advance_shifts, lemma_drain_one_level_deeper, lemma_peek_takes_nothing,
    lemma_replay_puts_skipped_first, lemma_search_loses_nothing,
};
use crate::de::model::{
    closes, drain, drain_buffer, opens, while_discarding, Cursor, EventView, Pull,
};
use crate::de::nesting::{lemma_drain_passes_over_element, nested};
use crate::de::seq::Filter;
use crate::errors::DeErrorView;
use vstd::prelude::*;

verus! {

/// Whether the pulls on `a` and on `b` return the same, one by one.
pub open spec fn same_events(a: Cursor, b: Cursor) -> bool {
    forall|i: int| 0 <= i ==> #[trigger] a.at(i) == b.at(i)
}

/// The events `b` as results of pulls.
pub open spec fn oks(b: Seq<EventView>) -> Seq<Pull> {
    b.map_values(|e: EventView| Ok::<EventView, DeErrorView>(e))
}

/// What a cursor holds for the next pulls and what its source will yield,
/// as one stream.
pub open spec fn stream(c: Cursor) -> Seq<Pull> {
    oks(c.read) + c.source
}

/// Whether the end of the input is not among the results `s`.
pub open spec fn eof_free(s: Seq<Pull>) -> bool {
    forall|i: int| 0 <= i < s.len() ==> #[trigger] s[i] != Ok::<EventView, DeErrorView>(EventView::Eof)
}

/// How many elements named `name` are open at the end of the buffer `b`,
/// where `depth` of them were open at its start and discarding stops at the
/// end tag that closes the outermost of them.
pub open spec fn unclosed(b: Seq<EventView>, name: Seq<u8>, depth: nat) -> nat
    decreases b.len(),
{
    if b.len() == 0 {
        depth
    } else if closes(b[0], name) {
        if depth == 0 {
            0
        } else {
            unclosed(b.skip(1), name, (depth - 1) as nat)
        }
    } else if opens(b[0], name) {
        unclosed(b.skip(1), name, depth + 1)
    } else {
        unclosed(b.skip(1), name, depth)
    }
}

/// Whether the sequence at the cursor is in order: whether a search that
/// has to pass over an element that is no item comes to the end of the
/// sequence without an error and without finding an item behind it.
pub open spec fn in_order(c: Cursor, filter: Filter, parent: Option<Seq<u8>>) -> bool {
    match c.head() {
        Ok(EventView::Start(tag)) => filter.suits(tag.name) || c.seq_next(filter, parent).0 == Ok::<
            bool,
            DeErrorView,
        >(false),
        _ => true,
    }
}

/// The pulls return the stream, and after it the end of the input.
pub proof fn lemma_pulls_return_the_stream(c: Cursor)
    ensures
        forall|i: int|
            0 <= i ==> #[trigger] c.at(i) == if i < stream(c).len() {
                stream(c)[i]
            } else {
                Ok::<EventView, DeErrorView>(EventView::Eof)
            },
{
}

/// Cursors with the same stream have the same events to come.
pub proof fn lemma_same_stream_same_events(a: Cursor, b: Cursor)
    requires
        stream(a) == stream(b),
    ensures
        same_events(a, b),
{
    lemma_pulls_return_the_stream(a);
    lemma_pulls_return_the_stream(b);
}

/// A pull asks nothing of the kind of cursor: on cursors with the same
/// events to come it returns the same and leaves the same events to come.
pub proof fn lemma_next_agrees(a: Cursor, b: Cursor)
    requires
        same_events(a, b),
    ensures
        a.head() == b.head(),
        same_events(a.advance(), b.advance()),
{
    lemma_advance_shifts(a);
    lemma_advance_shifts(b);
    assert(a.at(0) == b.at(0));
    assert forall|i: int| 0 <= i implies #[trigger] a.advance().at(i) == b.advance().at(i) by {
        assert(a.at(i + 1) == b.at(i + 1));
    }
}

/// A look asks nothing of the kind of cursor: on cursors with the same
/// events to come it shows the same and, where it succeeds, leaves the same
/// events to come.
pub proof fn lemma_peek_agrees(a: Cursor, b: Cursor)
    requires
        same_events(a, b),
    ensures
        a.head() == b.head(),
        a.head() is Ok ==> same_events(a.filled(), b.filled()),
        a.head() is Err ==> same_events(a.filled(), b.filled()),
{
    lemma_next_agrees(a, b);
    if a.head() is Ok {
        lemma_peek_takes_nothing(a);
        lemma_peek_takes_nothing(b);
        assert forall|i: int| 0 <= i implies #[trigger] a.filled().at(i) == b.filled().at(i) by {
            assert(a.at(i) == b.at(i));
        }
    }
}

/// On a sequence in order, tolerance for overlapped lists changes nothing.
/// Take a cursor that may skip, with nothing skipped so far, and a cursor
/// that may not skip, with the same events to come.  The search for the
/// next item gives the same answer on both, and once the sequence is ended
/// both have the same events to come.
pub proof fn lemma_tolerance_is_invisible_in_order(
    t: Cursor,
    s: Cursor,
    filter: Filter,
    parent: Option<Seq<u8>>,
)
    requires
        t.overlapped,
        !s.overlapped,
        s.wf(),
        t.write.len() == 0,
        same_events(t, s),
        in_order(t, filter, parent),
    ensures
        ({
            let (rt, t1) = t.seq_next(filter, parent);
            let (rs, s1) = s.seq_next(filter, parent);
            &&& rt == rs
            &&& t1.seq_end().write.len() == 0
            &&& s1.seq_end().wf()
            &&& rt is Ok ==> same_events(t1.seq_end(), s1.seq_end())
        }),
{
    let (rt, t1) = t.seq_next(filter, parent);
    let (rs, s1) = s.seq_next(filter, parent);
    lemma_next_agrees(t, s);
    lemma_replay_puts_skipped_first(t);
    lemma_replay_puts_skipped_first(t1);
    if rt is Ok {
        lemma_search_loses_nothing(t, filter, parent);
        lemma_peek_takes_nothing(s);
        assert(s1 == s.filled());
        assert forall|i: int| 0 <= i implies #[trigger] t1.seq_end().at(i) == s1.seq_end().at(
            i,
        ) by {
            assert(t1.replayed().at(i) == t.replayed().at(i));
            assert(t.replayed().at(i) == t.at(i));
            assert(t.at(i) == s.at(i));
            assert(s1.at(i) == s.at(i));
        }
    }
}

/// To discard in a buffer and then in the source is to discard in the two
/// as one stream, as long as the source takes over the count of the open
/// elements.
proof fn lemma_buffer_is_part_of_the_stream(
    b: Seq<EventView>,
    source: Seq<Pull>,
    name: Seq<u8>,
    depth: nat,
)
    requires
        forall|i: int| 0 <= i < b.len() ==> #[trigger] b[i] != EventView::Eof,
    ensures
        match drain_buffer(b, name, depth) {
            Some(left) => drain(oks(b) + source, name, depth) == (
                Ok::<(), DeErrorView>(()),
                oks(left) + source,
            ),
            None => drain(oks(b) + source, name, depth) == drain(
                source,
                name,
                unclosed(b, name, depth),
            ),
        },
    decreases b.len(),
{
    let all = oks(b) + source;
    if b.len() == 0 {
        assert(all =~= source);
    } else {
        assert(all[0] == Ok::<EventView, DeErrorView>(b[0]));
        assert(all.skip(1) =~= oks(b.skip(1)) + source);
        assert(b[0] != EventView::Eof);
        assert forall|i: int| 0 <= i < b.skip(1).len() implies #[trigger] b.skip(1)[i]
            != EventView::Eof by {
            assert(b.skip(1)[i] == b[i + 1]);
        }
        if closes(b[0], name) {
            if depth > 0 {
                lemma_buffer_is_part_of_the_stream(b.skip(1), source, name, (depth - 1) as nat);
            }
        } else if opens(b[0], name) {
            lemma_buffer_is_part_of_the_stream(b.skip(1), source, name, depth + 1);
        } else {
            lemma_buffer_is_part_of_the_stream(b.skip(1), source, name, depth);
        }
    }
}

/// A cursor that may skip discards as if what it holds and what its source
/// will yield were one stream, unless an element named like the one to
/// discard is still open where what it holds ends.
pub proof fn lemma_discarding_with_a_buffer(c: Cursor, name: Seq<u8>)
    requires
        c.overlapped,
        forall|i: int| 0 <= i < c.read.len() ==> #[trigger] c.read[i] != EventView::Eof,
        unclosed(c.read, name, 0) == 0,
    ensures
        c.read_to_end(name).0 == drain(stream(c), name, 0).0,
        stream(c.read_to_end(name).1) == drain(stream(c), name, 0).1,
{
    lemma_buffer_is_part_of_the_stream(c.read, c.source, name, 0);
    let after = c.read_to_end(name).1;
    if drain_buffer(c.read, name, 0) is None {
        assert(oks(after.read) =~= Seq::<Pull>::empty());
        assert(stream(after) =~= after.source);
    }
}

/// A cursor that may not skip discards as if its lookahead and what its
/// source will yield were one stream, where these nest.
pub proof fn lemma_discarding_without_skips(c: Cursor, name: Seq<u8>, stack: Seq<Seq<u8>>)
    requires
        !c.overlapped,
        c.wf(),
        nested(stream(c), stack),
        eof_free(stream(c)),
        c.head() matches Err(e) ==> while_discarding(e) == e,
    ensures
        c.read_to_end(name).0 == drain(stream(c), name, 0).0,
        stream(c.read_to_end(name).1) == drain(stream(c), name, 0).1,
{
    let all = stream(c);
    let after = c.read_to_end(name).1;
    let empty = Seq::<Seq<u8>>::empty();
    let next = c.advance();
    assert(oks(next.read) =~= Seq::<Pull>::empty());
    assert(stream(next) =~= next.source);
    assert(oks(after.read) =~= Seq::<Pull>::empty());
    assert(stream(after) =~= after.source);
    if all.len() > 0 {
        assert(all[0] != Ok::<EventView, DeErrorView>(EventView::Eof));
        if c.read.len() == 1 {
            assert(all[0] == Ok::<EventView, DeErrorView>(c.read[0]));
            assert(all.skip(1) =~= c.source);
            assert(c.read.skip(1) =~= Seq::<EventView>::empty());
        } else {
            assert(all =~= c.source);
        }
        assert(next.source == all.skip(1));
        if let Ok(EventView::Start(tag)) = all[0] {
            if tag.name == name {
                lemma_drain_one_level_deeper(all.skip(1), name, 0);
            } else {
                assert(stack.push(tag.name) =~= stack.push(tag.name) + empty);
                lemma_drain_passes_over_element(all.skip(1), stack, tag.name, empty, name, 0);
            }
        }
    } else {
        assert(c.read.len() == 0);
        assert(c.source =~= Seq::<Pull>::empty());
    }
}

/// On events that nest, the two kinds of cursor discard alike.  Take a
/// cursor that may skip and a cursor that may not, with the same stream to
/// come.  To discard up to the end tag of an element gives the same result
/// on both and leaves the same stream to come, unless, on the cursor that
/// may skip, an element named like the one to discard is still open where
/// what the cursor holds ends, or the next pull is an error that discarding
/// reports otherwise.
pub proof fn lemma_read_to_end_agrees(t: Cursor, s: Cursor, name: Seq<u8>, stack: Seq<Seq<u8>>)
    requires
        t.overlapped,
        !s.overlapped,
        s.wf(),
        stream(t) == stream(s),
        nested(stream(s), stack),
        eof_free(stream(s)),
        unclosed(t.read, name, 0) == 0,
        s.head() matches Err(e) ==> while_discarding(e) == e,
    ensures
        t.read_to_end(name).0 == s.read_to_end(name).0,
        stream(t.read_to_end(name).1) == stream(s.read_to_end(name).1),
        !s.read_to_end(name).1.overlapped,
        s.read_to_end(name).1.wf(),
{
    assert forall|i: int| 0 <= i < t.read.len() implies #[trigger] t.read[i] != EventView::Eof by {
        assert(stream(t)[i] == Ok::<EventView, DeErrorView>(t.read[i]));
    }
    lemma_discarding_with_a_buffer(t, name);
    lemma_discarding_without_skips(s, name, stack);
}

} // verus!
