//! What holds of the cursor whatever the source yields.
use crate::de::model::{closes, drain, opens, rest, Cursor, EventView, Pull};
use crate::de::seq::Filter;
use crate::errors::DeErrorView;
use vstd::prelude::*;

verus! {

/// The next pull returns the first of what is to come, and after it every
/// pull returns what the pull after it would have returned.
pub proof fn lemma_advance_shifts(c: Cursor)
    ensures
        c.head() == c.at(0),
        forall|i: int| 0 <= i ==> #[trigger] c.advance().at(i) == c.at(i + 1),
        c.advance().remaining() <= c.remaining(),
        c.remaining() > 0 ==> c.advance().remaining() == c.remaining() - 1,
        c.remaining() == 0 ==> c.head() == Ok::<EventView, DeErrorView>(EventView::Eof),
{
    assert forall|i: int| 0 <= i implies #[trigger] c.advance().at(i) == c.at(i + 1) by {
        if c.read.len() > 0 {
            if i < c.read.len() - 1 {
                assert(c.read.skip(1)[i] == c.read[i + 1]);
            }
        } else if c.source.len() > 0 {
            if i < c.source.len() - 1 {
                assert(rest(c.source)[i] == c.source[i + 1]);
            }
        }
    }
}

/// A look that succeeds takes nothing: the event that it shows is the one
/// that the next pull returns, a second look shows the same event and
/// changes nothing, and a pull after the look leaves the cursor where a pull
/// without the look would have left it.
pub proof fn lemma_peek_takes_nothing(c: Cursor)
    requires
        c.head() is Ok,
    ensures
        c.filled().head() == c.head(),
        c.filled().filled() == c.filled(),
        c.filled().advance() == c.advance(),
        forall|i: int| 0 <= i ==> c.filled().at(i) == c.at(i),
{
    let f = c.filled();
    if c.read.len() == 0 {
        let e = c.head()->Ok_0;
        assert(f.read =~= seq![e]);
        assert(f.read.skip(1) =~= c.read);
        assert forall|i: int| 0 <= i implies f.at(i) == c.at(i) by {
            if i > 0 && c.source.len() > 0 && i - 1 < c.source.len() - 1 {
                assert(rest(c.source)[i - 1] == c.source[i]);
            }
        }
    }
}

/// A look that fails has used up the pull that failed.
pub proof fn lemma_failed_peek_advances(c: Cursor)
    requires
        c.head() is Err,
    ensures
        c.filled() == c.advance(),
{
}

/// Buffering an event changes nothing of what the pulls return.
pub proof fn lemma_stored_keeps_stream(c: Cursor, e: EventView)
    ensures
        forall|i: int| c.stored(e).at(i) == c.at(i),
        c.stored(e).remaining() == c.remaining(),
        c.stored(e).head() == c.head(),
{
}

/// What a successful skip of the rest of an element does: it appends to the
/// buffer the events that the next pulls would have returned, in their
/// order, and leaves to the pulls what follows them.
pub proof fn lemma_skip_subtree_moves_prefix(c: Cursor, name: Seq<u8>, depth: nat)
    requires
        c.skip_subtree(name, depth).0 is Ok,
    ensures
        ({
            let d = c.skip_subtree(name, depth).1;
            let k = d.write.len() - c.write.len();
            &&& d.overlapped == c.overlapped
            &&& d.limit == c.limit
            &&& k >= 1
            &&& d.write.take(c.write.len() as int) == c.write
            &&& forall|j: int| 0 <= j < k ==> Ok::<EventView, DeErrorView>(d.write[c.write.len() + j]) == #[trigger] c.at(j)
            &&& forall|i: int| 0 <= i ==> #[trigger] d.at(i) == c.at(i + k)
        }),
    decreases c.remaining(),
{
    lemma_advance_shifts(c);
    let e = c.head()->Ok_0;
    let c1 = c.advance().stored(e);
    lemma_stored_keeps_stream(c.advance(), e);
    let d = c.skip_subtree(name, depth).1;
    let done = closes(e, name) && depth == 0;
    if done {
        assert(d == c1);
        assert(d.write.take(c.write.len() as int) =~= c.write);
        assert forall|i: int| 0 <= i implies #[trigger] d.at(i) == c.at(i + 1) by {
            assert(c.advance().at(i) == c.at(i + 1));
        }
    } else {
        let depth1: nat = if closes(e, name) {
            (depth - 1) as nat
        } else if opens(e, name) {
            depth + 1
        } else {
            depth
        };
        assert(c.skip_subtree(name, depth) == c1.skip_subtree(name, depth1));
        assert(c.remaining() > 0);
        lemma_skip_subtree_moves_prefix(c1, name, depth1);
        let k1 = d.write.len() - c1.write.len();
        let k = d.write.len() - c.write.len();
        assert(k == k1 + 1);
        assert(d.write.take(c.write.len() as int) =~= c.write) by {
            assert(d.write.take(c1.write.len() as int) == c1.write);
            assert forall|j: int| 0 <= j < c.write.len() implies d.write[j] == c.write[j] by {
                assert(d.write.take(c1.write.len() as int)[j] == c1.write[j]);
            }
        }
        assert forall|j: int| 0 <= j < k implies Ok::<EventView, DeErrorView>(d.write[c.write.len() + j]) == #[trigger] c.at(j) by {
            if j == 0 {
                assert(d.write.take(c1.write.len() as int)[c.write.len() as int] == c1.write[c.write.len() as int]);
            } else {
                let j1 = j - 1;
                assert(Ok::<EventView, DeErrorView>(d.write[c1.write.len() + j1]) == c1.at(j1));
                assert(c.advance().at(j1) == c.at(j1 + 1));
            }
        }
        assert forall|i: int| 0 <= i implies #[trigger] d.at(i) == c.at(i + k) by {
            assert(d.at(i) == c1.at(i + k1));
            assert(c.advance().at(i + k1) == c.at(i + k1 + 1));
        }
    }
}

/// What a successful skip does: it appends to the buffer the events that the
/// next pulls would have returned, in their order, and leaves to the pulls
/// what follows them.
pub proof fn lemma_skip_moves_prefix(c: Cursor)
    requires
        c.skip().0 is Ok,
    ensures
        ({
            let d = c.skip().1;
            let k = d.write.len() - c.write.len();
            &&& d.overlapped == c.overlapped
            &&& d.limit == c.limit
            &&& k >= 1
            &&& d.write.take(c.write.len() as int) == c.write
            &&& forall|j: int| 0 <= j < k ==> Ok::<EventView, DeErrorView>(d.write[c.write.len() + j]) == #[trigger] c.at(j)
            &&& forall|i: int| 0 <= i ==> #[trigger] d.at(i) == c.at(i + k)
        }),
{
    lemma_advance_shifts(c);
    let e = c.head()->Ok_0;
    let c1 = c.advance().stored(e);
    lemma_stored_keeps_stream(c.advance(), e);
    let d = c.skip().1;
    match e {
        EventView::Start(tag) => {
            lemma_skip_subtree_moves_prefix(c1, tag.name, 0);
            let k1 = d.write.len() - c1.write.len();
            let k = d.write.len() - c.write.len();
            assert(d.write.take(c.write.len() as int) =~= c.write) by {
                assert(d.write.take(c1.write.len() as int) == c1.write);
                assert forall|j: int| 0 <= j < c.write.len() implies d.write[j] == c.write[j] by {
                    assert(d.write.take(c1.write.len() as int)[j] == c1.write[j]);
                }
            }
            assert forall|j: int| 0 <= j < k implies Ok::<EventView, DeErrorView>(d.write[c.write.len() + j]) == #[trigger] c.at(j) by {
                if j == 0 {
                    assert(d.write.take(c1.write.len() as int)[c.write.len() as int] == c1.write[c.write.len() as int]);
                } else {
                    let j1 = j - 1;
                    assert(Ok::<EventView, DeErrorView>(d.write[c1.write.len() + j1]) == c1.at(j1));
                    assert(c.advance().at(j1) == c.at(j1 + 1));
                }
            }
            assert forall|i: int| 0 <= i implies #[trigger] d.at(i) == c.at(i + k) by {
                assert(d.at(i) == c1.at(i + k1));
                assert(c.advance().at(i + k1) == c.at(i + k1 + 1));
            }
        },
        _ => {
            assert(d == c1);
            assert(d.write.take(c.write.len() as int) =~= c.write);
            assert forall|i: int| 0 <= i implies #[trigger] d.at(i) == c.at(i + 1) by {
                assert(c.advance().at(i) == c.at(i + 1));
            }
        },
    }
}

/// Skip, then replay: the pulls that follow return what had been skipped
/// before, then the events that this skip took, in the order of the
/// document, then what follows them in the source.  With nothing skipped
/// before, the pulls return what they would have returned without the skip.
pub proof fn lemma_skip_then_replay(c: Cursor)
    requires
        c.skip().0 is Ok,
    ensures
        ({
            let d = c.skip().1.replayed();
            &&& d.write.len() == 0
            &&& forall|i: int|
                0 <= i ==> #[trigger] d.at(i) == if i < c.write.len() {
                    Ok::<EventView, DeErrorView>(c.write[i])
                } else {
                    c.at(i - c.write.len())
                }
        }),
{
    lemma_skip_moves_prefix(c);
    let s = c.skip().1;
    let d = s.replayed();
    let k = s.write.len() - c.write.len();
    assert forall|i: int|
        0 <= i implies #[trigger] d.at(i) == if i < c.write.len() {
            Ok::<EventView, DeErrorView>(c.write[i])
        } else {
            c.at(i - c.write.len())
        } by {
        if i < c.write.len() {
            assert(s.write.take(c.write.len() as int)[i] == c.write[i]);
        } else if i < s.write.len() {
            let j = i - c.write.len();
            assert(Ok::<EventView, DeErrorView>(s.write[c.write.len() + j]) == c.at(j));
        } else {
            let j = i - s.write.len();
            assert(s.at(j) == c.at(j + k));
            if j < s.read.len() {
                assert((s.write + s.read)[i] == s.read[j]);
            }
        }
    }
}

/// What a bound on the buffer changes in the skip of the rest of an element
/// that succeeds without a bound: nothing while the buffer ends with at most
/// `n` events, and the skip fails with `TooManyEvents(n)` where it would end
/// with more.
pub proof fn lemma_bound_on_subtree(c: Cursor, n: usize, name: Seq<u8>, depth: nat)
    requires
        c.limit is None,
        c.skip_subtree(name, depth).0 is Ok,
    ensures
        ({
            let b = Cursor { limit: Some(n), ..c };
            let d = c.skip_subtree(name, depth).1;
            &&& d.write.len() <= n ==> b.skip_subtree(name, depth) == (
                Ok::<(), DeErrorView>(()),
                Cursor { limit: Some(n), ..d },
            )
            &&& d.write.len() > n ==> b.skip_subtree(name, depth).0 == Err::<(), DeErrorView>(
                DeErrorView::TooManyEvents(n),
            )
        }),
    decreases c.remaining(),
{
    lemma_skip_subtree_moves_prefix(c, name, depth);
    lemma_advance_shifts(c);
    let b = Cursor { limit: Some(n), ..c };
    let e = c.head()->Ok_0;
    let c1 = c.advance().stored(e);
    let b1 = b.advance().stored(e);
    assert(b1 == Cursor { limit: Some(n), ..c1 });
    let finished = closes(e, name) && depth == 0;
    if b.has_room() && !finished {
        let depth1: nat = if closes(e, name) {
            (depth - 1) as nat
        } else if opens(e, name) {
            depth + 1
        } else {
            depth
        };
        assert(c.skip_subtree(name, depth) == c1.skip_subtree(name, depth1));
        assert(b.skip_subtree(name, depth) == b1.skip_subtree(name, depth1));
        lemma_bound_on_subtree(c1, n, name, depth1);
    }
}

/// The bound on the buffer is exact.  Where a skip succeeds without a bound,
/// the same skip under the bound `n` does the same while the buffer ends
/// with at most `n` events, and fails with `TooManyEvents(n)` where it would
/// end with more.
pub proof fn lemma_bound_is_exact(c: Cursor, n: usize)
    requires
        c.limit is None,
        c.skip().0 is Ok,
    ensures
        ({
            let b = Cursor { limit: Some(n), ..c };
            let d = c.skip().1;
            &&& d.write.len() <= n ==> b.skip() == (
                Ok::<(), DeErrorView>(()),
                Cursor { limit: Some(n), ..d },
            )
            &&& d.write.len() > n ==> b.skip().0 == Err::<(), DeErrorView>(
                DeErrorView::TooManyEvents(n),
            )
        }),
{
    lemma_skip_moves_prefix(c);
    lemma_advance_shifts(c);
    let b = Cursor { limit: Some(n), ..c };
    let e = c.head()->Ok_0;
    let c1 = c.advance().stored(e);
    let b1 = b.advance().stored(e);
    assert(b1 == Cursor { limit: Some(n), ..c1 });
    if b.has_room() {
        if let EventView::Start(tag) = e {
            lemma_bound_on_subtree(c1, n, tag.name, 0);
        }
    }
}

/// What the pulls return once a replay has started: first what was
/// skipped, then what they would have returned without the replay.
pub proof fn lemma_replay_puts_skipped_first(c: Cursor)
    ensures
        c.replayed().write.len() == 0,
        forall|i: int|
            0 <= i ==> #[trigger] c.replayed().at(i) == if i < c.write.len() {
                Ok::<EventView, DeErrorView>(c.write[i])
            } else {
                c.at(i - c.write.len())
            },
{
    let d = c.replayed();
    assert forall|i: int|
        0 <= i implies #[trigger] d.at(i) == if i < c.write.len() {
            Ok::<EventView, DeErrorView>(c.write[i])
        } else {
            c.at(i - c.write.len())
        } by {
        if i >= c.write.len() && i - c.write.len() < c.read.len() {
            assert((c.write + c.read)[i] == c.read[i - c.write.len()]);
        }
    }
}

/// A skip that succeeds loses no event: had a replay started before the
/// skip, the pulls would have returned what they return when it starts
/// after the skip.
pub proof fn lemma_skip_loses_nothing(c: Cursor)
    requires
        c.skip().0 is Ok,
    ensures
        forall|i: int| 0 <= i ==> #[trigger] c.skip().1.replayed().at(i) == c.replayed().at(i),
{
    lemma_skip_then_replay(c);
    lemma_replay_puts_skipped_first(c);
}

/// A search for the next item of a sequence that ends without an error
/// loses no event, however many elements it skips: had a replay started
/// before the search, the pulls would have returned what they return when
/// it starts after the search.
pub proof fn lemma_search_loses_nothing(c: Cursor, filter: Filter, parent: Option<Seq<u8>>)
    requires
        c.seq_next(filter, parent).0 is Ok,
    ensures
        c.seq_next(filter, parent).1.overlapped == c.overlapped,
        forall|i: int|
            0 <= i ==> #[trigger] c.seq_next(filter, parent).1.replayed().at(i) == c.replayed().at(
                i,
            ),
    decreases c.remaining(),
{
    let f = c.filled();
    let d = c.seq_next(filter, parent).1;
    lemma_peek_takes_nothing(c);
    lemma_replay_puts_skipped_first(c);
    lemma_replay_puts_skipped_first(f);
    assert forall|i: int| 0 <= i implies #[trigger] f.replayed().at(i) == c.replayed().at(i) by {
        if i >= c.write.len() {
            assert(f.at(i - c.write.len()) == c.at(i - c.write.len()));
        }
    }
    if d != f {
        let d1 = f.skip().1;
        lemma_skip_loses_nothing(f);
        lemma_skip_moves_prefix(f);
        if d != d1 {
            lemma_search_loses_nothing(d1, filter, parent);
            assert forall|i: int| 0 <= i implies #[trigger] d.replayed().at(i) == c.replayed().at(
                i,
            ) by {
                assert(d.replayed().at(i) == d1.replayed().at(i));
                assert(d1.replayed().at(i) == f.replayed().at(i));
            }
        } else {
            assert forall|i: int| 0 <= i implies #[trigger] d.replayed().at(i) == c.replayed().at(
                i,
            ) by {
                assert(d1.replayed().at(i) == f.replayed().at(i));
            }
        }
    }
}

/// To discard with one more element of the name open is to discard twice:
/// first up to the end tag of the inner element, then up to the end tag of
/// the outer one.
pub proof fn lemma_drain_one_level_deeper(s: Seq<Pull>, name: Seq<u8>, depth: nat)
    ensures
        drain(s, name, depth + 1) == ({
            let (r, t) = drain(s, name, depth);
            if r is Ok {
                drain(t, name, 0)
            } else {
                (r, t)
            }
        }),
    decreases s.len(),
{
    if s.len() > 0 {
        if let Ok(e) = s[0] {
            if e != EventView::Eof {
                if closes(e, name) {
                    if depth > 0 {
                        lemma_drain_one_level_deeper(s.skip(1), name, (depth - 1) as nat);
                    }
                } else if opens(e, name) {
                    lemma_drain_one_level_deeper(s.skip(1), name, depth + 1);
                } else {
                    lemma_drain_one_level_deeper(s.skip(1), name, depth);
                }
            }
        }
    }
}

} // verus!
