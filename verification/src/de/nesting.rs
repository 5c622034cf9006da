//! Elements nest: what that means for a stream of events, that the sources
//! of this crate yield such streams, and what discarding does on them.
use crate::de::model::{drain, EventView, Pull};
use crate::de::source::{content, events};
use crate::errors::{DeErrorView, ErrorView};
use crate::events::Markup;
use crate::reader::{measure, step, Config, Lex};
use vstd::prelude::*;

verus! {

/// Whether the results `s` nest inside the open elements `stack`, the
/// innermost last: whether each end tag closes the innermost element that
/// is open.  What follows an error is not asked.
pub open spec fn nested(s: Seq<Pull>, stack: Seq<Seq<u8>>) -> bool
    decreases s.len(),
{
    if s.len() == 0 {
        true
    } else {
        match s[0] {
            Err(_) => true,
            Ok(EventView::Start(tag)) => nested(s.skip(1), stack.push(tag.name)),
            Ok(EventView::End(name)) => stack.len() > 0 && stack.last() == name && nested(
                s.skip(1),
                stack.drop_last(),
            ),
            Ok(_) => nested(s.skip(1), stack),
        }
    }
}

/// How many of the open elements `stack` are named `name`.
pub open spec fn count(stack: Seq<Seq<u8>>, name: Seq<u8>) -> nat
    decreases stack.len(),
{
    if stack.len() == 0 {
        0
    } else if stack.last() == name {
        count(stack.drop_last(), name) + 1
    } else {
        count(stack.drop_last(), name)
    }
}

/// The elements that are open for a tokenizer in the state `st`: those
/// whose start tag it has yielded and whose end tag is still to come.
pub open spec fn open_elements(st: Lex) -> Seq<Seq<u8>> {
    match st.pending {
        Some(name) => st.opened.push(name),
        None => st.opened,
    }
}

/// A tokenizer that checks the names of end tags yields events that nest.
pub proof fn lemma_checked_events_nest(input: Seq<u8>, cfg: Config, st: Lex)
    requires
        cfg.check_end_names,
    ensures
        nested(events(input, cfg, st), open_elements(st)),
    decreases measure(input, st),
{
    let (r, next) = step(input, cfg, st);
    if !(r == Ok::<Markup, ErrorView>(Markup::Eof) || measure(input, next) >= measure(input, st)) {
        lemma_checked_events_nest(input, cfg, next);
        let later = events(input, cfg, next);
        if let Ok(m) = r {
            if let Some(e) = content(m) {
                let all = seq![Ok::<EventView, DeErrorView>(e)] + later;
                assert(all.skip(1) =~= later);
                assert(all[0] == Ok::<EventView, DeErrorView>(e));
                match e {
                    EventView::Start(tag) => {
                        assert(open_elements(next) == open_elements(st).push(tag.name));
                    },
                    EventView::End(name) => {
                        assert(open_elements(st).len() > 0);
                        assert(open_elements(st).last() == name);
                        assert(open_elements(next) =~= open_elements(st).drop_last());
                    },
                    _ => {
                        assert(open_elements(next) == open_elements(st));
                    },
                }
            } else {
                assert(open_elements(next) == open_elements(st));
            }
        }
    }
}

/// To discard up to the end tag of an element passes over the elements
/// inside it.  In events that nest inside the element `m` and the elements
/// `inner` that are open inside `m`, to discard up to the end tag of `m`
/// and then up to an end tag of another name `n` is to discard up to that
/// end tag of `n` at once; and where the first fails, the second fails
/// alike.
pub proof fn lemma_drain_passes_over_element(
    t: Seq<Pull>,
    base: Seq<Seq<u8>>,
    m: Seq<u8>,
    inner: Seq<Seq<u8>>,
    n: Seq<u8>,
    d: nat,
)
    requires
        nested(t, base.push(m) + inner),
        n != m,
    ensures
        ({
            let (rm, tm) = drain(t, m, count(inner, m));
            let (rn, tn) = drain(t, n, d + count(inner, n));
            &&& rm is Ok ==> (rn, tn) == drain(tm, n, d)
            &&& rm is Err ==> rn == rm && tn == tm
        }),
    decreases t.len(),
{
    let stack = base.push(m) + inner;
    if t.len() > 0 {
        match t[0] {
            Ok(EventView::Start(tag)) => {
                let deeper = inner.push(tag.name);
                assert(stack.push(tag.name) =~= base.push(m) + deeper);
                assert(deeper.drop_last() =~= inner);
                lemma_drain_passes_over_element(t.skip(1), base, m, deeper, n, d);
            },
            Ok(EventView::End(name)) => {
                if inner.len() > 0 {
                    assert(stack.last() == inner.last());
                    assert(stack.drop_last() =~= base.push(m) + inner.drop_last());
                    lemma_drain_passes_over_element(t.skip(1), base, m, inner.drop_last(), n, d);
                } else {
                    assert(stack.last() == m);
                }
            },
            Ok(EventView::Eof) => {},
            Ok(_) => {
                lemma_drain_passes_over_element(t.skip(1), base, m, inner, n, d);
            },
            Err(_) => {},
        }
    }
}

} // verus!
