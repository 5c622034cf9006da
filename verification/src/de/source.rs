//! From the tokenizer's events to the events that decoding sees: comments,
//! processing instructions, declarations and unexpanded empty-element tags
//! are passed over.
use crate::bytes::bytes_eq;
use crate::de::model::{drain, first, rest, while_discarding, EventView, Pull};
use crate::de::{done, pulled, DeEvent};
use crate::errors::{DeError, DeErrorView, Error, ErrorView};
use crate::events::{Event, Markup};
use crate::name::QName;
use crate::reader::{measure, step, Config, Lex, Tokenizer};
use vstd::prelude::*;

verus! {

/// The event that decoding sees in `m`, if any.
pub open spec fn content(m: Markup) -> Option<EventView> {
    match m {
        Markup::Start(tag) => Some(EventView::Start(tag)),
        Markup::End(name) => Some(EventView::End(name)),
        Markup::Text(text) => Some(EventView::Text(text)),
        Markup::CData(text) => Some(EventView::CData(text)),
        _ => None,
    }
}

/// What the pulls on a source over `input` yield from the state `st` on,
/// before the input ends.  An error of the tokenizer is the last of them.
///
/// That a step makes the measure smaller is asked so that the definition
/// ends; the tokenizer is shown to do so with every event that it reads.
pub open spec fn events(input: Seq<u8>, cfg: Config, st: Lex) -> Seq<Pull>
    decreases measure(input, st),
{
    let (r, next) = step(input, cfg, st);
    if r == Ok::<Markup, ErrorView>(Markup::Eof) || measure(input, next) >= measure(input, st) {
        Seq::empty()
    } else {
        let later = events(input, cfg, next);
        match r {
            Err(e) => seq![Err(DeErrorView::InvalidXml(e))] + later,
            Ok(m) => match content(m) {
                Some(e) => seq![Ok(e)] + later,
                None => later,
            },
        }
    }
}

/// What one step of the tokenizer takes from what is to come: nothing where
/// it yields what decoding does not see, and the first of it otherwise.  At
/// the end of the input nothing is to come, before the step and after it.
pub proof fn lemma_step_takes_the_first(input: Seq<u8>, cfg: Config, st: Lex)
    requires
        step(input, cfg, st).0 != Ok::<Markup, ErrorView>(Markup::Eof) ==> measure(
            input,
            step(input, cfg, st).1,
        ) < measure(input, st),
        step(input, cfg, st).0 == Ok::<Markup, ErrorView>(Markup::Eof) ==> step(
            input,
            cfg,
            st,
        ).1.pos == input.len() && step(input, cfg, st).1.pending is None,
    ensures
        ({
            let (r, next) = step(input, cfg, st);
            let now = events(input, cfg, st);
            let later = events(input, cfg, next);
            match r {
                Err(e) => first(now) == Err::<EventView, DeErrorView>(DeErrorView::InvalidXml(e))
                    && rest(now) == later,
                Ok(Markup::Eof) => now.len() == 0 && later.len() == 0,
                Ok(m) => match content(m) {
                    Some(e) => first(now) == Ok::<EventView, DeErrorView>(e) && rest(now) == later,
                    None => now == later,
                },
            }
        }),
{
    let (r, next) = step(input, cfg, st);
    let later = events(input, cfg, next);
    match r {
        Err(e) => {
            assert((seq![Err::<EventView, DeErrorView>(DeErrorView::InvalidXml(e))]
                + later).skip(1) =~= later);
        },
        Ok(Markup::Eof) => {
            assert(step(input, cfg, next).0 == Ok::<Markup, ErrorView>(Markup::Eof)) by {
                reveal_with_fuel(crate::scan::skip_spaces, 1);
            }
        },
        Ok(m) => {
            if let Some(e) = content(m) {
                assert((seq![Ok::<EventView, DeErrorView>(e)] + later).skip(1) =~= later);
            }
        },
    }
}

/// The end of the input is not among what is to come: it is what the pulls
/// yield when nothing is to come.
pub proof fn lemma_events_hold_no_end_of_input(input: Seq<u8>, cfg: Config, st: Lex)
    ensures
        forall|i: int|
            0 <= i < events(input, cfg, st).len() ==> #[trigger] events(input, cfg, st)[i] != Ok::<
                EventView,
                DeErrorView,
            >(EventView::Eof),
    decreases measure(input, st),
{
    let (r, next) = step(input, cfg, st);
    if !(r == Ok::<Markup, ErrorView>(Markup::Eof) || measure(input, next) >= measure(input, st)) {
        lemma_events_hold_no_end_of_input(input, cfg, next);
    }
}

/// Pulls the next event that decoding sees.
pub(crate) fn next_event<'a>(tokenizer: &mut Tokenizer, input: &'a [u8]) -> (r: Result<
    DeEvent<'a>,
    DeError,
>)
    requires
        old(tokenizer).wf(input@),
    ensures
        final(tokenizer).wf(input@),
        final(tokenizer).config() == old(tokenizer).config(),
        pulled(r) == first(events(input@, old(tokenizer).config(), old(tokenizer).lex(input@))),
        events(input@, final(tokenizer).config(), final(tokenizer).lex(input@)) == rest(
            events(input@, old(tokenizer).config(), old(tokenizer).lex(input@)),
        ),
        r matches Ok(e) ==> e.is_borrowed(),
{
    let ghost cfg = tokenizer.config();
    let ghost all = events(input@, cfg, tokenizer.lex(input@));
    loop
        invariant
            tokenizer.wf(input@),
            tokenizer.config() == cfg,
            cfg == old(tokenizer).config(),
            all == events(input@, cfg, old(tokenizer).lex(input@)),
            events(input@, cfg, tokenizer.lex(input@)) == all,
        decreases measure(input@, tokenizer.lex(input@)),
    {
        let ghost before = tokenizer.lex(input@);
        let event = match tokenizer.read_event(input) {
            Ok(event) => event,
            Err(e) => {
                proof {
                    lemma_step_takes_the_first(input@, cfg, before);
                }
                return Err(DeError::InvalidXml(e));
            },
        };
        proof {
            lemma_step_takes_the_first(input@, cfg, before);
        }
        match event {
            Event::Start(e) => return Ok(DeEvent::Start(e)),
            Event::End(e) => return Ok(DeEvent::End(e)),
            Event::Text(e) => return Ok(DeEvent::Text(e)),
            Event::CData(e) => return Ok(DeEvent::CData(e)),
            Event::Eof => return Ok(DeEvent::Eof),
            _ => (),
        }
    }
}

/// The error that a source reports when the tokenizer fails with `e` while
/// events are discarded.
pub(crate) fn error_while_discarding(e: Error) -> (r: DeError)
    ensures
        r@ == while_discarding(DeErrorView::InvalidXml(e@)),
{
    match e {
        Error::UnexpectedEof(_) => DeError::UnexpectedEof,
        e => DeError::InvalidXml(e),
    }
}

/// Discards events up to and including the end tag that closes the element
/// `name`.  No event is copied on the way.
pub(crate) fn discard_to_end(tokenizer: &mut Tokenizer, input: &[u8], name: QName) -> (r: Result<
    (),
    DeError,
>)
    requires
        old(tokenizer).wf(input@),
    ensures
        final(tokenizer).wf(input@),
        final(tokenizer).config() == old(tokenizer).config(),
        done(r) == drain(
            events(input@, old(tokenizer).config(), old(tokenizer).lex(input@)),
            name@,
            0,
        ).0,
        events(input@, final(tokenizer).config(), final(tokenizer).lex(input@)) == drain(
            events(input@, old(tokenizer).config(), old(tokenizer).lex(input@)),
            name@,
            0,
        ).1,
{
    let ghost cfg = tokenizer.config();
    let ghost all = events(input@, cfg, tokenizer.lex(input@));
    let mut depth: usize = 0;
    proof {
        tokenizer.lemma_position_in_input(input@);
        assert(input@.len() == input.len());
    }
    loop
        invariant
            tokenizer.wf(input@),
            tokenizer.config() == cfg,
            cfg == old(tokenizer).config(),
            all == events(input@, cfg, old(tokenizer).lex(input@)),
            0 <= depth <= tokenizer.lex(input@).pos - old(tokenizer).lex(input@).pos,
            0 <= old(tokenizer).lex(input@).pos,
            tokenizer.lex(input@).pos <= input@.len() <= usize::MAX,
            drain(all, name@, 0) == drain(
                events(input@, cfg, tokenizer.lex(input@)),
                name@,
                depth as nat,
            ),
        decreases measure(input@, tokenizer.lex(input@)),
    {
        let ghost before = tokenizer.lex(input@);
        let event = match tokenizer.read_event(input) {
            Ok(event) => event,
            Err(e) => {
                proof {
                    lemma_step_takes_the_first(input@, cfg, before);
                }
                return Err(error_while_discarding(e));
            },
        };
        proof {
            lemma_step_takes_the_first(input@, cfg, before);
        }
        match event {
            Event::Start(e) => {
                if bytes_eq(e.name().into_inner(), name.into_inner()) {
                    depth += 1;
                }
            },
            Event::End(e) => {
                if bytes_eq(e.name().into_inner(), name.into_inner()) {
                    if depth == 0 {
                        return Ok(());
                    }
                    depth -= 1;
                }
            },
            Event::Eof => return Err(DeError::UnexpectedEof),
            _ => (),
        }
    }
}

} // verus!
