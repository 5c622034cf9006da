//! The tokenizer: from the bytes of a document to its events.
//!
//! The tokenizer holds no input.  It keeps a position, and each call is
//! handed the whole input again, so that one tokenizer serves a source that
//! borrows its input and one that owns it.
use crate::decoder::{lossy, Decoder};
use crate::errors::{Error, ErrorView, Syntax};
use crate::events::{BytesCData, BytesEnd, BytesStart, BytesText, Event, Markup, Tag};
use crate::scan::{
    doctype_close, doctype_close_from, find_byte, find_byte_from, find_pair, find_pair_from,
    find_triple, find_triple_from, has_at, has_pattern_at, name_end, name_end_in, skip_spaces,
    skip_spaces_from, tag_close, tag_close_from, trim_end, trim_end_in,
};
use vstd::prelude::*;
use vstd::slice::slice_subrange;

verus! {

/// How the tokenizer reads.
#[derive(Clone, Copy, Debug, PartialEq, Eq, Structural)]
pub struct Config {
    /// Whether an empty-element tag is given as a start tag followed by an
    /// end tag.
    pub expand_empty_elements: bool,
    /// Whether the white space at both ends of a text is dropped, and with
    /// it a text of white space alone.
    pub trim_text: bool,
    /// Whether an end tag has to name the innermost open element.
    pub check_end_names: bool,
}

impl Config {
    /// The settings of a plain tokenizer.
    pub open spec fn plain() -> Config {
        Config { expand_empty_elements: false, trim_text: false, check_end_names: true }
    }

    /// The settings under which values are decoded.
    pub open spec fn for_decoding() -> Config {
        Config { expand_empty_elements: true, trim_text: true, check_end_names: true }
    }

    /// The settings of a plain tokenizer: empty-element tags stay as they
    /// are, text keeps its white space, end tags are checked.
    #[verifier::when_used_as_spec(plain)]
    pub fn new() -> (r: Config)
        ensures
            r == Config::plain(),
    {
        Config { expand_empty_elements: false, trim_text: false, check_end_names: true }
    }

    /// The settings under which values are decoded: empty-element tags are
    /// expanded, text is trimmed, end tags are checked.
    #[verifier::when_used_as_spec(for_decoding)]
    pub fn decoding() -> (r: Config)
        ensures
            r == Config::for_decoding(),
    {
        Config { expand_empty_elements: true, trim_text: true, check_end_names: true }
    }
}

/// The state of the tokenizer over an input.
pub struct Lex {
    /// How many bytes of the input are used up.
    pub pos: int,
    /// The name of an expanded empty element whose end tag comes next.
    pub pending: Option<Seq<u8>>,
    /// The names of the elements that are open, the innermost last.  It is
    /// kept only where end tags are checked.
    pub opened: Seq<Seq<u8>>,
}

/// `--`, which follows `<!` in a comment.
pub open spec fn comment_open() -> Seq<u8> {
    seq![0x2du8, 0x2du8]
}

/// `[CDATA[`, which follows `<!` in a character data section.
pub open spec fn cdata_open() -> Seq<u8> {
    seq![0x5bu8, 0x43u8, 0x44u8, 0x41u8, 0x54u8, 0x41u8, 0x5bu8]
}

/// `DOCTYPE`, which follows `<!` in a document type declaration.
pub open spec fn doctype_upper() -> Seq<u8> {
    seq![0x44u8, 0x4fu8, 0x43u8, 0x54u8, 0x59u8, 0x50u8, 0x45u8]
}

/// `doctype`, the same word in small letters.
pub open spec fn doctype_lower() -> Seq<u8> {
    seq![0x64u8, 0x6fu8, 0x63u8, 0x74u8, 0x79u8, 0x70u8, 0x65u8]
}

/// The state after an error: the rest of the input is given up.
pub open spec fn given_up(input: Seq<u8>, st: Lex) -> Lex {
    Lex { pos: input.len() as int, pending: None, opened: st.opened }
}

/// The tag whose content is `input[from, to)`: the name ends at the first
/// white space.
pub open spec fn tag_in(input: Seq<u8>, from: int, to: int) -> Tag {
    let n = name_end(input, from, to);
    Tag { name: input.subrange(from, n), attributes: input.subrange(n, to) }
}

/// Reads the text that starts at `p`: it ends before the next `<`.
pub open spec fn step_text(input: Seq<u8>, cfg: Config, st: Lex, p: int) -> (
    Result<Markup, ErrorView>,
    Lex,
) {
    let q = find_byte(input, p, 0x3c);
    let e = if cfg.trim_text {
        trim_end(input, p, q)
    } else {
        q
    };
    (Ok(Markup::Text(input.subrange(p, e))), Lex { pos: q, ..st })
}

/// Reads the end tag that starts with `</` at `p`.  The name is what stands
/// before the `>`, without white space at its end.  Where end tags are
/// checked, the name has to be that of the innermost open element.
pub open spec fn step_end(input: Seq<u8>, cfg: Config, st: Lex, p: int) -> (
    Result<Markup, ErrorView>,
    Lex,
) {
    let q = find_byte(input, p + 2, 0x3e);
    if q >= input.len() {
        (Err(ErrorView::UnexpectedEof(Syntax::Element)), given_up(input, st))
    } else {
        let name = input.subrange(p + 2, trim_end(input, p + 2, q));
        if !cfg.check_end_names {
            (Ok(Markup::End(name)), Lex { pos: q + 1, ..st })
        } else if st.opened.len() == 0 {
            (
                Err(ErrorView::EndEventMismatch { expected: Seq::empty(), found: lossy(name) }),
                given_up(input, st),
            )
        } else if st.opened.last() != name {
            (
                Err(
                    ErrorView::EndEventMismatch {
                        expected: lossy(st.opened.last()),
                        found: lossy(name),
                    },
                ),
                given_up(input, st),
            )
        } else {
            (Ok(Markup::End(name)), Lex { pos: q + 1, opened: st.opened.drop_last(), ..st })
        }
    }
}

/// Reads the construct that starts with `<!` at `p`: a comment up to `-->`,
/// a character data section up to `]]>`, or a document type declaration up
/// to the `>` that closes it.
pub open spec fn step_bang(input: Seq<u8>, st: Lex, p: int) -> (Result<Markup, ErrorView>, Lex) {
    if has_at(input, p + 2, comment_open()) {
        let q = find_triple(input, p + 4, 0x2d, 0x2d, 0x3e);
        if q >= input.len() {
            (Err(ErrorView::UnexpectedEof(Syntax::Comment)), given_up(input, st))
        } else {
            (Ok(Markup::Comment(input.subrange(p + 4, q))), Lex { pos: q + 3, ..st })
        }
    } else if has_at(input, p + 2, cdata_open()) {
        let q = find_triple(input, p + 9, 0x5d, 0x5d, 0x3e);
        if q >= input.len() {
            (Err(ErrorView::UnexpectedEof(Syntax::CData)), given_up(input, st))
        } else {
            (Ok(Markup::CData(input.subrange(p + 9, q))), Lex { pos: q + 3, ..st })
        }
    } else if has_at(input, p + 2, doctype_upper()) || has_at(input, p + 2, doctype_lower()) {
        let q = doctype_close(input, p + 9, 0);
        if q >= input.len() {
            (Err(ErrorView::UnexpectedEof(Syntax::DocType)), given_up(input, st))
        } else {
            (Ok(Markup::DocType(input.subrange(p + 9, q))), Lex { pos: q + 1, ..st })
        }
    } else if p + 2 >= input.len() {
        (Err(ErrorView::UnexpectedEof(Syntax::Element)), given_up(input, st))
    } else {
        (Err(ErrorView::UnexpectedBang(input[p + 2])), given_up(input, st))
    }
}

/// Reads the processing instruction or declaration that starts with `<?` at
/// `p`: it ends with the next `?>`.
pub open spec fn step_instruction(input: Seq<u8>, st: Lex, p: int) -> (
    Result<Markup, ErrorView>,
    Lex,
) {
    let q = find_pair(input, p + 2, 0x3f, 0x3e);
    if q >= input.len() {
        (Err(ErrorView::UnexpectedEof(Syntax::Instruction)), given_up(input, st))
    } else {
        (Ok(Markup::PI(input.subrange(p + 2, q))), Lex { pos: q + 2, ..st })
    }
}

/// Reads the start tag or empty-element tag that starts with `<` at `p`: it
/// ends with the next `>` outside a quoted attribute value; a `/` just
/// before that marks an empty element.
pub open spec fn step_element(input: Seq<u8>, cfg: Config, st: Lex, p: int) -> (
    Result<Markup, ErrorView>,
    Lex,
) {
    let q = tag_close(input, p + 1, None);
    if q >= input.len() {
        (Err(ErrorView::UnexpectedEof(Syntax::Element)), given_up(input, st))
    } else if q > p + 1 && input[q - 1] == 0x2f {
        let tag = tag_in(input, p + 1, q - 1);
        if cfg.expand_empty_elements {
            (Ok(Markup::Start(tag)), Lex { pos: q + 1, pending: Some(tag.name), ..st })
        } else {
            (Ok(Markup::Empty(tag)), Lex { pos: q + 1, ..st })
        }
    } else {
        let tag = tag_in(input, p + 1, q);
        if cfg.check_end_names {
            (Ok(Markup::Start(tag)), Lex { pos: q + 1, opened: st.opened.push(tag.name), ..st })
        } else {
            (Ok(Markup::Start(tag)), Lex { pos: q + 1, ..st })
        }
    }
}

/// Reads one event: what the tokenizer in state `st` yields next over
/// `input`, and its state afterwards.
///
/// The end tag of an expanded empty element comes first where one is due.
/// Then, where text is trimmed, white space is passed over.  At the end of
/// the input the event is `Eof`.  A `<` starts markup, told apart by the
/// byte that follows it; anything else starts text.  After an error the
/// rest of the input is given up.
pub open spec fn step(input: Seq<u8>, cfg: Config, st: Lex) -> (Result<Markup, ErrorView>, Lex) {
    match st.pending {
        Some(name) => (Ok(Markup::End(name)), Lex { pending: None, ..st }),
        None => {
            let p = if cfg.trim_text {
                skip_spaces(input, st.pos)
            } else {
                st.pos
            };
            if p >= input.len() {
                (Ok(Markup::Eof), Lex { pos: p, ..st })
            } else if input[p] != 0x3c {
                step_text(input, cfg, st, p)
            } else if p + 1 >= input.len() {
                (Err(ErrorView::UnexpectedEof(Syntax::Element)), given_up(input, st))
            } else if input[p + 1] == 0x21 {
                step_bang(input, st, p)
            } else if input[p + 1] == 0x2f {
                step_end(input, cfg, st, p)
            } else if input[p + 1] == 0x3f {
                step_instruction(input, st, p)
            } else {
                step_element(input, cfg, st, p)
            }
        },
    }
}

/// A number that every step but one at the end of the input makes smaller.
pub open spec fn measure(input: Seq<u8>, st: Lex) -> nat {
    let left = if st.pos <= input.len() {
        input.len() - st.pos
    } else {
        0
    };
    let due: int = if st.pending is Some {
        1
    } else {
        0
    };
    (2 * left + due) as nat
}

/// The mathematical content of what the tokenizer returns.
pub open spec fn raw<'a>(r: Result<Event<'a>, Error>) -> Result<Markup, ErrorView> {
    match r {
        Ok(e) => Ok(e@),
        Err(e) => Err(e@),
    }
}

/// The tokenizer's state.
pub struct Tokenizer {
    config: Config,
    pos: usize,
    pending: Option<(usize, usize)>,
    opened: Vec<(usize, usize)>,
}

impl Tokenizer {
    /// How the tokenizer reads.
    pub closed spec fn config(&self) -> Config {
        self.config
    }

    /// Whether the tokenizer's state fits `input`.
    pub closed spec fn wf(&self, input: Seq<u8>) -> bool {
        &&& self.pos <= input.len()
        &&& self.pending matches Some(r) ==> r.0 <= r.1 <= input.len()
        &&& forall|i: int|
            0 <= i < self.opened@.len() ==> (#[trigger] self.opened@[i]).0 <= self.opened@[i].1
                <= input.len()
    }

    /// The state over `input`.
    pub closed spec fn lex(&self, input: Seq<u8>) -> Lex {
        Lex {
            pos: self.pos as int,
            pending: match self.pending {
                Some(r) => Some(input.subrange(r.0 as int, r.1 as int)),
                None => None,
            },
            opened: Seq::new(
                self.opened@.len(),
                |i: int| input.subrange(self.opened@[i].0 as int, self.opened@[i].1 as int),
            ),
        }
    }

    /// The position of a tokenizer that fits an input lies in the input.
    pub proof fn lemma_position_in_input(&self, input: Seq<u8>)
        requires
            self.wf(input),
        ensures
            0 <= self.lex(input).pos <= input.len(),
    {
    }

    /// A tokenizer at the start of any input.
    pub fn new(config: Config) -> (r: Tokenizer)
        ensures
            r.config() == config,
            forall|input: Seq<u8>| #[trigger] r.wf(input),
            forall|input: Seq<u8>|
                #[trigger] r.lex(input) == (Lex { pos: 0, pending: None, opened: Seq::empty() }),
    {
        let r = Tokenizer { config, pos: 0, pending: None, opened: Vec::new() };
        assert forall|input: Seq<u8>|
            #[trigger] r.lex(input) == (Lex { pos: 0, pending: None, opened: Seq::empty() }) by {
            assert(r.lex(input).opened =~= Seq::<Seq<u8>>::empty());
        }
        r
    }

    /// Gives up the rest of the input.
    fn give_up(&mut self, input: &[u8])
        requires
            old(self).wf(input@),
        ensures
            final(self).wf(input@),
            final(self).config() == old(self).config(),
            final(self).lex(input@) == given_up(input@, old(self).lex(input@)),
    {
        self.pos = input.len();
        self.pending = None;
    }

    /// Reads the text that starts at `p`.
    fn read_text<'a>(&mut self, input: &'a [u8], p: usize) -> (r: Result<Event<'a>, Error>)
        requires
            old(self).wf(input@),
            p < input@.len(),
            input@[p as int] != 0x3c,
        ensures
            final(self).wf(input@),
            final(self).config() == old(self).config(),
            raw(r) == step_text(input@, old(self).config(), old(self).lex(input@), p as int).0,
            final(self).lex(input@) == step_text(
                input@,
                old(self).config(),
                old(self).lex(input@),
                p as int,
            ).1,
            final(self).lex(input@).pos > p,
            r matches Ok(e) ==> e.is_borrowed(),
    {
        let q = find_byte_from(input, p, 0x3c);
        let e = if self.config.trim_text {
            trim_end_in(input, p, q)
        } else {
            q
        };
        self.pos = q;
        Ok(Event::Text(BytesText::from_escaped(slice_subrange(input, p, e))))
    }

    /// Reads the end tag that starts at `p`.
    fn read_end<'a>(&mut self, input: &'a [u8], p: usize) -> (r: Result<Event<'a>, Error>)
        requires
            old(self).wf(input@),
            p + 1 < input@.len(),
        ensures
            final(self).wf(input@),
            final(self).config() == old(self).config(),
            raw(r) == step_end(input@, old(self).config(), old(self).lex(input@), p as int).0,
            final(self).lex(input@) == step_end(
                input@,
                old(self).config(),
                old(self).lex(input@),
                p as int,
            ).1,
            final(self).lex(input@).pos > p,
            r matches Ok(e) ==> e.is_borrowed(),
    {
        let len = input.len();
        let q = find_byte_from(input, p + 2, 0x3e);
        if q >= len {
            self.give_up(input);
            return Err(Error::UnexpectedEof(Syntax::Element));
        }
        let e = trim_end_in(input, p + 2, q);
        let name = slice_subrange(input, p + 2, e);
        if !self.config.check_end_names {
            self.pos = q + 1;
            return Ok(Event::End(BytesEnd::borrowed(name)));
        }
        let decoder = Decoder {  };
        match self.opened.pop() {
            None => {
                assert(old(self).lex(input@).opened.len() == 0);
                self.give_up(input);
                Err(
                    Error::EndEventMismatch {
                        expected: String::new(),
                        found: decoder.decode_lossy(name),
                    },
                )
            },
            Some((a, b)) => {
                let ghost before = old(self).lex(input@).opened;
                assert(before.last() == input@.subrange(a as int, b as int));
                assert(self.lex(input@).opened =~= before.drop_last());
                let expected = slice_subrange(input, a, b);
                if crate::bytes::bytes_eq(expected, name) {
                    self.pos = q + 1;
                    Ok(Event::End(BytesEnd::borrowed(name)))
                } else {
                    self.opened.push((a, b));
                    assert(self.opened@ =~= old(self).opened@);
                    self.give_up(input);
                    Err(
                        Error::EndEventMismatch {
                            expected: decoder.decode_lossy(expected),
                            found: decoder.decode_lossy(name),
                        },
                    )
                }
            },
        }
    }

    /// Reads the comment, character data section or document type
    /// declaration that starts at `p`.
    fn read_bang<'a>(&mut self, input: &'a [u8], p: usize) -> (r: Result<Event<'a>, Error>)
        requires
            old(self).wf(input@),
            p + 1 < input@.len(),
        ensures
            final(self).wf(input@),
            final(self).config() == old(self).config(),
            raw(r) == step_bang(input@, old(self).lex(input@), p as int).0,
            final(self).lex(input@) == step_bang(input@, old(self).lex(input@), p as int).1,
            final(self).lex(input@).pos > p,
            r matches Ok(e) ==> e.is_borrowed(),
    {
        let len = input.len();
        let dashes: [u8; 2] = [0x2d, 0x2d];
        let cdata: [u8; 7] = [0x5b, 0x43, 0x44, 0x41, 0x54, 0x41, 0x5b];
        let upper: [u8; 7] = [0x44, 0x4f, 0x43, 0x54, 0x59, 0x50, 0x45];
        let lower: [u8; 7] = [0x64, 0x6f, 0x63, 0x74, 0x79, 0x70, 0x65];
        assert(dashes@ =~= comment_open());
        assert(cdata@ =~= cdata_open());
        assert(upper@ =~= doctype_upper());
        assert(lower@ =~= doctype_lower());
        if has_pattern_at(input, p + 2, dashes.as_slice()) {
            let q = find_triple_from(input, p + 4, 0x2d, 0x2d, 0x3e);
            if q >= input.len() {
                self.give_up(input);
                return Err(Error::UnexpectedEof(Syntax::Comment));
            }
            self.pos = q + 3;
            Ok(Event::Comment(BytesText::from_escaped(slice_subrange(input, p + 4, q))))
        } else if has_pattern_at(input, p + 2, cdata.as_slice()) {
            let q = find_triple_from(input, p + 9, 0x5d, 0x5d, 0x3e);
            if q >= input.len() {
                self.give_up(input);
                return Err(Error::UnexpectedEof(Syntax::CData));
            }
            self.pos = q + 3;
            Ok(
                Event::CData(
                    BytesCData::new(std::borrow::Cow::Borrowed(slice_subrange(input, p + 9, q))),
                ),
            )
        } else if has_pattern_at(input, p + 2, upper.as_slice()) || has_pattern_at(
            input,
            p + 2,
            lower.as_slice(),
        ) {
            let q = doctype_close_from(input, p + 9);
            if q >= input.len() {
                self.give_up(input);
                return Err(Error::UnexpectedEof(Syntax::DocType));
            }
            self.pos = q + 1;
            Ok(Event::DocType(BytesText::from_escaped(slice_subrange(input, p + 9, q))))
        } else if p + 2 >= input.len() {
            self.give_up(input);
            Err(Error::UnexpectedEof(Syntax::Element))
        } else {
            let b = input[p + 2];
            self.give_up(input);
            Err(Error::UnexpectedBang(b))
        }
    }

    /// Reads the processing instruction or declaration that starts at `p`.
    fn read_instruction<'a>(&mut self, input: &'a [u8], p: usize) -> (r: Result<Event<'a>, Error>)
        requires
            old(self).wf(input@),
            p + 1 < input@.len(),
        ensures
            final(self).wf(input@),
            final(self).config() == old(self).config(),
            raw(r) == step_instruction(input@, old(self).lex(input@), p as int).0,
            final(self).lex(input@) == step_instruction(input@, old(self).lex(input@), p as int).1,
            final(self).lex(input@).pos > p,
            r matches Ok(e) ==> e.is_borrowed(),
    {
        let len = input.len();
        let q = find_pair_from(input, p + 2, 0x3f, 0x3e);
        if q >= len {
            self.give_up(input);
            return Err(Error::UnexpectedEof(Syntax::Instruction));
        }
        self.pos = q + 2;
        Ok(Event::PI(BytesText::from_escaped(slice_subrange(input, p + 2, q))))
    }

    /// Reads the start tag or empty-element tag that starts at `p`.
    fn read_element<'a>(&mut self, input: &'a [u8], p: usize) -> (r: Result<Event<'a>, Error>)
        requires
            old(self).wf(input@),
            p + 1 < input@.len(),
        ensures
            final(self).wf(input@),
            final(self).config() == old(self).config(),
            raw(r) == step_element(input@, old(self).config(), old(self).lex(input@), p as int).0,
            final(self).lex(input@) == step_element(
                input@,
                old(self).config(),
                old(self).lex(input@),
                p as int,
            ).1,
            final(self).lex(input@).pos > p,
            r matches Ok(e) ==> e.is_borrowed(),
    {
        let len = input.len();
        let q = tag_close_from(input, p + 1);
        if q >= len {
            self.give_up(input);
            return Err(Error::UnexpectedEof(Syntax::Element));
        }
        let empty = q > p + 1 && input[q - 1] == 0x2f;
        let to = if empty {
            q - 1
        } else {
            q
        };
        let n = name_end_in(input, p + 1, to);
        let content = slice_subrange(input, p + 1, to);
        let tag = BytesStart::borrowed(content, n - (p + 1));
        assert(tag@.name =~= input@.subrange(p + 1, n as int));
        assert(tag@.attributes =~= input@.subrange(n as int, to as int));
        self.pos = q + 1;
        if empty {
            if self.config.expand_empty_elements {
                self.pending = Some((p + 1, n));
                Ok(Event::Start(tag))
            } else {
                Ok(Event::Empty(tag))
            }
        } else {
            if self.config.check_end_names {
                self.opened.push((p + 1, n));
                assert(self.lex(input@).opened =~= old(self).lex(input@).opened.push(
                    input@.subrange(p + 1, n as int),
                ));
            }
            Ok(Event::Start(tag))
        }
    }

    /// Reads one event of `input`, from where the last call stopped.
    pub fn read_event<'a>(&mut self, input: &'a [u8]) -> (r: Result<Event<'a>, Error>)
        requires
            old(self).wf(input@),
        ensures
            final(self).wf(input@),
            final(self).config() == old(self).config(),
            raw(r) == step(input@, old(self).config(), old(self).lex(input@)).0,
            final(self).lex(input@) == step(input@, old(self).config(), old(self).lex(input@)).1,
            raw(r) != Ok::<Markup, ErrorView>(Markup::Eof) ==> measure(
                input@,
                final(self).lex(input@),
            ) < measure(input@, old(self).lex(input@)),
            raw(r) == Ok::<Markup, ErrorView>(Markup::Eof) ==> final(self).lex(input@).pos
                == input@.len() && final(self).lex(input@).pending is None,
            final(self).lex(input@).pos >= old(self).lex(input@).pos,
            old(self).lex(input@).pending is None && raw(r) != Ok::<Markup, ErrorView>(Markup::Eof)
                ==> final(self).lex(input@).pos > old(self).lex(input@).pos,
            0 <= final(self).lex(input@).pos <= input@.len(),
            r matches Ok(e) ==> e.is_borrowed(),
    {
        if let Some((a, b)) = self.pending {
            self.pending = None;
            return Ok(Event::End(BytesEnd::borrowed(slice_subrange(input, a, b))));
        }
        let p = if self.config.trim_text {
            skip_spaces_from(input, self.pos)
        } else {
            self.pos
        };
        if p >= input.len() {
            self.pos = p;
            return Ok(Event::Eof);
        }
        if input[p] != 0x3c {
            return self.read_text(input, p);
        }
        if p + 1 >= input.len() {
            self.give_up(input);
            return Err(Error::UnexpectedEof(Syntax::Element));
        }
        let b = input[p + 1];
        if b == 0x21 {
            self.read_bang(input, p)
        } else if b == 0x2f {
            self.read_end(input, p)
        } else if b == 0x3f {
            self.read_instruction(input, p)
        } else {
            self.read_element(input, p)
        }
    }
}

} // verus!
