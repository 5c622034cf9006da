use std::collections::VecDeque;
use xml_de::de::DeEvent::{CData, End, Eof, Start, Text};
use xml_de::de::{DeEvent, Deserializer, SliceReader, XmlRead};
use xml_de::decoder::Decoder;
use xml_de::errors::{DeError, Error, EscapeError, Syntax};
use xml_de::events::{BytesCData, BytesEnd, BytesStart, BytesText};
use xml_de::name::QName;

/// A source that yields the events it was given.
struct Events {
    events: VecDeque<DeEvent<'static>>,
}

impl Events {
    fn new(events: Vec<DeEvent<'static>>) -> Self {
        Events {
            events: events.into(),
        }
    }
}

impl<'i> XmlRead<'i> for Events {
    fn next(&mut self) -> Result<DeEvent<'i>, DeError> {
        Ok(self.events.pop_front().unwrap_or(DeEvent::Eof))
    }

    fn read_to_end(&mut self, name: QName) -> Result<(), DeError> {
        let mut depth = 0;
        loop {
            match self.events.pop_front() {
                Some(DeEvent::End(e)) if e.name().into_inner() == name.into_inner() => {
                    if depth == 0 {
                        return Ok(());
                    }
                    depth -= 1;
                }
                Some(DeEvent::Start(e)) if e.name().into_inner() == name.into_inner() => {
                    depth += 1
                }
                Some(DeEvent::Eof) | None => return Err(DeError::UnexpectedEof),
                Some(_) => (),
            }
        }
    }

    fn decoder(&self) -> Decoder {
        Decoder {}
    }
}

fn start(name: &'static str) -> DeEvent<'static> {
    Start(BytesStart::borrowed_name(name.as_bytes()))
}

fn end(name: &'static str) -> DeEvent<'static> {
    End(BytesEnd::borrowed(name.as_bytes()))
}

fn text(content: &'static str) -> DeEvent<'static> {
    Text(BytesText::from_escaped_str(content))
}

fn cdata(content: &'static str) -> DeEvent<'static> {
    CData(BytesCData::from_str(content))
}

#[test]
fn peek_twice_shows_one_event_and_takes_none() {
    let mut de = Deserializer::from_str("<a><b/>text</a>");
    assert_eq!(de.peek().unwrap(), &start("a"));
    assert_eq!(de.peek().unwrap(), &start("a"));
    assert_eq!(de.next().unwrap(), start("a"));
    assert_eq!(de.next().unwrap(), start("b"));
    assert_eq!(de.peek().unwrap(), &end("b"));
    assert_eq!(de.peek().unwrap(), &end("b"));
    assert_eq!(de.next().unwrap(), end("b"));
    assert_eq!(de.next().unwrap(), text("text"));
}

#[test]
fn peek_at_the_end_shows_eof_again_and_again() {
    let mut de = Deserializer::from_str("");
    assert_eq!(de.peek().unwrap(), &Eof);
    assert_eq!(de.peek().unwrap(), &Eof);
    assert_eq!(de.next().unwrap(), Eof);
    assert_eq!(de.next().unwrap(), Eof);
    assert_eq!(de.peek().unwrap(), &Eof);
}

#[test]
fn peek_shows_an_error_once() {
    let mut de = Deserializer::from_str("<a><!-- open");
    assert_eq!(de.next().unwrap(), start("a"));
    assert_eq!(
        de.peek(),
        Err(DeError::InvalidXml(Error::UnexpectedEof(Syntax::Comment)))
    );
    assert_eq!(de.next().unwrap(), Eof);
}

#[test]
fn skip_then_replay_returns_what_was_skipped_then_the_rest() {
    let document = "<root><a>1<a>2</a></a><b/>tail</root>";
    let mut plain = Deserializer::from_str(document);
    let mut expected = Vec::new();
    loop {
        let event = plain.next().unwrap();
        if event == Eof {
            break;
        }
        expected.push(event);
    }

    let mut de = Deserializer::from_str(document);
    assert_eq!(de.next().unwrap(), start("root"));
    de.skip().unwrap();
    assert_eq!(
        *de.write_buffer(),
        vec![start("a"), text("1"), start("a"), text("2"), end("a"), end("a")]
    );
    de.start_replay();
    let mut seen = vec![start("root")];
    loop {
        let event = de.next().unwrap();
        if event == Eof {
            break;
        }
        seen.push(event);
    }
    assert_eq!(seen, expected);
}

#[test]
fn skip_of_text_buffers_one_event() {
    let mut de = Deserializer::from_str("<a>text<b/></a>");
    assert_eq!(de.next().unwrap(), start("a"));
    de.skip().unwrap();
    assert_eq!(*de.write_buffer(), vec![text("text")]);
    assert_eq!(de.next().unwrap(), start("b"));
}

#[test]
fn two_skips_replay_in_the_order_of_the_document() {
    let mut de = Deserializer::from_str("<r><a/><b/><c/></r>");
    assert_eq!(de.next().unwrap(), start("r"));
    de.skip().unwrap();
    assert_eq!(de.next().unwrap(), start("b"));
    assert_eq!(de.next().unwrap(), end("b"));
    de.skip().unwrap();
    de.start_replay();
    assert_eq!(
        *de.read_buffer(),
        vec![start("a"), end("a"), start("c"), end("c")]
    );
    assert_eq!(de.next().unwrap(), start("a"));
    assert_eq!(de.next().unwrap(), end("a"));
    assert_eq!(de.next().unwrap(), start("c"));
    assert_eq!(de.next().unwrap(), end("c"));
    assert_eq!(de.next().unwrap(), end("r"));
}

#[test]
fn bound_lets_exactly_that_many_events_be_buffered() {
    let document = "<r><a><b>t</b></a><c/></r>";
    // <a>, <b>, t, </b>, </a>: five events
    let mut de = Deserializer::from_str(document);
    de.event_buffer_size(Some(5));
    assert_eq!(de.next().unwrap(), start("r"));
    assert_eq!(de.skip(), Ok(()));
    assert_eq!(de.write_buffer().len(), 5);

    let mut de = Deserializer::from_str(document);
    de.event_buffer_size(Some(4));
    assert_eq!(de.next().unwrap(), start("r"));
    assert_eq!(de.skip(), Err(DeError::TooManyEvents(4)));
    assert_eq!(de.write_buffer().len(), 4);
}

#[test]
fn bound_counts_what_earlier_skips_left_in_the_buffer() {
    let mut de = Deserializer::from_str("<r><a/><b/></r>");
    de.event_buffer_size(Some(3));
    assert_eq!(de.next().unwrap(), start("r"));
    assert_eq!(de.skip(), Ok(()));
    assert_eq!(de.skip(), Err(DeError::TooManyEvents(3)));
}

#[test]
fn bound_of_zero_lets_nothing_be_buffered() {
    let mut de = Deserializer::from_str("<r/>");
    de.event_buffer_size(Some(0));
    assert_eq!(de.skip(), Err(DeError::TooManyEvents(0)));
}

#[test]
fn no_bound_after_it_was_taken_off() {
    let mut de = Deserializer::from_str("<r><a/></r>");
    de.event_buffer_size(Some(1)).event_buffer_size(None);
    assert_eq!(de.skip(), Ok(()));
    assert_eq!(de.write_buffer().len(), 4);
}

#[test]
fn skip_fails_where_the_input_ends_inside_the_element() {
    let mut de = Deserializer::new(Events::new(vec![start("a"), text("t")]));
    assert_eq!(de.skip(), Err(DeError::UnexpectedEof));
}

#[test]
fn skip_counts_elements_of_the_same_name() {
    let mut de = Deserializer::new(Events::new(vec![
        start("a"),
        start("a"),
        start("b"),
        end("a"),
        end("b"),
        end("a"),
        end("a"),
    ]));
    de.skip().unwrap();
    assert_eq!(
        *de.write_buffer(),
        vec![start("a"), start("a"), start("b"), end("a"), end("b"), end("a")]
    );
    assert_eq!(de.next().unwrap(), end("a"));
}

#[test]
fn skip_of_the_end_of_input_buffers_it() {
    let mut de = Deserializer::new(Events::new(vec![]));
    de.skip().unwrap();
    assert_eq!(*de.write_buffer(), vec![Eof]);
}

#[test]
fn next_start_passes_over_text() {
    let mut de = Deserializer::new(Events::new(vec![
        text("a"),
        cdata("b"),
        start("x"),
        end("x"),
    ]));
    assert_eq!(
        de.next_start().unwrap(),
        Some(BytesStart::borrowed_name(b"x"))
    );
    assert_eq!(
        de.next_start(),
        Err(DeError::UnexpectedEnd(b"x".to_vec()))
    );
    assert_eq!(de.next_start().unwrap(), None);
}

#[test]
fn read_to_end_scans_the_buffer_before_the_source() {
    let mut de = Deserializer::from_str("<r><a><x/></a><x>1<x>2</x>3</x><y/></r>");
    assert_eq!(de.next().unwrap(), start("r"));
    de.skip().unwrap();
    assert_eq!(de.next().unwrap(), start("x"));
    de.skip().unwrap();
    de.skip().unwrap();
    de.start_replay();
    // read: <a> <x> </x> </a> 1 <x> 2 </x>; source: 3 </x> <y/> </r>
    assert_eq!(de.next().unwrap(), start("a"));
    assert_eq!(de.next().unwrap(), start("x"));
    de.read_to_end(QName(b"x")).unwrap();
    assert_eq!(de.next().unwrap(), end("a"));
    assert_eq!(de.next().unwrap(), text("1"));
    assert_eq!(de.next().unwrap(), start("x"));
    de.read_to_end(QName(b"x")).unwrap();
    assert_eq!(de.next().unwrap(), text("3"));
}

#[test]
fn read_to_end_leaves_the_rest_to_the_source_once_the_buffer_is_used_up() {
    let mut de = Deserializer::new(Events::new(vec![
        start("x"),
        text("t"),
        end("x"),
        end("x"),
        text("after"),
    ]));
    // the start tag of the outer <x> was pulled before; look at the inner one
    assert_eq!(de.peek().unwrap(), &start("x"));
    // the buffer holds the inner start tag alone: the source counts anew
    de.read_to_end(QName(b"x")).unwrap();
    assert_eq!(de.next().unwrap(), end("x"));
}

#[test]
fn read_to_end_without_skips_takes_nested_elements_whole() {
    let mut de = Deserializer::with_overlapped_lists(
        Events::new(vec![
            start("x"),
            text("t"),
            end("x"),
            end("x"),
            text("after"),
        ]),
        false,
    );
    assert_eq!(de.peek().unwrap(), &start("x"));
    de.read_to_end(QName(b"x")).unwrap();
    assert_eq!(de.next().unwrap(), text("after"));
}

#[test]
fn read_to_end_fails_at_the_end_of_input() {
    let mut de = Deserializer::from_str("<a><b></b>");
    assert_eq!(de.next().unwrap(), start("a"));
    assert_eq!(de.read_to_end(QName(b"a")), Err(DeError::UnexpectedEof));

    let mut de = Deserializer::with_overlapped_lists(Events::new(vec![text("t")]), false);
    assert_eq!(de.read_to_end(QName(b"a")), Err(DeError::UnexpectedEof));
}

#[test]
fn text_is_unescaped_on_request_and_character_data_never() {
    let mut de = Deserializer::new(Events::new(vec![
        text("a &lt; b"),
        text("a &lt; b"),
        cdata("a &lt; b"),
    ]));
    assert_eq!(
        de.next_text_impl(true, false).unwrap(),
        BytesCData::from_str("a < b")
    );
    assert_eq!(
        de.next_text_impl(false, false).unwrap(),
        BytesCData::from_str("a &lt; b")
    );
    assert_eq!(
        de.next_text_impl(true, false).unwrap(),
        BytesCData::from_str("a &lt; b")
    );
}

#[test]
fn text_may_not_start_with_a_tag_unless_allowed() {
    let mut de = Deserializer::from_str("<tag>text</tag>");
    assert_eq!(
        de.next_text_impl(true, false),
        Err(DeError::UnexpectedStart(b"tag".to_vec()))
    );
    assert_eq!(de.next().unwrap(), text("text"));
}

#[test]
fn text_is_no_end_tag_and_no_end_of_input() {
    let mut de = Deserializer::new(Events::new(vec![end("tag")]));
    assert_eq!(
        de.next_text_impl(true, true),
        Err(DeError::UnexpectedEnd(b"tag".to_vec()))
    );
    assert_eq!(de.next_text_impl(true, true), Err(DeError::UnexpectedEof));
    assert_eq!(de.next_text_impl(true, false), Err(DeError::UnexpectedEof));
}

#[test]
fn text_one_level_down_uses_up_the_element() {
    let mut de = Deserializer::from_str("<r><tag>text<more/>ignored</tag><next/></r>");
    assert_eq!(de.next().unwrap(), start("r"));
    assert_eq!(de.next_text(true).unwrap(), BytesCData::from_str("text"));
    assert_eq!(de.next().unwrap(), start("next"));

    let mut de = Deserializer::from_str("<tag><![CDATA[a &amp; b]]></tag>after");
    assert_eq!(
        de.next_text(true).unwrap(),
        BytesCData::from_str("a &amp; b")
    );
    assert_eq!(de.next().unwrap(), text("after"));
}

#[test]
fn text_of_an_empty_element_is_empty() {
    let mut de = Deserializer::from_str("<tag></tag><tag/>after");
    assert_eq!(de.next_text(true).unwrap(), BytesCData::from_str(""));
    assert_eq!(de.next_text(false).unwrap(), BytesCData::from_str(""));
    assert_eq!(de.next().unwrap(), text("after"));
}

#[test]
fn text_stands_one_level_down_at_most() {
    let mut de = Deserializer::from_str("<tag><inner>text</inner></tag>");
    assert_eq!(
        de.next_text(true),
        Err(DeError::UnexpectedStart(b"inner".to_vec()))
    );

    let mut de = Deserializer::new(Events::new(vec![start("tag"), end("other")]));
    assert_eq!(
        de.next_text(true),
        Err(DeError::UnexpectedEnd(b"other".to_vec()))
    );

    let mut de = Deserializer::new(Events::new(vec![start("tag")]));
    assert_eq!(de.next_text(true), Err(DeError::UnexpectedEof));

    let mut de = Deserializer::new(Events::new(vec![start("tag"), text("t")]));
    assert_eq!(de.next_text(true), Err(DeError::UnexpectedEof));
}

#[test]
fn text_with_a_malformed_reference_is_an_error() {
    let mut de = Deserializer::from_str("<tag>a &unknown; b</tag>");
    assert_eq!(
        de.next_text(true),
        Err(DeError::InvalidXml(Error::EscapeError(
            EscapeError::UnrecognizedEntity { start: 2, end: 10 }
        )))
    );
    let mut de = Deserializer::from_str("<tag>a &unknown; b</tag>");
    assert_eq!(
        de.next_text(false).unwrap(),
        BytesCData::from_str("a &unknown; b")
    );
}

#[test]
fn decoders_over_a_slice_and_over_owned_bytes_see_the_same_events() {
    let document = "<?xml version=\"1.0\"?><!DOCTYPE r [<!ENTITY e \"v\">]>\n<r a=\"1\">\n <!-- c -->t<![CDATA[d]]><e/>\n</r>";
    let mut borrowed = Deserializer::from_str(document);
    let mut owned = Deserializer::from_reader(document.as_bytes().to_vec());
    let mut count = 0;
    loop {
        let left = borrowed.next().unwrap();
        let right = owned.next().unwrap();
        assert_eq!(left, right);
        count += 1;
        if left == Eof {
            break;
        }
    }
    assert_eq!(count, 7);
}

#[test]
fn decoder_over_a_slice_reads_what_the_reader_yields() {
    let reader = SliceReader::new(b"<a/>", xml_de::reader::Config::decoding());
    let mut de = Deserializer::from_borrowing_reader(reader);
    assert!(de.is_overlapped());
    assert_eq!(de.next().unwrap(), start("a"));
    assert_eq!(de.next().unwrap(), end("a"));
    assert_eq!(de.next().unwrap(), Eof);
    assert_eq!(de.decoder(), Decoder {});
}
