use std::borrow::Cow;
use xml_de::attributes::{next_attribute, Attr, AttrError};
use xml_de::de::DeEvent;
use xml_de::de::{IoReader, SliceReader, XmlRead};
use xml_de::errors::{DeError, Error, Syntax};
use xml_de::events::{BytesCData, BytesEnd, BytesStart, BytesText, Event};
use xml_de::name::QName;
use xml_de::reader::{Config, Tokenizer};

fn raw_events(input: &[u8], config: Config) -> Vec<Result<Event<'_>, Error>> {
    let mut tokenizer = Tokenizer::new(config);
    let mut out = Vec::new();
    loop {
        let event = tokenizer.read_event(input);
        let last = matches!(event, Ok(Event::Eof));
        out.push(event);
        if last {
            return out;
        }
    }
}

fn events(input: &str) -> Vec<Result<DeEvent<'_>, DeError>> {
    let mut reader = SliceReader::new(input.as_bytes(), Config::decoding());
    let mut out = Vec::new();
    loop {
        let event = reader.next();
        let last = matches!(event, Ok(DeEvent::Eof));
        out.push(event);
        if last {
            return out;
        }
    }
}

fn start(content: &str, name_len: usize) -> DeEvent<'_> {
    DeEvent::Start(BytesStart::borrowed(content.as_bytes(), name_len))
}

fn end(name: &str) -> DeEvent<'_> {
    DeEvent::End(BytesEnd::borrowed(name.as_bytes()))
}

fn text(content: &str) -> DeEvent<'_> {
    DeEvent::Text(BytesText::from_escaped_str(content))
}

#[test]
fn tokenizer_yields_every_kind_of_event() {
    let input = b"<?xml version='1.0'?><!DOCTYPE a [<!ELEMENT a (b)>]><a x='1'> t <!--c--><b/><![CDATA[d]]></a>";
    assert_eq!(
        raw_events(input, Config::new()),
        vec![
            Ok(Event::PI(BytesText::from_escaped_str("xml version='1.0'"))),
            Ok(Event::DocType(BytesText::from_escaped_str(
                " a [<!ELEMENT a (b)>]"
            ))),
            Ok(Event::Start(BytesStart::borrowed(b"a x='1'", 1))),
            Ok(Event::Text(BytesText::from_escaped_str(" t "))),
            Ok(Event::Comment(BytesText::from_escaped_str("c"))),
            Ok(Event::Empty(BytesStart::borrowed(b"b", 1))),
            Ok(Event::CData(BytesCData::from_str("d"))),
            Ok(Event::End(BytesEnd::borrowed(b"a"))),
            Ok(Event::Eof),
        ]
    );
}

#[test]
fn tokenizer_trims_text_and_expands_empty_elements_on_request() {
    let input = b" <a > x y </a > <b c = 'd' /> ";
    assert_eq!(
        raw_events(input, Config::decoding()),
        vec![
            Ok(Event::Start(BytesStart::borrowed(b"a ", 1))),
            Ok(Event::Text(BytesText::from_escaped_str("x y"))),
            Ok(Event::End(BytesEnd::borrowed(b"a"))),
            Ok(Event::Start(BytesStart::borrowed(b"b c = 'd' ", 1))),
            Ok(Event::End(BytesEnd::borrowed(b"b"))),
            Ok(Event::Eof),
        ]
    );
    assert_eq!(
        raw_events(input, Config::new()),
        vec![
            Ok(Event::Text(BytesText::from_escaped_str(" "))),
            Ok(Event::Start(BytesStart::borrowed(b"a ", 1))),
            Ok(Event::Text(BytesText::from_escaped_str(" x y "))),
            Ok(Event::End(BytesEnd::borrowed(b"a"))),
            Ok(Event::Text(BytesText::from_escaped_str(" "))),
            Ok(Event::Empty(BytesStart::borrowed(b"b c = 'd' ", 1))),
            Ok(Event::Text(BytesText::from_escaped_str(" "))),
            Ok(Event::Eof),
        ]
    );
}

#[test]
fn tokenizer_repeats_the_end_of_input() {
    let mut tokenizer = Tokenizer::new(Config::decoding());
    let input = b"<a/>  ";
    assert_eq!(
        tokenizer.read_event(input),
        Ok(Event::Start(BytesStart::borrowed(b"a", 1)))
    );
    assert_eq!(
        tokenizer.read_event(input),
        Ok(Event::End(BytesEnd::borrowed(b"a")))
    );
    assert_eq!(tokenizer.read_event(input), Ok(Event::Eof));
    assert_eq!(tokenizer.read_event(input), Ok(Event::Eof));
    assert_eq!(tokenizer.read_event(input), Ok(Event::Eof));
}

#[test]
fn a_quoted_attribute_may_hold_the_closing_bracket() {
    assert_eq!(
        events("<a b='>' c=\"/>\">t</a>"),
        vec![
            Ok(start("a b='>' c=\"/>\"", 1)),
            Ok(text("t")),
            Ok(end("a")),
            Ok(DeEvent::Eof),
        ]
    );
}

#[test]
fn what_is_no_content_is_passed_over() {
    assert_eq!(
        events("<?xml version=\"1.0\"?>\n<!doctype a>\n<!-- <b> -->\n<a><?pi?><!----></a>"),
        vec![Ok(start("a", 1)), Ok(end("a")), Ok(DeEvent::Eof)]
    );
}

#[test]
fn an_empty_element_that_is_not_expanded_is_passed_over() {
    let mut reader = SliceReader::new(b"<a><b/>t</a>", Config::new());
    assert_eq!(reader.next(), Ok(start("a", 1)));
    assert_eq!(reader.next(), Ok(text("t")));
    assert_eq!(reader.next(), Ok(end("a")));
    assert_eq!(reader.next(), Ok(DeEvent::Eof));
}

#[test]
fn character_data_ends_at_the_first_terminator() {
    assert_eq!(
        events("<![CDATA[ a ]] > ]]>]]>"),
        vec![
            Ok(DeEvent::CData(BytesCData::from_str(" a ]] > "))),
            Ok(text("]]>")),
            Ok(DeEvent::Eof),
        ]
    );
}

#[test]
fn end_tags_are_checked_against_the_open_elements() {
    assert_eq!(
        events("<a><b></a>"),
        vec![
            Ok(start("a", 1)),
            Ok(start("b", 1)),
            Err(DeError::InvalidXml(Error::EndEventMismatch {
                expected: "b".to_string(),
                found: "a".to_string(),
            })),
            Ok(DeEvent::Eof),
        ]
    );
    assert_eq!(
        events("<a/></a>"),
        vec![
            Ok(start("a", 1)),
            Ok(end("a")),
            Err(DeError::InvalidXml(Error::EndEventMismatch {
                expected: "".to_string(),
                found: "a".to_string(),
            })),
            Ok(DeEvent::Eof),
        ]
    );
    let mut reader = SliceReader::new(
        b"<a></b>",
        Config {
            expand_empty_elements: true,
            trim_text: true,
            check_end_names: false,
        },
    );
    assert_eq!(reader.next(), Ok(start("a", 1)));
    assert_eq!(reader.next(), Ok(end("b")));
}

#[test]
fn input_that_ends_inside_markup_is_an_error() {
    let cases = [
        ("<", Syntax::Element),
        ("<a", Syntax::Element),
        ("<a b='>", Syntax::Element),
        ("</a", Syntax::Element),
        ("<!", Syntax::Element),
        ("<!-- a --", Syntax::Comment),
        ("<!--", Syntax::Comment),
        ("<![CDATA[ a ]]", Syntax::CData),
        ("<!DOCTYPE a [<b>]", Syntax::DocType),
        ("<?pi ?", Syntax::Instruction),
    ];
    for (input, syntax) in cases {
        assert_eq!(
            events(input),
            vec![
                Err(DeError::InvalidXml(Error::UnexpectedEof(syntax))),
                Ok(DeEvent::Eof),
            ]
        );
    }
    assert_eq!(
        events("<!ELEMENT a>"),
        vec![
            Err(DeError::InvalidXml(Error::UnexpectedBang(b'E'))),
            Ok(DeEvent::Eof),
        ]
    );
    assert_eq!(
        events("<!-x-->"),
        vec![
            Err(DeError::InvalidXml(Error::UnexpectedBang(b'-'))),
            Ok(DeEvent::Eof),
        ]
    );
}

#[test]
fn a_source_discards_up_to_the_matching_end_tag() {
    let mut reader = SliceReader::new(
        b"<a><a>1</a><b/><!-- </a> --></a><c/>",
        Config::decoding(),
    );
    assert_eq!(reader.next(), Ok(start("a", 1)));
    assert_eq!(reader.read_to_end(QName(b"a")), Ok(()));
    assert_eq!(reader.next(), Ok(start("c", 1)));
    assert_eq!(reader.read_to_end(QName(b"c")), Ok(()));
    assert_eq!(reader.read_to_end(QName(b"c")), Err(DeError::UnexpectedEof));
}

#[test]
fn a_source_that_discards_reports_a_broken_end_as_the_end_of_input() {
    let mut reader = SliceReader::new(b"<a><!-- open", Config::decoding());
    assert_eq!(reader.next(), Ok(start("a", 1)));
    assert_eq!(reader.read_to_end(QName(b"a")), Err(DeError::UnexpectedEof));

    let mut reader = SliceReader::new(b"<a><b></c>", Config::decoding());
    assert_eq!(reader.next(), Ok(start("a", 1)));
    assert_eq!(
        reader.read_to_end(QName(b"a")),
        Err(DeError::InvalidXml(Error::EndEventMismatch {
            expected: "b".to_string(),
            found: "c".to_string(),
        }))
    );
}

#[test]
fn a_source_over_owned_bytes_yields_events_that_own_their_bytes() {
    let mut reader = IoReader::new(b"<a b='c'>t</a>".to_vec(), Config::decoding());
    let first: DeEvent<'static> = reader.next().unwrap();
    let second: DeEvent<'static> = reader.next().unwrap();
    drop(reader);
    assert_eq!(first, start("a b='c'", 1));
    assert_eq!(second, text("t"));

    let mut reader = IoReader::new(b"<a><a/></a>t".to_vec(), Config::decoding());
    assert_eq!(reader.next(), Ok(start("a", 1)));
    assert_eq!(reader.read_to_end(QName(b"a")), Ok(()));
    assert_eq!(reader.next(), Ok(text("t")));
}

#[test]
fn events_give_their_parts() {
    let tag = BytesStart::borrowed(b"name a='1'", 4);
    assert_eq!(tag.name().into_inner(), b"name");
    assert_eq!(tag.attributes_raw(), b" a='1'");
    assert_eq!(tag.clone(), tag);
    assert_eq!(tag.clone().into_owned(), tag);
    assert_eq!(BytesStart::owned(b"name a='1'".to_vec(), 4), tag);
    assert_eq!(BytesStart::borrowed_name(b"name").attributes_raw(), b"");

    let end = BytesEnd::borrowed(b"name");
    assert_eq!(end.name().into_inner(), b"name");
    assert_eq!(BytesEnd::owned(b"name".to_vec()), end);
    assert_eq!(end.clone().into_owned(), end);

    let text = BytesText::from_escaped(b"a &amp; b");
    assert_eq!(text.escaped(), b"a &amp; b");
    assert!(!text.is_empty());
    assert!(BytesText::from_escaped(b"").is_empty());
    assert_eq!(BytesText::owned(b"a &amp; b".to_vec()), text);
    assert_eq!(text.clone().into_owned(), text);
    assert_eq!(text.into_inner(), Cow::Borrowed(&b"a &amp; b"[..]));

    let data = BytesCData::new(Cow::Borrowed(b"d"));
    assert_eq!(data.as_bytes(), b"d");
    assert!(!data.is_empty());
    assert!(BytesCData::empty().is_empty());
    assert_eq!(data.clone().into_owned(), data);
    assert_eq!(data.into_inner(), Cow::Borrowed(&b"d"[..]));
}

#[test]
fn attributes_are_read_one_by_one() {
    let raw = b" a='1'  b = \"two\" c=''";
    let first = next_attribute(raw, 0).unwrap().unwrap();
    assert_eq!(
        first,
        Attr {
            key_start: 1,
            key_end: 2,
            value_start: 4,
            value_end: 5,
            next: 6
        }
    );
    let second = next_attribute(raw, first.next).unwrap().unwrap();
    assert_eq!(&raw[second.key_start..second.key_end], b"b");
    assert_eq!(&raw[second.value_start..second.value_end], b"two");
    let third = next_attribute(raw, second.next).unwrap().unwrap();
    assert_eq!(&raw[third.key_start..third.key_end], b"c");
    assert_eq!(&raw[third.value_start..third.value_end], b"");
    assert_eq!(next_attribute(raw, third.next), Ok(None));
    assert_eq!(next_attribute(b"   ", 0), Ok(None));
    assert_eq!(next_attribute(b"", 0), Ok(None));
}

#[test]
fn malformed_attributes_are_errors() {
    assert_eq!(next_attribute(b" a", 0), Err(AttrError::ExpectedEq(2)));
    assert_eq!(next_attribute(b" a b='1'", 0), Err(AttrError::ExpectedEq(3)));
    assert_eq!(next_attribute(b"a=", 0), Err(AttrError::ExpectedValue(2)));
    assert_eq!(next_attribute(b"a=  ", 0), Err(AttrError::ExpectedValue(4)));
    assert_eq!(next_attribute(b"a=1", 0), Err(AttrError::UnquotedValue(2)));
    assert_eq!(
        next_attribute(b"a='1\"", 0),
        Err(AttrError::ExpectedQuote(2, b'\''))
    );
    assert_eq!(
        next_attribute(b"a=\"1", 0),
        Err(AttrError::ExpectedQuote(2, b'"'))
    );
}
