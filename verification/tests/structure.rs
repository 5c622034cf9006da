use xml_de::attributes::AttrError;
use xml_de::de::map::{MapAccess, MapKey, MapValue};
use xml_de::de::scalar::parse_signed;
use xml_de::de::seq::TagFilter;
use xml_de::de::value::Shape;
use xml_de::de::var::VariantTag;
use xml_de::de::{DeEvent, Deserializer, SliceReader};
use xml_de::errors::{DeError, Error};
use xml_de::events::{BytesEnd, BytesStart, BytesText};
use xml_de::name::QName;
use xml_de::reader::Config;

type De<'de> = Deserializer<'de, SliceReader<'de>>;

fn decoder(document: &str, overlapped: bool) -> De<'_> {
    Deserializer::with_overlapped_lists(
        SliceReader::new(document.as_bytes(), Config::decoding()),
        overlapped,
    )
}

fn start(name: &str) -> DeEvent<'_> {
    DeEvent::Start(BytesStart::borrowed_name(name.as_bytes()))
}

fn end(name: &str) -> DeEvent<'_> {
    DeEvent::End(BytesEnd::borrowed(name.as_bytes()))
}

/// A struct with the fields `a` and `b`.
#[derive(Debug, PartialEq)]
struct Pair {
    a: i32,
    b: i32,
}

/// Reads a `Pair` as a visitor of its fields does; a field that the struct
/// does not have is passed over.
fn read_pair(de: &mut De) -> Result<Pair, DeError> {
    let start = de.deserialize_struct()?;
    let mut map = MapAccess::new(start, &["a", "b"]);
    let mut a = None;
    let mut b = None;
    while let Some(key) = map.next_key(de)? {
        let name = match key {
            MapKey::Attribute(name) => name,
            MapKey::Element(name) => name,
            MapKey::Value => b"$value".to_vec(),
        };
        let value = match map.next_value()? {
            MapValue::Attribute(text) => {
                if name == b"a" || name == b"b" {
                    Some(parse_signed(text, de.decoder(), i32::MIN as i128, i32::MAX as i128)? as i32)
                } else {
                    None
                }
            }
            MapValue::Nested => {
                if name == b"a" || name == b"b" {
                    Some(de.deserialize_i32()?)
                } else {
                    de.deserialize_ignored_any()?;
                    None
                }
            }
            _ => {
                de.deserialize_ignored_any()?;
                None
            }
        };
        if name == b"a" {
            a = value;
        } else if name == b"b" {
            b = value;
        }
    }
    let name = map.start().name().into_inner().to_vec();
    de.read_to_end(QName(&name))?;
    Ok(Pair {
        a: a.unwrap(),
        b: b.unwrap(),
    })
}

/// A struct with a list `item` and a field `other`.
#[derive(Debug, PartialEq)]
struct Listing {
    item: Vec<String>,
    other: Vec<String>,
}

/// Reads a `Listing` as a visitor of its fields does; each time the key of a
/// list comes up, the list takes the items that it finds.
fn read_listing(de: &mut De) -> Result<Listing, DeError> {
    let start = de.deserialize_struct()?;
    let mut map = MapAccess::new(start, &["item", "other"]);
    let mut item = Vec::new();
    let mut other = Vec::new();
    while let Some(key) = map.next_key(de)? {
        let nested = map.next_value()? == MapValue::Nested;
        let list = if key == MapKey::Element(b"item".to_vec()) {
            &mut item
        } else if key == MapKey::Element(b"other".to_vec()) {
            &mut other
        } else {
            de.deserialize_ignored_any()?;
            continue;
        };
        let filter = map.seq_filter(de, nested)?;
        while de.next_element(&filter, Some(map.start().name()))? {
            list.push(de.deserialize_string()?);
        }
        de.end_seq();
    }
    let name = map.start().name().into_inner().to_vec();
    de.read_to_end(QName(&name))?;
    Ok(Listing { item, other })
}

#[test]
fn fields_that_the_struct_does_not_have_are_passed_over() {
    let document = "<x><unexpected/><a>1</a><unexpected2/><b>2</b></x>";
    assert_eq!(
        read_pair(&mut decoder(document, true)),
        Ok(Pair { a: 1, b: 2 })
    );
    assert_eq!(
        read_pair(&mut decoder(document, false)),
        Ok(Pair { a: 1, b: 2 })
    );
}

#[test]
fn fields_come_from_attributes_and_from_child_elements() {
    let document = "<x a=\"1\" c='3'>\n<b>2</b> text <d><e/></d></x><y/>";
    let mut de = decoder(document, true);
    assert_eq!(read_pair(&mut de), Ok(Pair { a: 1, b: 2 }));
    assert_eq!(de.next(), Ok(start("y")));
}

#[test]
fn a_struct_needs_an_element() {
    assert_eq!(
        read_pair(&mut decoder("only text", true)),
        Err(DeError::ExpectedStart)
    );
    assert_eq!(
        read_pair(&mut decoder("", true)),
        Err(DeError::ExpectedStart)
    );
    let mut de = decoder("<x></x>", true);
    assert_eq!(de.next(), Ok(start("x")));
    assert_eq!(
        de.deserialize_map(),
        Err(DeError::UnexpectedEnd(b"x".to_vec()))
    );
}

#[test]
fn a_struct_that_is_cut_short_is_an_error() {
    assert_eq!(
        read_pair(&mut decoder("<x><a>1</a>", true)),
        Err(DeError::UnexpectedEof)
    );
    assert_eq!(
        read_pair(&mut decoder("<x a=1/>", true)),
        Err(DeError::InvalidXml(Error::InvalidAttr(
            AttrError::UnquotedValue(3)
        )))
    );
    assert_eq!(
        read_pair(&mut decoder("<x><a>one</a></x>", true)),
        Err(DeError::InvalidInt)
    );
}

#[test]
fn lists_in_order_read_alike_with_and_without_tolerance() {
    let document = "<x><item>1</item><item>2</item><other>3</other><other>4</other></x>";
    let expected = Listing {
        item: vec!["1".to_string(), "2".to_string()],
        other: vec!["3".to_string(), "4".to_string()],
    };
    let mut tolerant = decoder(document, true);
    let mut strict = decoder(document, false);
    assert_eq!(read_listing(&mut tolerant), Ok(expected));
    assert_eq!(
        read_listing(&mut decoder(document, true)),
        read_listing(&mut strict)
    );
    assert_eq!(tolerant.next(), Ok(DeEvent::Eof));
    assert_eq!(strict.next(), Ok(DeEvent::Eof));
}

#[test]
fn lists_out_of_order_are_one_run_with_tolerance_and_several_without() {
    let document = "<x><item>1</item><other>3</other><item>2</item><other>4</other></x>";
    assert_eq!(
        read_listing(&mut decoder(document, true)),
        Ok(Listing {
            item: vec!["1".to_string(), "2".to_string()],
            other: vec!["3".to_string(), "4".to_string()],
        })
    );
    // without tolerance each run of items is a list of its own: the visitor
    // sees the key of a list twice, and this one puts the runs together
    assert_eq!(
        read_listing(&mut decoder(document, false)),
        Ok(Listing {
            item: vec!["1".to_string(), "2".to_string()],
            other: vec!["3".to_string(), "4".to_string()],
        })
    );
    let mut strict = decoder(document, false);
    let tag = strict.deserialize_struct().unwrap();
    let filter = TagFilter::Include(b"item".to_vec());
    assert_eq!(strict.next_element(&filter, Some(tag.name())), Ok(true));
    assert_eq!(strict.deserialize_string(), Ok("1".to_string()));
    assert_eq!(strict.next_element(&filter, Some(tag.name())), Ok(false));
    assert_eq!(strict.peek(), Ok(&start("other")));

    let mut tolerant = decoder(document, true);
    let tag = tolerant.deserialize_struct().unwrap();
    assert_eq!(tolerant.next_element(&filter, Some(tag.name())), Ok(true));
    assert_eq!(tolerant.deserialize_string(), Ok("1".to_string()));
    assert_eq!(tolerant.next_element(&filter, Some(tag.name())), Ok(true));
    assert_eq!(tolerant.deserialize_string(), Ok("2".to_string()));
    assert_eq!(tolerant.next_element(&filter, Some(tag.name())), Ok(false));
    assert_eq!(tolerant.write_buffer().len(), 6);
    tolerant.end_seq();
    assert_eq!(tolerant.read_buffer().len(), 7);
    assert_eq!(tolerant.next(), Ok(start("other")));
}

#[test]
fn a_bound_that_suffices_changes_nothing_and_one_that_does_not_fails() {
    let document = "<x><item>1</item><other>3</other><item>2</item></x>";
    let expected = Listing {
        item: vec!["1".to_string(), "2".to_string()],
        other: vec!["3".to_string()],
    };
    let mut de = decoder(document, true);
    de.event_buffer_size(Some(3));
    assert_eq!(read_listing(&mut de), Ok(expected));

    let mut de = decoder(document, true);
    de.event_buffer_size(Some(2));
    assert_eq!(read_listing(&mut de), Err(DeError::TooManyEvents(2)));
}

#[test]
fn a_list_in_no_struct_takes_the_elements_named_like_its_first() {
    let mut de = decoder("<item>1</item><item>2</item><other/><item>3</item>", true);
    let filter = de.deserialize_seq().unwrap();
    let mut items = Vec::new();
    while de.next_element(&filter, None).unwrap() {
        items.push(de.deserialize_u8().unwrap());
    }
    de.end_seq();
    assert_eq!(items, vec![1, 2, 3]);
    assert_eq!(de.next(), Ok(start("other")));
    assert_eq!(de.next(), Ok(end("other")));
    assert_eq!(de.next(), Ok(DeEvent::Eof));

    let mut de = decoder("<item>1</item><item>2</item><other/><item>3</item>", false);
    let filter = de.deserialize_seq().unwrap();
    let mut items = Vec::new();
    while de.next_element(&filter, None).unwrap() {
        items.push(de.deserialize_u8().unwrap());
    }
    de.end_seq();
    assert_eq!(items, vec![1, 2]);
    assert_eq!(de.next(), Ok(start("other")));
}

#[test]
fn a_list_of_text_takes_every_element() {
    let mut de = decoder("text<a/>", true);
    let filter = de.deserialize_seq().unwrap();
    assert!(matches!(filter, TagFilter::Exclude(names) if names.is_empty()));
    assert_eq!(de.next_element(&filter, None), Ok(true));
    assert_eq!(de.deserialize_string(), Ok("text".to_string()));
    assert_eq!(de.next_element(&filter, None), Ok(true));
    assert_eq!(de.deserialize_unit(), Ok(()));
    assert_eq!(de.next_element(&filter, None), Ok(false));
    assert_eq!(de.next_element(&filter, None), Ok(false));
}

#[test]
fn a_list_in_an_element_ends_with_the_end_tag_of_the_element() {
    let filter = TagFilter::Include(b"item".to_vec());
    let mut de = decoder("<x><item/></x>", true);
    assert_eq!(de.next(), Ok(start("x")));
    assert_eq!(de.next_element(&filter, Some(QName(b"x"))), Ok(true));
    assert_eq!(de.deserialize_unit(), Ok(()));
    assert_eq!(de.next_element(&filter, Some(QName(b"x"))), Ok(false));
    assert_eq!(
        de.next_element(&filter, Some(QName(b"y"))),
        Err(DeError::UnexpectedEnd(b"x".to_vec()))
    );
    assert_eq!(de.next(), Ok(end("x")));
    assert_eq!(
        de.next_element(&filter, Some(QName(b"x"))),
        Err(DeError::UnexpectedEof)
    );
    assert_eq!(de.next_element(&filter, None), Ok(false));
}

#[test]
fn filters_tell_the_items() {
    let named = TagFilter::Include(b"item".to_vec());
    assert!(named.is_suitable(&BytesStart::borrowed(b"item a='1'", 4)));
    assert!(!named.is_suitable(&BytesStart::borrowed_name(b"items")));
    let others = TagFilter::Exclude(&["a", "b"]);
    assert!(others.is_suitable(&BytesStart::borrowed_name(b"item")));
    assert!(!others.is_suitable(&BytesStart::borrowed_name(b"a")));
    assert!(!others.is_suitable(&BytesStart::borrowed_name(b"b")));
}

#[test]
fn content_goes_to_the_field_that_takes_it() {
    let mut de = decoder("<x><a/>text<b/><![CDATA[more]]></x>", true);
    let tag = de.deserialize_struct().unwrap();
    let mut map = MapAccess::new(tag, &["a", "$value"]);
    assert_eq!(map.next_value(), Err(DeError::KeyNotRead));
    assert_eq!(
        map.next_key(&mut de),
        Ok(Some(MapKey::Element(b"a".to_vec())))
    );
    assert_eq!(map.next_value(), Ok(MapValue::Nested));
    assert_eq!(map.next_value(), Err(DeError::KeyNotRead));
    assert_eq!(de.deserialize_unit(), Ok(()));
    assert_eq!(map.next_key(&mut de), Ok(Some(MapKey::Value)));
    assert_eq!(map.next_value(), Ok(MapValue::Text));
    assert_eq!(de.deserialize_string(), Ok("text".to_string()));
    assert_eq!(map.next_key(&mut de), Ok(Some(MapKey::Value)));
    assert_eq!(map.next_value(), Ok(MapValue::Content));
    let filter = map.seq_filter(&mut de, false).unwrap();
    assert!(filter.is_suitable(&BytesStart::borrowed_name(b"b")));
    assert!(!filter.is_suitable(&BytesStart::borrowed_name(b"a")));
    assert_eq!(de.deserialize_unit(), Ok(()));
    assert_eq!(map.next_key(&mut de), Ok(Some(MapKey::Value)));
    assert_eq!(map.next_value(), Ok(MapValue::Text));
    assert_eq!(de.deserialize_string(), Ok("more".to_string()));
    assert_eq!(map.next_key(&mut de), Ok(None));
    assert_eq!(map.next_key(&mut de), Ok(None));
    assert_eq!(de.read_to_end(map.start().name()), Ok(()));
    assert_eq!(de.next(), Ok(DeEvent::Eof));
}

#[test]
fn attributes_come_before_the_children() {
    let mut de = decoder("<x one='1' two=\"&lt;\"><three/></x>", true);
    let tag = de.deserialize_struct().unwrap();
    let mut map = MapAccess::new(tag, &[]);
    assert_eq!(
        map.next_key(&mut de),
        Ok(Some(MapKey::Attribute(b"one".to_vec())))
    );
    assert_eq!(map.next_value(), Ok(MapValue::Attribute(b"1")));
    assert_eq!(
        map.next_key(&mut de),
        Ok(Some(MapKey::Attribute(b"two".to_vec())))
    );
    assert_eq!(map.next_value(), Ok(MapValue::Attribute(b"&lt;")));
    assert_eq!(
        map.next_key(&mut de),
        Ok(Some(MapKey::Element(b"three".to_vec())))
    );
    assert_eq!(de.read_buffer().len(), 1);
}

#[test]
fn a_field_reader_reports_what_ends_the_struct_wrongly() {
    let mut de = decoder("<x></x>", true);
    let mut map = MapAccess::new(BytesStart::borrowed_name(b"y"), &[]);
    assert_eq!(de.next(), Ok(start("x")));
    assert_eq!(
        map.next_key(&mut de),
        Err(DeError::UnexpectedEnd(b"x".to_vec()))
    );
    assert_eq!(de.next(), Ok(end("x")));
    assert_eq!(map.next_key(&mut de), Err(DeError::UnexpectedEof));
}

#[test]
fn units_are_whole_values() {
    let mut de = decoder("<a><b>t</b></a>text<![CDATA[d]]></c>", true);
    assert_eq!(de.deserialize_unit(), Ok(()));
    assert_eq!(de.deserialize_unit(), Ok(()));
    assert_eq!(de.deserialize_ignored_any(), Ok(()));
    let mut de = Deserializer::with_overlapped_lists(
        SliceReader::new(
            b"</c>",
            Config {
                expand_empty_elements: true,
                trim_text: true,
                check_end_names: false,
            },
        ),
        true,
    );
    assert_eq!(
        de.deserialize_unit(),
        Err(DeError::UnexpectedEnd(b"c".to_vec()))
    );
    assert_eq!(de.deserialize_unit(), Err(DeError::UnexpectedEof));
    assert_eq!(de.deserialize_ignored_any(), Err(DeError::UnexpectedEof));
}

#[test]
fn options_are_absent_at_the_end_and_where_text_is_empty() {
    let mut de = decoder("<a/>", true);
    assert_eq!(de.deserialize_option(), Ok(true));
    assert_eq!(de.next(), Ok(start("a")));
    assert_eq!(de.deserialize_option(), Ok(true));
    assert_eq!(de.next(), Ok(end("a")));
    assert_eq!(de.deserialize_option(), Ok(false));
    assert_eq!(de.next(), Ok(DeEvent::Eof));

    let mut de = decoder("<![CDATA[]]>text", true);
    assert_eq!(de.deserialize_option(), Ok(false));
    assert_eq!(de.deserialize_string(), Ok("".to_string()));
    assert_eq!(de.deserialize_option(), Ok(true));
    assert_eq!(de.next(), Ok(DeEvent::Text(BytesText::from_escaped_str("text"))));
}

#[test]
fn the_event_at_the_cursor_tells_the_shape_of_a_value() {
    let mut de = Deserializer::with_overlapped_lists(
        SliceReader::new(
            b"<a>t<![CDATA[d]]></a>",
            Config {
                expand_empty_elements: true,
                trim_text: true,
                check_end_names: false,
            },
        ),
        true,
    );
    assert_eq!(de.deserialize_any(), Ok(Shape::Element));
    assert_eq!(de.next(), Ok(start("a")));
    assert_eq!(de.deserialize_any(), Ok(Shape::Text));
    assert_eq!(de.deserialize_string(), Ok("t".to_string()));
    assert_eq!(de.deserialize_any(), Ok(Shape::Text));
    assert_eq!(de.deserialize_string(), Ok("d".to_string()));
    assert_eq!(de.deserialize_any(), Ok(Shape::Unit));
    assert_eq!(de.next(), Ok(end("a")));
    assert_eq!(de.deserialize_any(), Ok(Shape::Unit));
}

#[test]
fn the_event_at_the_cursor_names_the_variant() {
    let mut de = decoder("<A>1</A>B &amp; C<![CDATA[D &amp; E]]>", true);
    assert_eq!(
        de.deserialize_enum(),
        Ok(VariantTag {
            name: b"A".to_vec(),
            escaped: false
        })
    );
    assert_eq!(de.deserialize_unit(), Ok(()));
    assert_eq!(
        de.deserialize_enum(),
        Ok(VariantTag {
            name: b"B &amp; C".to_vec(),
            escaped: true
        })
    );
    assert_eq!(de.deserialize_unit(), Ok(()));
    assert_eq!(
        de.deserialize_enum(),
        Ok(VariantTag {
            name: b"D &amp; E".to_vec(),
            escaped: false
        })
    );
    assert_eq!(de.deserialize_unit(), Ok(()));
    assert_eq!(de.deserialize_enum(), Err(DeError::Unsupported));
}
