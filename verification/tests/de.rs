use xml_de::de::map::{MapAccess, MapKey, MapValue};
use xml_de::de::DeEvent::{CData, End, Eof, Start, Text};
use xml_de::de::{DeEvent, Deserializer, IoReader, SliceReader, XmlRead};
use xml_de::errors::{DeError, Error};
use xml_de::events::{BytesCData, BytesEnd, BytesStart, BytesText};
use xml_de::name::QName;
use xml_de::reader::Config;

/// Checks that `peek()` and `next()` behave correctly after `skip()`
#[test]
fn read_and_peek() {
    let mut de = Deserializer::from_slice(
        br#"
        <root>
            <inner>
                text
                <inner/>
            </inner>
            <next/>
            <target/>
        </root>
        "#,
    );

    // Initial conditions - both are empty
    assert_eq!(*de.read_buffer(), vec![]);
    assert_eq!(*de.write_buffer(), vec![]);

    assert_eq!(de.next().unwrap(), Start(BytesStart::borrowed_name(b"root")));
    assert_eq!(de.peek().unwrap(), &Start(BytesStart::borrowed_name(b"inner")));

    // Should skip first <inner> tree
    de.skip().unwrap();
    assert_eq!(*de.read_buffer(), vec![]);
    assert_eq!(
        *de.write_buffer(),
        vec![
            Start(BytesStart::borrowed_name(b"inner")),
            Text(BytesText::from_escaped_str("text")),
            Start(BytesStart::borrowed_name(b"inner")),
            End(BytesEnd::borrowed(b"inner")),
            End(BytesEnd::borrowed(b"inner")),
        ]
    );

    // Consume <next/>. Now unconsumed XML looks like:
    //
    //   <inner>
    //     text
    //     <inner/>
    //   </inner>
    //   <target/>
    // </root>
    assert_eq!(de.next().unwrap(), Start(BytesStart::borrowed_name(b"next")));
    assert_eq!(de.next().unwrap(), End(BytesEnd::borrowed(b"next")));

    // We finish writing. Next call to `next()` should start replay that messages:
    //
    //   <inner>
    //     text
    //     <inner/>
    //   </inner>
    //
    // and after that stream that messages:
    //
    //   <target/>
    // </root>
    de.start_replay();
    assert_eq!(
        *de.read_buffer(),
        vec![
            Start(BytesStart::borrowed_name(b"inner")),
            Text(BytesText::from_escaped_str("text")),
            Start(BytesStart::borrowed_name(b"inner")),
            End(BytesEnd::borrowed(b"inner")),
            End(BytesEnd::borrowed(b"inner")),
        ]
    );
    assert_eq!(*de.write_buffer(), vec![]);
    assert_eq!(de.next().unwrap(), Start(BytesStart::borrowed_name(b"inner")));

    // Skip `#text` node and consume <inner/> after it
    de.skip().unwrap();
    assert_eq!(
        *de.read_buffer(),
        vec![
            Start(BytesStart::borrowed_name(b"inner")),
            End(BytesEnd::borrowed(b"inner")),
            End(BytesEnd::borrowed(b"inner")),
        ]
    );
    assert_eq!(
        *de.write_buffer(),
        vec![
            // This comment here to keep the same formatting of both arrays
            // otherwise rustfmt suggest one-line it
            Text(BytesText::from_escaped_str("text")),
        ]
    );

    assert_eq!(de.next().unwrap(), Start(BytesStart::borrowed_name(b"inner")));
    assert_eq!(de.next().unwrap(), End(BytesEnd::borrowed(b"inner")));

    // We finish writing. Next call to `next()` should start replay messages:
    //
    //     text
    //   </inner>
    //
    // and after that stream that messages:
    //
    //   <target/>
    // </root>
    de.start_replay();
    assert_eq!(
        *de.read_buffer(),
        vec![
            Text(BytesText::from_escaped_str("text")),
            End(BytesEnd::borrowed(b"inner")),
        ]
    );
    assert_eq!(*de.write_buffer(), vec![]);
    assert_eq!(de.next().unwrap(), Text(BytesText::from_escaped_str("text")));
    assert_eq!(de.next().unwrap(), End(BytesEnd::borrowed(b"inner")));
    assert_eq!(de.next().unwrap(), Start(BytesStart::borrowed_name(b"target")));
    assert_eq!(de.next().unwrap(), End(BytesEnd::borrowed(b"target")));
    assert_eq!(de.next().unwrap(), End(BytesEnd::borrowed(b"root")));
}

/// Checks that `read_to_end()` behaves correctly after `skip()`
#[test]
fn mod_read_to_end() {
    let mut de = Deserializer::from_slice(
        br#"
        <root>
            <skip>
                text
                <skip/>
            </skip>
            <target>
                <target/>
            </target>
        </root>
        "#,
    );

    // Initial conditions - both are empty
    assert_eq!(*de.read_buffer(), vec![]);
    assert_eq!(*de.write_buffer(), vec![]);

    assert_eq!(de.next().unwrap(), Start(BytesStart::borrowed_name(b"root")));

    // Skip the <skip> tree
    de.skip().unwrap();
    assert_eq!(*de.read_buffer(), vec![]);
    assert_eq!(
        *de.write_buffer(),
        vec![
            Start(BytesStart::borrowed_name(b"skip")),
            Text(BytesText::from_escaped_str("text")),
            Start(BytesStart::borrowed_name(b"skip")),
            End(BytesEnd::borrowed(b"skip")),
            End(BytesEnd::borrowed(b"skip")),
        ]
    );

    // Drop all events thet represents <target> tree. Now unconsumed XML looks like:
    //
    //   <skip>
    //     text
    //     <skip/>
    //   </skip>
    // </root>
    assert_eq!(de.next().unwrap(), Start(BytesStart::borrowed_name(b"target")));
    de.read_to_end(QName(b"target")).unwrap();
    assert_eq!(*de.read_buffer(), vec![]);
    assert_eq!(
        *de.write_buffer(),
        vec![
            Start(BytesStart::borrowed_name(b"skip")),
            Text(BytesText::from_escaped_str("text")),
            Start(BytesStart::borrowed_name(b"skip")),
            End(BytesEnd::borrowed(b"skip")),
            End(BytesEnd::borrowed(b"skip")),
        ]
    );

    // We finish writing. Next call to `next()` should start replay that messages:
    //
    //   <skip>
    //     text
    //     <skip/>
    //   </skip>
    //
    // and after that stream that messages:
    //
    // </root>
    de.start_replay();
    assert_eq!(
        *de.read_buffer(),
        vec![
            Start(BytesStart::borrowed_name(b"skip")),
            Text(BytesText::from_escaped_str("text")),
            Start(BytesStart::borrowed_name(b"skip")),
            End(BytesEnd::borrowed(b"skip")),
            End(BytesEnd::borrowed(b"skip")),
        ]
    );
    assert_eq!(*de.write_buffer(), vec![]);

    assert_eq!(de.next().unwrap(), Start(BytesStart::borrowed_name(b"skip")));
    de.read_to_end(QName(b"skip")).unwrap();

    assert_eq!(de.next().unwrap(), End(BytesEnd::borrowed(b"root")));
}

/// A struct with one field `item`, which is a list of units.
#[derive(Debug)]
#[allow(unused)]
struct List {
    item: Vec<()>,
}

/// Reads a `List` as a visitor of its fields does: a key, then its value.
fn read_list<'de>(de: &mut Deserializer<'de, SliceReader<'de>>) -> Result<List, DeError> {
    let start = de.deserialize_struct()?;
    let mut map = MapAccess::new(start, &["item"]);
    let mut item = Vec::new();
    while let Some(key) = map.next_key(de)? {
        let is_item = key == MapKey::Element(b"item".to_vec());
        let nested = match map.next_value()? {
            MapValue::Nested => true,
            _ => false,
        };
        if is_item {
            let filter = map.seq_filter(de, nested)?;
            while de.next_element(&filter, Some(map.start().name()))? {
                de.deserialize_unit()?;
                item.push(());
            }
            de.end_seq();
        } else {
            de.deserialize_ignored_any()?;
        }
    }
    let name = map.start().name().into_inner().to_vec();
    de.read_to_end(QName(&name))?;
    Ok(List { item })
}

/// Checks that limiting buffer size works correctly
#[test]
fn limit() {
    let mut de = Deserializer::from_slice(
        br#"
        <any-name>
            <item/>
            <another-item>
                <some-element>with text</some-element>
                <yet-another-element/>
            </another-item>
            <item/>
            <item/>
        </any-name>
        "#,
    );
    de.event_buffer_size(Some(3));

    match read_list(&mut de) {
        Err(DeError::TooManyEvents(count)) => assert_eq!(count, 3),
        e => panic!("Expected `Err(TooManyEvents(3))`, but found {:?}", e),
    }
}

#[test]
fn read_to_end() {
    let mut de = Deserializer::from_slice(
        br#"
        <root>
            <tag a="1"><tag>text</tag>content</tag>
            <tag a="2"><![CDATA[cdata content]]></tag>
            <self-closed/>
        </root>
        "#,
    );

    assert_eq!(de.next().unwrap(), Start(BytesStart::borrowed_name(b"root")));

    assert_eq!(
        de.next().unwrap(),
        Start(BytesStart::borrowed(br#"tag a="1""#, 3))
    );
    assert_eq!(de.read_to_end(QName(b"tag")).unwrap(), ());

    assert_eq!(
        de.next().unwrap(),
        Start(BytesStart::borrowed(br#"tag a="2""#, 3))
    );
    assert_eq!(
        de.next().unwrap(),
        CData(BytesCData::from_str("cdata content"))
    );
    assert_eq!(de.next().unwrap(), End(BytesEnd::borrowed(b"tag")));

    assert_eq!(
        de.next().unwrap(),
        Start(BytesStart::borrowed(b"self-closed", 11))
    );
    assert_eq!(de.read_to_end(QName(b"self-closed")).unwrap(), ());

    assert_eq!(de.next().unwrap(), End(BytesEnd::borrowed(b"root")));
    assert_eq!(de.next().unwrap(), Eof);
}

#[test]
fn borrowing_reader_parity() {
    let s = r##"
        <item name="hello" source="world.rs">Some text</item>
        <item2/>
        <item3 value="world" />
    	"##
    .as_bytes();

    let mut reader1 = IoReader::new(s.to_vec(), Config::new());
    let mut reader2 = SliceReader::new(s, Config::new());

    loop {
        let event1 = reader1.next().unwrap();
        let event2 = reader2.next().unwrap();

        if let (DeEvent::Eof, DeEvent::Eof) = (&event1, &event2) {
            break;
        }

        assert_eq!(event1, event2);
    }
}

#[test]
fn borrowing_reader_events() {
    let s = r##"
        <item name="hello" source="world.rs">Some text</item>
        <item2></item2>
        <item3/>
        <item4 value="world" />
    "##
    .as_bytes();

    let mut reader = SliceReader::new(
        s,
        Config {
            trim_text: true,
            expand_empty_elements: true,
            check_end_names: true,
        },
    );

    let mut events = Vec::new();

    loop {
        let event = reader.next().unwrap();
        if let DeEvent::Eof = event {
            break;
        }
        events.push(event);
    }

    assert_eq!(
        events,
        vec![
            Start(BytesStart::borrowed(
                br#"item name="hello" source="world.rs""#,
                4
            )),
            Text(BytesText::from_escaped(b"Some text".as_ref())),
            End(BytesEnd::borrowed(b"item")),
            Start(BytesStart::borrowed(b"item2", 5)),
            End(BytesEnd::borrowed(b"item2")),
            Start(BytesStart::borrowed(b"item3", 5)),
            End(BytesEnd::borrowed(b"item3")),
            Start(BytesStart::borrowed(br#"item4 value="world" "#, 5)),
            End(BytesEnd::borrowed(b"item4")),
        ]
    )
}

#[test]
fn borrowing_read_to_end() {
    let s = " <item /> ";
    let mut reader = SliceReader::new(
        s.as_bytes(),
        Config {
            trim_text: true,
            expand_empty_elements: true,
            check_end_names: true,
        },
    );

    assert_eq!(
        reader.next().unwrap(),
        DeEvent::Start(BytesStart::borrowed(b"item ", 4))
    );
    reader.read_to_end(QName(b"item")).unwrap();
    assert_eq!(reader.next().unwrap(), DeEvent::Eof);
}

/// Ensures, that [`Deserializer::next_text()`] never can get an `End` event,
/// because parser reports error early
#[test]
fn next_text() {
    match Deserializer::from_str(r#"</root>"#).deserialize_string() {
        Err(DeError::InvalidXml(Error::EndEventMismatch { expected, found })) => {
            assert_eq!(expected, "");
            assert_eq!(found, "root");
        }
        x => panic!(
            r#"Expected `Err(InvalidXml(EndEventMismatch("", "root")))`, but found {:?}"#,
            x
        ),
    }

    let s: String = Deserializer::from_str(r#"<root></root>"#)
        .deserialize_string()
        .unwrap();
    assert_eq!(s, "");

    match Deserializer::from_str(r#"<root></other>"#).deserialize_string() {
        Err(DeError::InvalidXml(Error::EndEventMismatch { expected, found })) => {
            assert_eq!(expected, "root");
            assert_eq!(found, "other");
        }
        x => panic!(
            r#"Expected `Err(InvalidXml(EndEventMismatch("root", "other")))`, but found {:?}"#,
            x
        ),
    }
}
