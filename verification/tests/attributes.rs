use lazyxml::{AttributeIter, Error, Event, Reader};

fn only_tag_content(xml: &[u8]) -> Vec<u8> {
    let mut r = Reader::from_bytes(xml);
    match r.next() {
        Some(Ok(Event::OpenTag(t))) => t.content().to_vec(),
        Some(Ok(Event::EmptyTag(t))) => t.content().to_vec(),
        Some(Ok(Event::CloseTag(t))) => t.content().to_vec(),
        _ => panic!("expected a tag"),
    }
}

#[test]
fn script_tag_three_attributes() {
    let xml = b"<Script time=\"0\" a=\"e\" what='\n   '/>";
    let mut r = Reader::from_bytes(xml);
    let tag = match r.next() {
        Some(Ok(Event::EmptyTag(t))) => t,
        _ => panic!("expected an empty tag"),
    };
    assert_eq!(tag.name(), b"Script");
    let mut attrs = tag.attributes();
    let a = attrs.next().unwrap().unwrap();
    assert_eq!(a.key(), b"time");
    assert_eq!(a.value(), b"0");
    let b = attrs.next().unwrap().unwrap();
    assert_eq!(b.key(), b"a");
    assert_eq!(b.value(), b"e");
    let c = attrs.next().unwrap().unwrap();
    assert_eq!(c.key(), b"what");
    assert_eq!(c.value(), b"\n   ");
    assert!(attrs.next().is_none());
}

#[test]
fn ludicrous_quoting_still_parses() {
    // An unquoted `=` separates keys from values; anything else, quotes
    // included, may sit inside a key.
    let xml =
        b"<Script time=\"0\"a\"'\"''\"'\"\"'''32'34fdhfjsklflsjeje2!!!!!=\"e\"what\n='\n   '/>";
    let mut r = Reader::from_bytes(xml);
    let tag = match r.next() {
        Some(Ok(Event::EmptyTag(t))) => t,
        _ => panic!("expected an empty tag"),
    };
    let mut attrs = tag.attributes();
    let a = attrs.next().unwrap().unwrap();
    assert_eq!(a.key(), b"time");
    assert_eq!(a.value(), b"0");
    let b = attrs.next().unwrap().unwrap();
    assert_eq!(b.key(), &b"a\"'\"''\"'\"\"'''32'34fdhfjsklflsjeje2!!!!!"[..]);
    assert_eq!(b.value(), b"e");
    let c = attrs.next().unwrap().unwrap();
    assert_eq!(c.key(), b"what");
    assert_eq!(c.value(), b"\n   ");
    assert!(attrs.next().is_none());
}

#[test]
fn bare_word_attribute_is_invalid() {
    let content = only_tag_content(b"<Name a>");
    assert_eq!(content, b"a");
    let mut attrs = AttributeIter::new(&content);
    match attrs.next() {
        Some(Err(e)) => assert_eq!(e, Error::InvalidAttribute(0)),
        _ => panic!("expected an error"),
    }
}

#[test]
fn bare_word_attribute_offset_is_content_relative() {
    let content = only_tag_content(b"<Name   a>");
    assert_eq!(content, b"  a");
    let mut attrs = AttributeIter::new(&content);
    match attrs.next() {
        Some(Err(e)) => assert_eq!(e, Error::InvalidAttribute(2)),
        _ => panic!("expected an error"),
    }
}

#[test]
fn empty_key_is_invalid() {
    let content = only_tag_content(b"<Name =\"1\">");
    let mut attrs = AttributeIter::new(&content);
    match attrs.next() {
        Some(Err(e)) => assert_eq!(e, Error::InvalidAttribute(0)),
        _ => panic!("expected an error"),
    }
}

#[test]
fn missing_quote_is_invalid() {
    for xml in [&b"<Name a= >"[..], &b"<Name a=1>"[..]] {
        let content = only_tag_content(xml);
        let mut attrs = AttributeIter::new(&content);
        match attrs.next() {
            Some(Err(e)) => assert_eq!(e, Error::InvalidAttribute(0)),
            _ => panic!("expected an error"),
        }
    }
}

#[test]
fn unterminated_value_is_eof() {
    let content = only_tag_content(b"<Name a=\"1>");
    assert_eq!(content, b"a=\"1");
    let mut attrs = AttributeIter::new(&content);
    match attrs.next() {
        Some(Err(e)) => assert_eq!(e, Error::UnexpectedEof(0)),
        _ => panic!("expected an error"),
    }
}

#[test]
fn key_whitespace_is_trimmed() {
    let content = only_tag_content(b"<N a = 'v'/>");
    let mut attrs = AttributeIter::new(&content);
    let a = attrs.next().unwrap().unwrap();
    assert_eq!(a.key(), b"a");
    assert_eq!(a.value(), b"v");
    assert!(attrs.next().is_none());
}

#[test]
fn single_and_double_quotes_mix() {
    let content = only_tag_content(b"<N a='x\"y' b=\"x'y\"/>");
    let mut attrs = AttributeIter::new(&content);
    let a = attrs.next().unwrap().unwrap();
    assert_eq!(a.key(), b"a");
    assert_eq!(a.value(), b"x\"y");
    let b = attrs.next().unwrap().unwrap();
    assert_eq!(b.key(), b"b");
    assert_eq!(b.value(), b"x'y");
    assert!(attrs.next().is_none());
}

#[test]
fn whitespace_only_content_has_no_attributes() {
    let mut attrs = AttributeIter::new(b"   \n\t ");
    assert!(attrs.next().is_none());
    let mut empty = AttributeIter::new(b"");
    assert!(empty.next().is_none());
}

#[test]
fn cursor_can_run_over_arbitrary_data() {
    let mut attrs = AttributeIter::new(b"k1='v1'   k2=\"v2\"");
    let a = attrs.next().unwrap().unwrap();
    assert_eq!(a.key(), b"k1");
    assert_eq!(a.value(), b"v1");
    let b = attrs.next().unwrap().unwrap();
    assert_eq!(b.key(), b"k2");
    assert_eq!(b.value(), b"v2");
    assert!(attrs.next().is_none());
}

#[test]
fn value_is_not_unescaped() {
    let content = only_tag_content(b"<N a='&amp;'/>");
    let mut attrs = AttributeIter::new(&content);
    let a = attrs.next().unwrap().unwrap();
    assert_eq!(a.value(), b"&amp;");
}
