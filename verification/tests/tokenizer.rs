use lazyxml::{Error, Event, Reader};

#[test]
fn it_works() {
    assert_eq!(2 + 2, 4);
}

#[test]
fn no_tag_single_text() {
    let mut r = Reader::from_bytes(b"  hello world  ");
    match r.next() {
        Some(Ok(Event::Text(t))) => assert_eq!(t.content(), b"hello world"),
        other => panic!("expected a text event, got {:?}", other.is_some()),
    }
    assert!(r.next().is_none());
    assert!(r.next().is_none());
}

#[test]
fn no_tag_untrimmed_text() {
    let mut r = Reader::from_bytes(b"  hello  ");
    r.trim_whitespace(false);
    match r.next() {
        Some(Ok(Event::Text(t))) => assert_eq!(t.content(), b"  hello  "),
        _ => panic!("expected a text event"),
    }
    assert!(r.next().is_none());
}

#[test]
fn empty_input_yields_nothing() {
    let mut r = Reader::from_bytes(b"");
    assert!(r.next().is_none());
}

#[test]
fn whitespace_only_yields_nothing() {
    for xml in [&b" "[..], &b"   \t\r\n "[..], &b"\x00\x01\x02   "[..], &b"\n\n\n\n\n\n\n\n"[..]]
    {
        let mut r = Reader::from_bytes(xml);
        assert!(r.next().is_none(), "no event expected for whitespace-only input");
    }
}

#[test]
fn empty_tag_plain() {
    let mut r = Reader::from_bytes(b"<Name/>");
    match r.next() {
        Some(Ok(Event::EmptyTag(t))) => {
            assert_eq!(t.name(), b"Name");
            assert_eq!(t.content(), b"");
        },
        _ => panic!("expected an empty tag"),
    }
    assert!(r.next().is_none());
}

#[test]
fn empty_tag_spaced() {
    let mut r = Reader::from_bytes(b"<Name />");
    match r.next() {
        Some(Ok(Event::EmptyTag(t))) => {
            assert_eq!(t.name(), b"Name");
            assert_eq!(t.content(), b"");
        },
        _ => panic!("expected an empty tag"),
    }
}

#[test]
fn empty_tag_with_attribute() {
    let mut r = Reader::from_bytes(b"<Name attr=\"v\"/>");
    match r.next() {
        Some(Ok(Event::EmptyTag(t))) => {
            assert_eq!(t.name(), b"Name");
            assert_eq!(t.content(), b"attr=\"v\"");
        },
        _ => panic!("expected an empty tag"),
    }
}

#[test]
fn close_tag() {
    let mut r = Reader::from_bytes(b"</Name>");
    match r.next() {
        Some(Ok(Event::CloseTag(t))) => {
            assert_eq!(t.name(), b"Name");
            assert_eq!(t.content(), b"");
        },
        _ => panic!("expected a close tag"),
    }
}

#[test]
fn close_tag_quirk_double_slash() {
    // `</Name/>` is accepted as a close tag: documented lenient behavior.
    let mut r = Reader::from_bytes(b"</Name/>");
    match r.next() {
        Some(Ok(Event::CloseTag(t))) => {
            assert_eq!(t.name(), b"Name");
            assert_eq!(t.content(), b"");
        },
        _ => panic!("expected a close tag"),
    }
}

#[test]
fn open_text_close_round_trip() {
    let xml = b"<a>text</a>";
    let mut r = Reader::from_bytes(xml);
    let mut rebuilt: Vec<u8> = Vec::new();
    match r.next() {
        Some(Ok(Event::OpenTag(t))) => {
            rebuilt.extend_from_slice(b"<");
            rebuilt.extend_from_slice(t.name());
            rebuilt.extend_from_slice(b">");
        },
        _ => panic!("expected an open tag"),
    }
    match r.next() {
        Some(Ok(Event::Text(t))) => rebuilt.extend_from_slice(t.content()),
        _ => panic!("expected text"),
    }
    match r.next() {
        Some(Ok(Event::CloseTag(t))) => {
            rebuilt.extend_from_slice(b"</");
            rebuilt.extend_from_slice(t.name());
            rebuilt.extend_from_slice(b">");
        },
        _ => panic!("expected a close tag"),
    }
    assert!(r.next().is_none());
    assert_eq!(rebuilt, xml);
}

#[test]
fn round_trip_with_attributes_and_whitespace() {
    // Every byte of the input is accounted for by the events and the
    // delimiters, except whitespace-only text runs, which are skipped.
    let xml = b"  <a b=\"c\">x</a> ";
    let mut r = Reader::from_bytes(xml);
    match r.next() {
        Some(Ok(Event::OpenTag(t))) => {
            assert_eq!(t.name(), b"a");
            assert_eq!(t.content(), b"b=\"c\"");
        },
        _ => panic!("expected an open tag"),
    }
    match r.next() {
        Some(Ok(Event::Text(t))) => assert_eq!(t.content(), b"x"),
        _ => panic!("expected text"),
    }
    match r.next() {
        Some(Ok(Event::CloseTag(t))) => assert_eq!(t.name(), b"a"),
        _ => panic!("expected a close tag"),
    }
    assert!(r.next().is_none());
}

#[test]
fn adjacent_tags_emit_no_text() {
    let mut r = Reader::from_bytes(b"<a><b/></a>");
    assert!(matches!(r.next(), Some(Ok(Event::OpenTag(_)))));
    assert!(matches!(r.next(), Some(Ok(Event::EmptyTag(_)))));
    assert!(matches!(r.next(), Some(Ok(Event::CloseTag(_)))));
    assert!(r.next().is_none());
}

#[test]
fn offset_starts_at_zero() {
    let r = Reader::from_bytes(b"<a/>");
    assert_eq!(r.offset(), 0);
}

#[test]
fn offset_advances_past_tag() {
    let mut r = Reader::from_bytes(b"<a>rest");
    assert!(matches!(r.next(), Some(Ok(Event::OpenTag(_)))));
    assert_eq!(r.offset(), 3);
}

#[test]
fn trim_toggle_same_value_twice_is_idempotent() {
    let xml = b" x <a/>";
    let mut once = Reader::from_bytes(xml);
    once.trim_whitespace(false);
    let mut twice = Reader::from_bytes(xml);
    twice.trim_whitespace(false);
    twice.trim_whitespace(false);
    match (once.next(), twice.next()) {
        (Some(Ok(Event::Text(a))), Some(Ok(Event::Text(b)))) => {
            assert_eq!(a.content(), b.content());
            assert_eq!(a.content(), b" x ");
        },
        _ => panic!("expected text from both readers"),
    }
}

#[test]
fn trim_toggle_mid_scan_takes_effect() {
    let mut r = Reader::from_bytes(b" a <x> b </x>");
    match r.next() {
        Some(Ok(Event::Text(t))) => assert_eq!(t.content(), b"a"),
        _ => panic!("expected trimmed text"),
    }
    assert!(matches!(r.next(), Some(Ok(Event::OpenTag(_)))));
    r.trim_whitespace(false);
    match r.next() {
        Some(Ok(Event::Text(t))) => assert_eq!(t.content(), b" b "),
        _ => panic!("expected untrimmed text"),
    }
}

#[test]
fn truncated_tag_fails_at_tag_start() {
    let mut r = Reader::from_bytes(b"<Name");
    match r.next() {
        Some(Err(e)) => assert_eq!(e, Error::UnexpectedEof(0)),
        _ => panic!("expected an error"),
    }
}

#[test]
fn truncated_tag_later_in_buffer() {
    let mut r = Reader::from_bytes(b"ab<Name");
    assert!(matches!(r.next(), Some(Ok(Event::Text(_)))));
    match r.next() {
        Some(Err(e)) => assert_eq!(e, Error::UnexpectedEof(2)),
        _ => panic!("expected an error"),
    }
}

#[test]
fn digit_name_start_is_invalid() {
    let mut r = Reader::from_bytes(b"<0Name>");
    match r.next() {
        Some(Err(e)) => assert_eq!(e, Error::InvalidName(0)),
        _ => panic!("expected an error"),
    }
}

#[test]
fn degenerate_tags_are_invalid_names() {
    for xml in [&b"<>"[..], &b"< >"[..], &b"</>"[..], &b"<//>"[..], &b"<.Name>"[..]] {
        let mut r = Reader::from_bytes(xml);
        match r.next() {
            Some(Err(Error::InvalidName(off))) => assert_eq!(off, 0),
            _ => panic!("expected an invalid-name error"),
        }
    }
}

#[test]
fn failed_tag_does_not_advance() {
    let mut r = Reader::from_bytes(b"<0N>");
    let off_before;
    match r.next() {
        Some(Err(e)) => {
            assert_eq!(e, Error::InvalidName(0));
            off_before = r.offset();
        },
        _ => panic!("expected an error"),
    }
    match r.next() {
        Some(Err(e)) => {
            assert_eq!(e, Error::InvalidName(0));
            assert_eq!(r.offset(), off_before);
        },
        _ => panic!("expected the same error again"),
    }
}

#[test]
fn from_str_matches_bytes() {
    let mut r = Reader::from_str("<Test>hello, world!</Test>");
    match r.next() {
        Some(Ok(Event::OpenTag(t))) => assert_eq!(t.name(), b"Test"),
        _ => panic!("expected an open tag"),
    }
    match r.next() {
        Some(Ok(Event::Text(t))) => assert_eq!(t.content(), b"hello, world!"),
        _ => panic!("expected text"),
    }
    match r.next() {
        Some(Ok(Event::CloseTag(t))) => assert_eq!(t.name(), b"Test"),
        _ => panic!("expected a close tag"),
    }
    assert!(r.next().is_none());
}

#[test]
fn from_str_bom_strips_leading_boms() {
    let mut r = Reader::from_str_bom("\u{feff}<a/>");
    assert_eq!(r.offset(), 0);
    match r.next() {
        Some(Ok(Event::EmptyTag(t))) => assert_eq!(t.name(), b"a"),
        _ => panic!("expected an empty tag"),
    }
    let mut r2 = Reader::from_str_bom("\u{feff}\u{feff}x");
    match r2.next() {
        Some(Ok(Event::Text(t))) => assert_eq!(t.content(), b"x"),
        _ => panic!("expected text"),
    }
}

#[test]
fn reader_new_is_the_byte_constructor() {
    let mut r = Reader::new(b"<a/>");
    assert!(matches!(r.next(), Some(Ok(Event::EmptyTag(_)))));
    assert!(r.next().is_none());
}

#[test]
fn multibyte_spans_stay_valid_utf8() {
    // Every span cut from a string-built reader is itself valid UTF-8:
    // the cuts land only next to single-byte ASCII delimiters.
    let mut r = Reader::from_str("  héllo wörld  <名前 k='véry'>中文 text</名前>");
    match r.next() {
        Some(Ok(Event::Text(t))) => {
            assert_eq!(std::str::from_utf8(t.content()).unwrap(), "héllo wörld");
        },
        _ => panic!("expected text"),
    }
    let tag = match r.next() {
        Some(Ok(Event::OpenTag(t))) => t,
        _ => panic!("expected an open tag"),
    };
    assert_eq!(std::str::from_utf8(tag.name()).unwrap(), "名前");
    let mut attrs = tag.attributes();
    let a = attrs.next().unwrap().unwrap();
    assert_eq!(std::str::from_utf8(a.key()).unwrap(), "k");
    assert_eq!(std::str::from_utf8(a.value()).unwrap(), "véry");
    assert!(attrs.next().is_none());
    match r.next() {
        Some(Ok(Event::Text(t))) => {
            assert_eq!(std::str::from_utf8(t.content()).unwrap(), "中文 text");
        },
        _ => panic!("expected text"),
    }
    match r.next() {
        Some(Ok(Event::CloseTag(t))) => {
            assert_eq!(std::str::from_utf8(t.name()).unwrap(), "名前");
        },
        _ => panic!("expected a close tag"),
    }
    assert!(r.next().is_none());
}

#[test]
fn trimming_multibyte_text_cuts_at_whitespace_only() {
    let mut r = Reader::from_str(" \t é \n ");
    match r.next() {
        Some(Ok(Event::Text(t))) => {
            assert_eq!(std::str::from_utf8(t.content()).unwrap(), "é");
        },
        _ => panic!("expected text"),
    }
    assert!(r.next().is_none());
}

#[test]
fn interior_slash_stays_in_name() {
    // Only the boundary slashes are trimmed; interior bytes are free.
    let mut r = Reader::from_bytes(b"<a/b>");
    match r.next() {
        Some(Ok(Event::OpenTag(t))) => assert_eq!(t.name(), b"a/b"),
        _ => panic!("expected an open tag"),
    }
}
