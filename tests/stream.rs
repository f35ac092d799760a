use xmlparser::{ErrorPos, Reference, Stream, StrSpan, StreamError};

#[test]
fn skip_spaces_with_references() {
    let mut s = Stream::from_str(" \t\n\r &#x20; ");
    s.skip_spaces();
    assert!(s.at_end());
}

#[test]
fn skip_spaces_stops_at_other_reference() {
    let mut s = Stream::from_str("  &#x41;");
    s.skip_spaces();
    assert_eq!(s.pos(), 2);
    let mut s = Stream::from_str(" &amp;");
    s.skip_spaces();
    assert_eq!(s.pos(), 1);
}

#[test]
fn skip_ascii_spaces_ignores_references() {
    let mut s = Stream::from_str(" &#x20;");
    s.skip_ascii_spaces();
    assert_eq!(s.pos(), 1);
}

#[test]
fn starts_with_text() {
    let mut s = Stream::from_str("Some text.");
    s.advance(5);
    assert!(s.starts_with(b"text"));
    assert!(!s.starts_with(b"long"));
    assert!(!s.starts_with(b"text. and more"));
}

#[test]
fn starts_with_space_by_reference() {
    assert!(Stream::from_str("&#x9;").starts_with_space());
    assert!(!Stream::from_str("&#x41;").starts_with_space());
    assert!(!Stream::from_str("a").starts_with_space());
    assert!(!Stream::from_str("").starts_with_space());
}

#[test]
fn consume_spaces_requires_a_space() {
    let mut s = Stream::from_str("x");
    match s.consume_spaces() {
        Err(StreamError::InvalidChar(c, expected, pos)) => {
            assert_eq!(c, 'x');
            assert_eq!(expected, b"Space".to_vec());
            assert_eq!(pos, ErrorPos::new(1, 1));
        }
        other => panic!("unexpected result {:?}", other),
    }
    let mut s = Stream::from_str("  x");
    assert_eq!(s.consume_spaces(), Ok(()));
    assert_eq!(s.pos(), 2);
}

#[test]
fn consume_byte_and_mismatch() {
    let mut s = Stream::from_str("Some text.");
    s.consume_byte(b'S').unwrap();
    s.consume_byte(b'o').unwrap();
    match s.consume_byte(b'q') {
        Err(StreamError::InvalidChar(c, expected, pos)) => {
            assert_eq!(c, 'm');
            assert_eq!(expected, vec![b'q']);
            assert_eq!(pos, ErrorPos::new(1, 3));
        }
        other => panic!("unexpected result {:?}", other),
    }
    assert_eq!(s.pos(), 2);
    let mut e = Stream::from_str("");
    assert_eq!(e.consume_byte(b'a'), Err(StreamError::UnexpectedEndOfStream));
}

#[test]
fn consume_either_returns_the_byte() {
    let mut s = Stream::from_str(">[");
    assert_eq!(s.consume_either(b"[>"), Ok(b'>'));
    assert_eq!(s.consume_either(b"[>"), Ok(b'['));
    assert_eq!(s.consume_either(b"[>"), Err(StreamError::UnexpectedEndOfStream));
    let mut t = Stream::from_str("x");
    assert!(matches!(t.consume_either(b"ab"), Err(StreamError::InvalidChar('x', _, _))));
}

#[test]
fn skip_string_reports_first_difference() {
    let mut s = Stream::from_str("version");
    assert_eq!(s.skip_string(b"version"), Ok(()));
    assert!(s.at_end());
    let mut t = Stream::from_str("verb");
    assert!(matches!(t.skip_string(b"version"), Err(StreamError::InvalidChar('b', _, _))));
    assert_eq!(t.pos(), 3);
}

#[test]
fn consume_name_and_invalid_name() {
    let mut s = Stream::from_str("abc:d-1 rest");
    let n = s.consume_name().unwrap();
    assert_eq!(n.as_bytes(), b"abc:d-1");
    assert_eq!(s.pos(), 7);
    let mut t = Stream::from_str("1abc");
    assert_eq!(t.consume_name(), Err(StreamError::InvalidName));
    assert_eq!(t.pos(), 0);
    let mut e = Stream::from_str("");
    assert_eq!(e.consume_name(), Err(StreamError::InvalidName));
}

#[test]
fn name_with_non_ascii_characters() {
    let mut s = Stream::from_str("élan·x=");
    let n = s.consume_name().unwrap();
    assert_eq!(n.as_bytes(), "élan·x".as_bytes());
}

#[test]
fn consume_eq_and_quote() {
    let mut s = Stream::from_str("  =  'v'");
    s.consume_eq().unwrap();
    assert_eq!(s.consume_quote(), Ok(b'\''));
    let mut t = Stream::from_str("v");
    assert!(matches!(t.consume_quote(), Err(StreamError::InvalidChar('v', _, _))));
}

#[test]
fn consume_bytes_by_predicate() {
    let mut s = Stream::from_str("abc<d");
    let text = s.consume_bytes(|_, c| c != b'<');
    assert_eq!(text.as_bytes(), b"abc");
    assert_eq!(s.curr_byte(), Ok(b'<'));
    let empty = s.consume_bytes(|_, c| c != b'<');
    assert!(empty.is_empty());
}

#[test]
fn consume_chars_by_predicate() {
    let mut s = Stream::from_str("ééx");
    let text = s.consume_chars(|_, c| c == 'é');
    assert_eq!(text.as_bytes(), "éé".as_bytes());
    assert_eq!(s.pos(), 4);
}

#[test]
fn current_and_next_bytes() {
    let s = Stream::from_str("ab");
    assert_eq!(s.curr_byte(), Ok(b'a'));
    assert_eq!(s.next_byte(), Ok(b'b'));
    assert!(s.is_curr_byte_eq(b'a'));
    assert_eq!(s.get_curr_byte(), Some(b'a'));
    let mut e = Stream::from_str("a");
    assert_eq!(e.next_byte(), Err(StreamError::UnexpectedEndOfStream));
    e.advance(1);
    assert_eq!(e.curr_byte(), Err(StreamError::UnexpectedEndOfStream));
    assert_eq!(e.get_curr_byte(), None);
    assert!(!e.is_curr_byte_eq(b'a'));
}

#[test]
fn current_character_is_decoded() {
    let s = Stream::from_str("é!");
    assert_eq!(s.curr_char(), Ok('é'));
    let t = Stream::from_str("𝄞");
    assert_eq!(t.curr_char(), Ok('𝄞'));
    assert_eq!(Stream::from_str("").curr_char(), Err(StreamError::UnexpectedEndOfStream));
}

#[test]
fn decimal_character_reference() {
    let mut s = Stream::from_str("&#65;");
    assert_eq!(s.consume_reference(), Ok(Reference::CharRef('A')));
    assert!(s.at_end());
}

#[test]
fn hex_character_reference() {
    let mut s = Stream::from_str("&#x1D11E;");
    assert_eq!(s.consume_reference(), Ok(Reference::CharRef('𝄞')));
}

#[test]
fn reference_beyond_unicode_is_rejected() {
    let mut s = Stream::from_str("&#x110000;");
    assert_eq!(s.consume_reference(), Err(StreamError::InvalidReference));
}

#[test]
fn illegal_character_references_are_rejected() {
    for text in ["&#0;", "&#xD800;", "&#xFFFE;", "&#;", "&#x;", "&#99999999999;"] {
        let mut s = Stream::from_str(text);
        assert_eq!(s.consume_reference(), Err(StreamError::InvalidReference), "{}", text);
    }
}

#[test]
fn predefined_and_other_entities() {
    let cases = [("&quot;", '"'), ("&amp;", '&'), ("&apos;", '\''), ("&lt;", '<'), ("&gt;", '>')];
    for (text, c) in cases {
        let mut s = Stream::from_str(text);
        assert_eq!(s.consume_reference(), Ok(Reference::CharRef(c)));
    }
    let mut s = Stream::from_str("&foo;");
    assert_eq!(s.consume_reference(), Ok(Reference::EntityRef(StrSpan::from_str("foo"))));
}

#[test]
fn reference_requires_semicolon() {
    let mut s = Stream::from_str("&amp");
    assert_eq!(s.consume_reference(), Err(StreamError::UnexpectedEndOfStream));
    let mut t = Stream::from_str("x");
    assert_eq!(t.consume_reference(), Err(StreamError::InvalidReference));
}

#[test]
fn try_consume_char_reference_rewinds() {
    let mut s = Stream::from_str("&foo;");
    assert_eq!(s.try_consume_char_reference(), None);
    assert_eq!(s.pos(), 0);
    let mut t = Stream::from_str("&#x20;x");
    assert_eq!(t.try_consume_char_reference(), Some(' '));
    assert_eq!(t.pos(), 6);
}

#[test]
fn error_positions() {
    let mut s = Stream::from_str("ab\ncd");
    assert_eq!(s.gen_error_pos(), ErrorPos::new(1, 1));
    assert_eq!(s.gen_error_pos_from(3), ErrorPos::new(2, 2));
    assert_eq!(s.gen_error_pos_from(4), ErrorPos::new(2, 3));
    assert_eq!(s.gen_error_pos_from(2), ErrorPos::new(1, 3));
    s.advance(1);
    assert_eq!(s.gen_error_pos(), ErrorPos::new(1, 2));
    let mut t = Stream::from_str("a\nb");
    t.advance(2);
    assert_eq!(t.gen_error_pos(), ErrorPos::new(2, 2));
}

#[test]
fn error_position_query_keeps_the_cursor() {
    let mut s = Stream::from_str("line\nline\nline");
    s.advance(7);
    let before = s.pos();
    let p = s.gen_error_pos_from(12);
    assert_eq!(p.row, 3);
    assert_eq!(s.pos(), before);
}

#[test]
fn slices() {
    let mut s = Stream::from_str("hello world");
    s.advance(6);
    assert_eq!(s.slice_back(0).as_bytes(), b"hello ");
    assert_eq!(s.slice_tail().as_bytes(), b"world");
    assert_eq!(s.span().as_bytes(), b"hello world");
    s.jump_to_end();
    assert!(s.at_end());
    assert_eq!(s.pos(), 11);
}

#[test]
fn stream_over_sub_span() {
    let whole = StrSpan::from_str("xx&#x20;yy");
    let region = whole.slice_region(2, 8);
    let mut s = Stream::from_span(region);
    s.skip_spaces();
    assert!(s.at_end());
    assert_eq!(s.span().start(), 2);
}

#[test]
fn span_equality_is_by_content() {
    let a = StrSpan::from_str("<a>");
    let b = StrSpan::from_str("a");
    assert_eq!(a.slice_region(1, 2), b);
    assert_ne!(a.slice_region(0, 1), b);
    assert_eq!(a.len(), 3);
    assert_eq!(a.full_bytes(), b"<a>");
    assert_eq!(a.byte_at(2), b'>');
}

#[test]
fn reference_errors() {
    let cases = [
        ("&#65", StreamError::UnexpectedEndOfStream),
        ("&lt", StreamError::UnexpectedEndOfStream),
        ("&", StreamError::UnexpectedEndOfStream),
        ("&1;", StreamError::InvalidName),
        ("a", StreamError::InvalidReference),
    ];
    for (text, err) in cases {
        let mut s = Stream::from_str(text);
        assert_eq!(s.consume_reference(), Err(err), "{}", text);
    }
    let mut s = Stream::from_str("&#65x");
    match s.consume_reference() {
        Err(StreamError::InvalidChar(c, expected, pos)) => {
            assert_eq!(c, 'x');
            assert_eq!(expected, vec![b';']);
            assert_eq!(pos, ErrorPos::new(1, 5));
        }
        other => panic!("unexpected result {:?}", other),
    }
}

#[test]
fn skip_string_error_is_the_mismatching_byte() {
    let mut s = Stream::from_str("ver");
    assert_eq!(s.skip_string(b"version"), Err(StreamError::UnexpectedEndOfStream));
    assert_eq!(s.pos(), 3);
    let mut t = Stream::from_str("vex");
    match t.skip_string(b"version") {
        Err(StreamError::InvalidChar(c, expected, pos)) => {
            assert_eq!(c, 'x');
            assert_eq!(expected, vec![b'r']);
            assert_eq!(pos, ErrorPos::new(1, 3));
        }
        other => panic!("unexpected result {:?}", other),
    }
}
