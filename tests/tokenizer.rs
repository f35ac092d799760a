use xmlparser::{
    ElementEnd, EntityDefinition, Error, ExternalId, State, StrSpan, StreamError, Token,
    TokenType, Tokenizer, transition,
};

fn sp(s: &str) -> StrSpan<'_> {
    StrSpan::from_str(s)
}

fn collect(text: &str) -> Vec<Result<Token<'_>, Error>> {
    let mut t = Tokenizer::from_str(text);
    let mut out = Vec::new();
    while let Some(r) = t.next() {
        out.push(r);
        assert!(out.len() <= text.len());
    }
    out
}

fn tokens(text: &str) -> Vec<Token<'_>> {
    collect(text).into_iter().map(|r| r.unwrap()).collect()
}

#[test]
fn round_trip_element_with_attribute_and_text() {
    let text = "<a b='1'>text</a>";
    let mut t = Tokenizer::from_str(text);
    assert_eq!(t.next(), Some(Ok(Token::ElementStart(sp("a")))));
    assert_eq!(t.next(), Some(Ok(Token::Attribute(sp("b"), sp("1")))));
    assert_eq!(t.next(), Some(Ok(Token::ElementEnd(ElementEnd::Open))));
    assert_eq!(t.next(), Some(Ok(Token::Text(sp("text")))));
    assert_eq!(t.next(), Some(Ok(Token::ElementEnd(ElementEnd::Close(sp("a"))))));
    assert_eq!(t.next(), None);
    assert_eq!(t.next(), None);
    assert_eq!(t.state(), State::Finished);
}

#[test]
fn declaration_with_encoding() {
    let toks = tokens("<?xml version='1.0' encoding='UTF-8'?>");
    assert_eq!(toks, vec![Token::Declaration(sp("1.0"), Some(sp("UTF-8")), None)]);
}

#[test]
fn declaration_with_standalone() {
    let toks = tokens("<?xml version=\"1.1\" standalone=\"yes\" ?>");
    assert_eq!(toks, vec![Token::Declaration(sp("1.1"), None, Some(sp("yes")))]);
}

#[test]
fn declaration_with_bad_standalone_value() {
    let r = collect("<?xml version='1.0' standalone='maybe'?>");
    assert_eq!(r.len(), 1);
    match &r[0] {
        Err(Error::InvalidToken(TokenType::XMLDecl, pos, Some(cause))) => {
            assert_eq!((pos.row, pos.col), (1, 1));
            match cause.as_ref() {
                Error::Stream(StreamError::InvalidChar(c, expected, _)) => {
                    assert_eq!(*c, 'm');
                    assert_eq!(expected, &vec![b'y', b'n']);
                }
                other => panic!("unexpected cause {:?}", other),
            }
        }
        other => panic!("unexpected result {:?}", other),
    }
}

#[test]
fn comment_with_double_hyphen_fails() {
    let r = collect("<!-- a -- b -->");
    assert_eq!(r.len(), 1);
    match &r[0] {
        Err(Error::InvalidToken(TokenType::Comment, pos, None)) => {
            assert_eq!((pos.row, pos.col), (1, 1));
        }
        other => panic!("unexpected result {:?}", other),
    }
}

#[test]
fn comment_is_reported() {
    assert_eq!(tokens("<!-- note -->"), vec![Token::Comment(sp(" note "))]);
}

#[test]
fn unterminated_comment_fails() {
    let r = collect("<!-- note");
    assert_eq!(r.len(), 1);
    assert!(matches!(r[0], Err(Error::InvalidToken(TokenType::Comment, _, None))));
}

#[test]
fn mismatched_close_tag_is_not_checked() {
    let toks = tokens("<a><b></a>");
    assert_eq!(
        toks,
        vec![
            Token::ElementStart(sp("a")),
            Token::ElementEnd(ElementEnd::Open),
            Token::ElementStart(sp("b")),
            Token::ElementEnd(ElementEnd::Open),
            Token::ElementEnd(ElementEnd::Close(sp("a"))),
        ]
    );
}

#[test]
fn unterminated_start_tag_fails() {
    let mut t = Tokenizer::from_str("<a");
    match t.next() {
        Some(Err(e)) => {
            match &e {
                Error::InvalidToken(TokenType::ElementStart, pos, Some(_)) => {
                    assert_eq!((pos.row, pos.col), (1, 1));
                }
                other => panic!("unexpected error {:?}", other),
            }
            assert_eq!(e.root_cause(), &Error::Stream(StreamError::UnexpectedEndOfStream));
        }
        other => panic!("unexpected result {:?}", other),
    }
    assert_eq!(t.next(), None);
    assert_eq!(t.next(), None);
}

#[test]
fn unterminated_attribute_fails_with_end_of_stream_cause() {
    let r = collect("<a b");
    assert_eq!(r.len(), 2);
    assert_eq!(r[0], Ok(Token::ElementStart(sp("a"))));
    match &r[1] {
        Err(e) => {
            assert!(matches!(e, Error::InvalidToken(TokenType::Attribute, _, Some(_))));
            assert_eq!(e.root_cause(), &Error::Stream(StreamError::UnexpectedEndOfStream));
        }
        Ok(t) => panic!("unexpected token {:?}", t),
    }
}

#[test]
fn bare_open_bracket_is_end_of_stream() {
    let r = collect("<");
    assert_eq!(r, vec![Err(Error::Stream(StreamError::UnexpectedEndOfStream))]);
}

#[test]
fn error_is_the_last_result() {
    let mut t = Tokenizer::from_str("<a><!-- x -- y --><b/></a>");
    assert_eq!(t.next(), Some(Ok(Token::ElementStart(sp("a")))));
    assert_eq!(t.next(), Some(Ok(Token::ElementEnd(ElementEnd::Open))));
    assert!(matches!(t.next(), Some(Err(_))));
    assert_eq!(t.state(), State::Finished);
    assert_eq!(t.next(), None);
    assert_eq!(t.next(), None);
}

#[test]
fn depth_follows_open_and_close() {
    let mut t = Tokenizer::from_str("<a><b/><c></c></a>");
    let mut depths = Vec::new();
    while let Some(r) = t.next() {
        r.unwrap();
        depths.push(t.depth());
    }
    // <a  >  <b  />  <c  >  </c>  </a>
    assert_eq!(depths, vec![0, 1, 1, 1, 1, 2, 1, 0]);
    assert_eq!(t.state(), State::Finished);
}

#[test]
fn close_at_depth_zero_saturates() {
    let mut t = Tokenizer::from_str("<a/>");
    t.next().unwrap().unwrap();
    t.next().unwrap().unwrap();
    assert_eq!(t.depth(), 0);
    assert_eq!(t.state(), State::AfterElements);
}

#[test]
fn spans_lie_within_the_buffer() {
    let text = "<root attr=\"v\"><![CDATA[x<y]]><?pi data?>tail</root>";
    for r in collect(text) {
        let t = r.unwrap();
        let spans: Vec<StrSpan> = match t {
            Token::ElementStart(n) => vec![n],
            Token::Attribute(n, v) => vec![n, v],
            Token::Cdata(c) => vec![c],
            Token::ProcessingInstruction(a, b) => vec![a, b.unwrap()],
            Token::Text(x) => vec![x],
            Token::ElementEnd(ElementEnd::Close(n)) => vec![n],
            _ => vec![],
        };
        for s in spans {
            assert!(s.start() <= s.end() && s.end() <= text.len());
            assert_eq!(s.as_bytes(), &text.as_bytes()[s.start()..s.end()]);
        }
    }
}

#[test]
fn cdata_and_processing_instruction() {
    let toks = tokens("<a><![CDATA[x<y]]><?pi data?></a>");
    assert_eq!(
        toks,
        vec![
            Token::ElementStart(sp("a")),
            Token::ElementEnd(ElementEnd::Open),
            Token::Cdata(sp("x<y")),
            Token::ProcessingInstruction(sp("pi"), Some(sp("data"))),
            Token::ElementEnd(ElementEnd::Close(sp("a"))),
        ]
    );
}

#[test]
fn processing_instruction_without_content() {
    assert_eq!(tokens("<?pi?>"), vec![Token::ProcessingInstruction(sp("pi"), None)]);
}

#[test]
fn whitespace_only_text() {
    let toks = tokens("<a> \n</a>");
    assert_eq!(toks[2], Token::Whitespaces(sp(" \n")));
}

#[test]
fn doctype_with_system_id() {
    let toks = tokens("<!DOCTYPE note SYSTEM 'Note.dtd'>");
    assert_eq!(
        toks,
        vec![Token::EmptyDtd(sp("note"), Some(ExternalId::System(sp("Note.dtd"))))]
    );
}

#[test]
fn doctype_with_public_id() {
    let toks = tokens("<!DOCTYPE html PUBLIC \"-//W3C//DTD\" \"x.dtd\">");
    assert_eq!(
        toks,
        vec![Token::EmptyDtd(sp("html"), Some(ExternalId::Public(sp("-//W3C//DTD"), sp("x.dtd"))))]
    );
}

#[test]
fn doctype_with_internal_subset() {
    let text = "<!DOCTYPE x [\n<!ELEMENT x ANY>\n<!ENTITY e 'v'>\n<!ENTITY % p SYSTEM \"p.dtd\">\n]><x/>";
    let toks = tokens(text);
    assert_eq!(
        toks,
        vec![
            Token::DtdStart(sp("x"), None),
            Token::EntityDeclaration(sp("e"), EntityDefinition::EntityValue(sp("v"))),
            Token::EntityDeclaration(
                sp("p"),
                EntityDefinition::ExternalId(ExternalId::System(sp("p.dtd")))
            ),
            Token::DtdEnd,
            Token::ElementStart(sp("x")),
            Token::ElementEnd(ElementEnd::Empty),
        ]
    );
}

#[test]
fn entity_with_ndata() {
    let toks = tokens("<!DOCTYPE x [<!ENTITY img SYSTEM 'a.gif' NDATA gif>]>");
    assert_eq!(
        toks[1],
        Token::EntityDeclaration(
            sp("img"),
            EntityDefinition::ExternalId(ExternalId::System(sp("a.gif")))
        )
    );
}

#[test]
fn entity_with_bad_definition() {
    let r = collect("<!DOCTYPE x [<!ENTITY e STUFF>]>");
    match &r[1] {
        Err(Error::InvalidToken(TokenType::EntityDecl, _, Some(cause))) => {
            assert_eq!(cause.as_ref(), &Error::InvalidExternalId);
        }
        other => panic!("unexpected result {:?}", other),
    }
}

#[test]
fn byte_order_mark_is_skipped() {
    let toks = tokens("\u{FEFF}<a/>");
    assert_eq!(
        toks,
        vec![Token::ElementStart(sp("a")), Token::ElementEnd(ElementEnd::Empty)]
    );
}

#[test]
fn unknown_token_in_document() {
    let r = collect("x");
    assert_eq!(r.len(), 1);
    match &r[0] {
        Err(Error::UnknownToken(pos)) => assert_eq!((pos.row, pos.col), (1, 1)),
        other => panic!("unexpected result {:?}", other),
    }
}

#[test]
fn unexpected_token_after_root() {
    let r = collect("<a/></b>");
    assert_eq!(r.len(), 3);
    match &r[2] {
        Err(Error::UnexpectedToken(TokenType::ElementClose, pos)) => {
            assert_eq!((pos.row, pos.col), (1, 5));
        }
        other => panic!("unexpected result {:?}", other),
    }
}

#[test]
fn trailing_whitespace_and_comment_after_root() {
    let toks = tokens("<a/>\n<!--c-->\n");
    assert_eq!(toks.len(), 3);
    assert_eq!(toks[2], Token::Comment(sp("c")));
}

#[test]
fn text_with_references_is_kept_as_is() {
    let toks = tokens("<a>x &amp; y</a>");
    assert_eq!(toks[2], Token::Text(sp("x &amp; y")));
}

#[test]
fn tokenizer_over_a_sub_span() {
    let whole = StrSpan::from_str("xx<a/>yy");
    let region = whole.slice_region(2, 6);
    let mut t = Tokenizer::from_span(region);
    match t.next() {
        Some(Ok(Token::ElementStart(n))) => {
            assert_eq!(n.start(), 3);
            assert_eq!(n.as_bytes(), b"a");
        }
        other => panic!("unexpected result {:?}", other),
    }
    assert_eq!(t.next(), Some(Ok(Token::ElementEnd(ElementEnd::Empty))));
    assert_eq!(t.next(), None);
}

#[test]
fn token_type_names() {
    assert_eq!(TokenType::XMLDecl.to_str(), "Declaration");
    assert_eq!(TokenType::PI.to_str(), "Processing Instruction");
    assert_eq!(TokenType::CharData.to_str(), "Character data");
    assert_eq!(TokenType::CDSect.to_str(), "CDATA");
}

#[test]
fn transition_table() {
    let name = sp("a");
    assert_eq!(transition(State::Document, 0, &Token::ElementStart(name)), (State::Attributes, 0));
    assert_eq!(
        transition(State::Attributes, 0, &Token::ElementEnd(ElementEnd::Open)),
        (State::Elements, 1)
    );
    assert_eq!(
        transition(State::Attributes, 0, &Token::ElementEnd(ElementEnd::Empty)),
        (State::AfterElements, 0)
    );
    assert_eq!(
        transition(State::Elements, 2, &Token::ElementEnd(ElementEnd::Close(name))),
        (State::Elements, 1)
    );
    assert_eq!(
        transition(State::Elements, 0, &Token::ElementEnd(ElementEnd::Close(name))),
        (State::AfterElements, 0)
    );
    assert_eq!(transition(State::Document, 0, &Token::DtdStart(name, None)), (State::Dtd, 0));
    assert_eq!(transition(State::Dtd, 0, &Token::DtdEnd), (State::Document, 0));
    assert_eq!(transition(State::Elements, 3, &Token::Text(name)), (State::Elements, 3));
}

#[test]
fn trailing_whitespace_ends_the_sequence() {
    let mut t = Tokenizer::from_str("<a/>  \n ");
    t.next().unwrap().unwrap();
    t.next().unwrap().unwrap();
    assert_eq!(t.next(), None);
    assert_eq!(t.pos(), 8);
}

#[test]
fn skipped_declarations_end_the_sequence() {
    let mut t = Tokenizer::from_str("<!DOCTYPE d [<!ELEMENT d ANY> <!ATTLIST d a CDATA #IMPLIED>");
    assert_eq!(t.next(), Some(Ok(Token::DtdStart(sp("d"), None))));
    assert_eq!(t.next(), None);
}

#[test]
fn close_tag_with_spaces() {
    let toks = tokens("<a></a \t>");
    assert_eq!(toks[2], Token::ElementEnd(ElementEnd::Close(sp("a"))));
}

#[test]
fn close_tag_without_bracket_fails() {
    let r = collect("<a></a b>");
    assert!(matches!(r[2], Err(Error::InvalidToken(TokenType::ElementClose, _, Some(_)))));
}

#[test]
fn unterminated_cdata_fails() {
    let r = collect("<a><![CDATA[x");
    assert!(matches!(r[2], Err(Error::InvalidToken(TokenType::CDSect, _, Some(_)))));
}

#[test]
fn attribute_with_double_quotes_and_spaces() {
    let toks = tokens("<a  x = \"1 '2'\"  y='\"'/>");
    assert_eq!(
        toks,
        vec![
            Token::ElementStart(sp("a")),
            Token::Attribute(sp("x"), sp("1 '2'")),
            Token::Attribute(sp("y"), sp("\"")),
            Token::ElementEnd(ElementEnd::Empty),
        ]
    );
}

#[test]
fn text_made_of_space_references_is_whitespace() {
    let toks = tokens("<a>&#x20;&#9; </a>");
    assert_eq!(toks[2], Token::Whitespaces(sp("&#x20;&#9; ")));
}

#[test]
fn declaration_version_must_start_with_one() {
    let r = collect("<?xml version='2.0'?>");
    assert_eq!(r.len(), 1);
    assert!(matches!(r[0], Err(Error::InvalidToken(TokenType::XMLDecl, _, Some(_)))));
}

#[test]
fn declaration_partial_keyword_is_consumed() {
    let toks = tokens("<?xml version='1.0' en?>");
    assert_eq!(toks, vec![Token::Declaration(sp("1.0"), None, None)]);
}

#[test]
fn declaration_then_root() {
    let toks = tokens("<?xml version='1.0'?>\n<root/>");
    assert_eq!(
        toks,
        vec![
            Token::Declaration(sp("1.0"), None, None),
            Token::ElementStart(sp("root")),
            Token::ElementEnd(ElementEnd::Empty),
        ]
    );
}

#[test]
fn text_in_document_is_unknown() {
    let r = collect("  x");
    assert_eq!(r.len(), 1);
    match &r[0] {
        Err(Error::UnknownToken(pos)) => assert_eq!((pos.row, pos.col), (1, 3)),
        other => panic!("unexpected result {:?}", other),
    }
}

#[test]
fn unknown_markup_declaration() {
    let r = collect("<!FOO>");
    assert_eq!(r.len(), 1);
    match &r[0] {
        Err(Error::UnknownToken(pos)) => assert_eq!((pos.row, pos.col), (1, 1)),
        other => panic!("unexpected result {:?}", other),
    }
}

#[test]
fn unterminated_skipped_declaration_fails() {
    let r = collect("<!DOCTYPE d [<!ELEMENT d ANY");
    assert_eq!(r.len(), 2);
    assert!(matches!(r[1], Err(Error::Stream(StreamError::UnexpectedEndOfStream))));
}

#[test]
fn start_tag_errors() {
    let r = collect("<a 1='x'>");
    match &r[1] {
        Err(e) => {
            assert!(matches!(e, Error::InvalidToken(TokenType::Attribute, _, Some(_))));
            assert_eq!(e.root_cause(), &Error::Stream(StreamError::InvalidName));
        }
        other => panic!("unexpected result {:?}", other),
    }
    let r = collect("<a/x");
    match &r[1] {
        Err(e) => assert!(matches!(e.root_cause(), Error::Stream(StreamError::InvalidChar('x', _, _)))),
        other => panic!("unexpected result {:?}", other),
    }
}

#[test]
fn entity_definition_with_bad_start() {
    let r = collect("<!DOCTYPE x [<!ENTITY e v>]>");
    match &r[1] {
        Err(e) => {
            assert!(matches!(e, Error::InvalidToken(TokenType::EntityDecl, _, Some(_))));
            match e.root_cause() {
                Error::Stream(StreamError::InvalidChar(c, expected, _)) => {
                    assert_eq!(*c, 'v');
                    assert_eq!(expected, &b"\"'SP".to_vec());
                }
                other => panic!("unexpected cause {:?}", other),
            }
        }
        other => panic!("unexpected result {:?}", other),
    }
}

#[test]
fn unterminated_cdata_position() {
    let r = collect("<a><![CDATA[x");
    match &r[2] {
        Err(Error::InvalidToken(TokenType::CDSect, pos, Some(_))) => {
            assert_eq!((pos.row, pos.col), (1, 4));
        }
        other => panic!("unexpected result {:?}", other),
    }
}

#[test]
fn only_a_real_byte_order_mark_is_skipped() {
    let toks = tokens("<a>\u{F000}</a>");
    assert_eq!(toks[2], Token::Text(sp("\u{F000}")));
    let r = collect("\u{F000}<a/>");
    assert!(matches!(r[0], Err(Error::UnknownToken(_))));
}

#[test]
fn bad_version_keeps_its_cause() {
    let r = collect("<?xml version='2.0'?>");
    match &r[0] {
        Err(Error::InvalidToken(TokenType::XMLDecl, pos, Some(cause))) => {
            assert_eq!((pos.row, pos.col), (1, 1));
            match cause.as_ref() {
                Error::Stream(StreamError::InvalidChar(c, expected, _)) => {
                    assert_eq!(*c, '2');
                    assert_eq!(expected, &vec![b'1']);
                }
                other => panic!("unexpected cause {:?}", other),
            }
        }
        other => panic!("unexpected result {:?}", other),
    }
}

#[test]
fn skipped_declaration_without_space() {
    let r = collect("<!DOCTYPE d [<!ELEMENTx>]>");
    match &r[1] {
        Err(Error::Stream(StreamError::InvalidChar(c, expected, _))) => {
            assert_eq!(*c, 'x');
            assert_eq!(expected, &b"Space".to_vec());
        }
        other => panic!("unexpected result {:?}", other),
    }
}
