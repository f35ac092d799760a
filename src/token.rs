//! Tokens, construct kinds and tokenizer errors.

use vstd::prelude::*;
use crate::span::{ErrorPos, SpanModel, StrSpan};
use crate::stream::StreamError;

verus! {

/// How an element's start tag ends, or an end tag.
#[derive(Clone, Copy, PartialEq, Debug)]
pub enum ElementEnd<'a> {
    /// `>`
    Open,
    /// `</name>`
    Close(StrSpan<'a>),
    /// `/>`
    Empty,
}

/// An [ExternalID](https://www.w3.org/TR/xml/#NT-ExternalID).
#[derive(Clone, Copy, PartialEq, Debug)]
pub enum ExternalId<'a> {
    System(StrSpan<'a>),
    Public(StrSpan<'a>, StrSpan<'a>),
}

/// An [EntityDef](https://www.w3.org/TR/xml/#NT-EntityDef).
#[derive(Clone, Copy, PartialEq, Debug)]
pub enum EntityDefinition<'a> {
    EntityValue(StrSpan<'a>),
    ExternalId(ExternalId<'a>),
}

/// An XML token.
#[derive(Clone, Copy, PartialEq, Debug)]
pub enum Token<'a> {
    /// `<?xml version='1.0' encoding='UTF-8' standalone='yes'?>`: version, encoding, standalone.
    Declaration(StrSpan<'a>, Option<StrSpan<'a>>, Option<StrSpan<'a>>),
    /// `<?target content?>`
    ProcessingInstruction(StrSpan<'a>, Option<StrSpan<'a>>),
    /// `<!-- text -->`
    Comment(StrSpan<'a>),
    /// `<!DOCTYPE name ExternalID [`
    DtdStart(StrSpan<'a>, Option<ExternalId<'a>>),
    /// `<!DOCTYPE name ExternalID>`
    EmptyDtd(StrSpan<'a>, Option<ExternalId<'a>>),
    /// `<!ENTITY name EntityDef>`
    EntityDeclaration(StrSpan<'a>, EntityDefinition<'a>),
    /// `]>`
    DtdEnd,
    /// `<name`
    ElementStart(StrSpan<'a>),
    /// `name='value'`
    Attribute(StrSpan<'a>, StrSpan<'a>),
    /// `>`, `</name>` or `/>`
    ElementEnd(ElementEnd<'a>),
    /// Character data.
    Text(StrSpan<'a>),
    /// Character data made of `S` only.
    Whitespaces(StrSpan<'a>),
    /// `<![CDATA[text]]>`
    Cdata(StrSpan<'a>),
}

/// The kinds of construct that the tokenizer tells apart.
#[derive(Clone, Copy, PartialEq, Eq, Structural, Debug)]
pub enum TokenType {
    XMLDecl,
    Comment,
    PI,
    DoctypeDecl,
    ElementDecl,
    AttlistDecl,
    EntityDecl,
    NotationDecl,
    DoctypeEnd,
    ElementStart,
    ElementClose,
    Attribute,
    CDSect,
    Whitespace,
    CharData,
}

impl TokenType {
    /// A human-readable name of the construct.
    pub fn to_str(&self) -> (r: &'static str)
        ensures
            r@ == token_type_name(*self),
    {
        match *self {
            TokenType::XMLDecl => "Declaration",
            TokenType::Comment => "Comment",
            TokenType::PI => "Processing Instruction",
            TokenType::DoctypeDecl => "Doctype Declaration",
            TokenType::ElementDecl => "Doctype Element Declaration",
            TokenType::AttlistDecl => "Doctype Attributes Declaration",
            TokenType::EntityDecl => "Doctype Entity Declaration",
            TokenType::NotationDecl => "Doctype Notation Declaration",
            TokenType::DoctypeEnd => "Doctype End",
            TokenType::ElementStart => "Element Start",
            TokenType::ElementClose => "Element Close",
            TokenType::Attribute => "Attribute",
            TokenType::CDSect => "CDATA",
            TokenType::Whitespace => "Whitespace",
            TokenType::CharData => "Character data",
        }
    }
}

pub open spec fn token_type_name(t: TokenType) -> Seq<char> {
    match t {
        TokenType::XMLDecl => "Declaration"@,
        TokenType::Comment => "Comment"@,
        TokenType::PI => "Processing Instruction"@,
        TokenType::DoctypeDecl => "Doctype Declaration"@,
        TokenType::ElementDecl => "Doctype Element Declaration"@,
        TokenType::AttlistDecl => "Doctype Attributes Declaration"@,
        TokenType::EntityDecl => "Doctype Entity Declaration"@,
        TokenType::NotationDecl => "Doctype Notation Declaration"@,
        TokenType::DoctypeEnd => "Doctype End"@,
        TokenType::ElementStart => "Element Start"@,
        TokenType::ElementClose => "Element Close"@,
        TokenType::Attribute => "Attribute"@,
        TokenType::CDSect => "CDATA"@,
        TokenType::Whitespace => "Whitespace"@,
        TokenType::CharData => "Character data"@,
    }
}

/// Tokenizer errors.
#[derive(PartialEq, Debug)]
pub enum Error {
    /// A cursor error met before any construct was recognized.
    Stream(StreamError),
    /// Nothing that can start a construct is here.
    UnknownToken(ErrorPos),
    /// A construct that is not allowed in the current state starts here.
    UnexpectedToken(TokenType, ErrorPos),
    /// The construct that starts here is malformed; the error that stopped it, if any.
    InvalidToken(TokenType, ErrorPos, Option<Box<Error>>),
    /// An entity definition starts like an external identifier but is none.
    InvalidExternalId,
}

impl Error {
    /// The innermost error: the cause of the cause, and so on.
    pub fn root_cause(&self) -> (r: &Error)
        ensures
            *r == root_of(*self),
        decreases self,
    {
        match self {
            Error::InvalidToken(_, _, Some(cause)) => cause.root_cause(),
            _ => self,
        }
    }
}

/// The innermost cause of `e`: `e` itself unless it wraps a cause.
pub open spec fn root_of(e: Error) -> Error
    decreases e,
{
    match e {
        Error::InvalidToken(_, _, Some(cause)) => root_of(*cause),
        _ => e,
    }
}

impl From<StreamError> for Error {
    fn from(e: StreamError) -> (r: Error)
        ensures
            r == Error::Stream(e),
    {
        Error::Stream(e)
    }
}

impl vstd::std_specs::convert::FromSpecImpl<StreamError> for Error {
    open spec fn obeys_from_spec() -> bool {
        true
    }

    open spec fn from_spec(e: StreamError) -> Error {
        Error::Stream(e)
    }
}

/// The span is a range of `text` within `[lo, hi]`.
pub open spec fn span_within(sp: SpanModel, text: Seq<u8>, lo: int, hi: int) -> bool {
    sp.text == text && lo <= sp.start <= sp.end <= hi
}

pub open spec fn opt_span_within(sp: Option<StrSpan>, text: Seq<u8>, lo: int, hi: int) -> bool {
    match sp {
        Some(s) => span_within(s@, text, lo, hi),
        None => true,
    }
}

impl<'a> ExternalId<'a> {
    pub open spec fn within(self, text: Seq<u8>, lo: int, hi: int) -> bool {
        match self {
            ExternalId::System(a) => span_within(a@, text, lo, hi),
            ExternalId::Public(a, b) => span_within(a@, text, lo, hi) && span_within(
                b@,
                text,
                lo,
                hi,
            ),
        }
    }
}

pub open spec fn opt_id_within(id: Option<ExternalId>, text: Seq<u8>, lo: int, hi: int) -> bool {
    match id {
        Some(i) => i.within(text, lo, hi),
        None => true,
    }
}

impl<'a> Token<'a> {
    /// Every span of the token is a range of `text` within `[lo, hi]`.
    pub open spec fn within(self, text: Seq<u8>, lo: int, hi: int) -> bool {
        match self {
            Token::Declaration(v, e, s) => span_within(v@, text, lo, hi) && opt_span_within(
                e,
                text,
                lo,
                hi,
            ) && opt_span_within(s, text, lo, hi),
            Token::ProcessingInstruction(t, c) => span_within(t@, text, lo, hi) && opt_span_within(
                c,
                text,
                lo,
                hi,
            ),
            Token::Comment(t) => span_within(t@, text, lo, hi),
            Token::DtdStart(n, id) => span_within(n@, text, lo, hi) && opt_id_within(
                id,
                text,
                lo,
                hi,
            ),
            Token::EmptyDtd(n, id) => span_within(n@, text, lo, hi) && opt_id_within(
                id,
                text,
                lo,
                hi,
            ),
            Token::EntityDeclaration(n, d) => span_within(n@, text, lo, hi) && match d {
                EntityDefinition::EntityValue(v) => span_within(v@, text, lo, hi),
                EntityDefinition::ExternalId(id) => id.within(text, lo, hi),
            },
            Token::DtdEnd => true,
            Token::ElementStart(n) => span_within(n@, text, lo, hi),
            Token::Attribute(n, v) => span_within(n@, text, lo, hi) && span_within(
                v@,
                text,
                lo,
                hi,
            ),
            Token::ElementEnd(e) => match e {
                ElementEnd::Close(n) => span_within(n@, text, lo, hi),
                _ => true,
            },
            Token::Text(t) => span_within(t@, text, lo, hi),
            Token::Whitespaces(t) => span_within(t@, text, lo, hi),
            Token::Cdata(t) => span_within(t@, text, lo, hi),
        }
    }
}

} // verus!
