//! A forward-only, zero-copy tokenizer for XML 1.0 text.
//!
//! [`Stream`] is a cursor over the input bytes; [`Tokenizer`] drives it through a
//! six-state machine and hands out [`Token`]s whose payloads are [`StrSpan`]s that
//! borrow from the input.

pub mod chars;
pub mod span;
pub mod stream;
pub mod token;
pub mod tokenizer;

pub use chars::{
    is_xml_char,
    is_xml_digit,
    is_xml_hex_digit,
    is_xml_letter,
    is_xml_name_byte,
    is_xml_name_char,
    is_xml_name_start,
    is_xml_space,
};
pub use span::{ErrorPos, SpanModel, StrSpan};
pub use stream::{Reference, Stream, StreamError, StreamModel};
pub use token::{ElementEnd, EntityDefinition, Error, ExternalId, Token, TokenType};
pub use tokenizer::{State, Tokenizer, TokenizerModel, transition};
