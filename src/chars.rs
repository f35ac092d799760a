//! Byte and character classes of the XML 1.0 grammar, and UTF-8 decoding at a position.

use vstd::prelude::*;
use vstd::utf8::*;

verus! {

/// `S`: space, tab, line feed or carriage return.
pub open spec fn spec_xml_space(c: u8) -> bool {
    c == 0x20 || c == 0x09 || c == 0x0A || c == 0x0D
}

pub open spec fn spec_xml_digit(c: u8) -> bool {
    0x30 <= c <= 0x39
}

pub open spec fn spec_xml_hex_digit(c: u8) -> bool {
    spec_xml_digit(c) || (0x41 <= c <= 0x46) || (0x61 <= c <= 0x66)
}

pub open spec fn spec_xml_letter(c: u8) -> bool {
    (0x41 <= c <= 0x5A) || (0x61 <= c <= 0x7A)
}

/// An ASCII byte allowed inside a `Name`.
pub open spec fn spec_xml_name_byte(c: u8) -> bool {
    spec_xml_letter(c) || spec_xml_digit(c) || c == 0x3A || c == 0x5F || c == 0x2D || c == 0x2E
}

/// `NameStartChar`.
pub open spec fn spec_xml_name_start(c: u32) -> bool {
    if c <= 128 {
        spec_xml_letter(c as u8) || c == 0x3A || c == 0x5F
    } else {
        (0xC0 <= c <= 0xD6) || (0xD8 <= c <= 0xF6) || (0xF8 <= c <= 0x2FF) || (0x370 <= c
            <= 0x37D) || (0x37F <= c <= 0x1FFF) || (0x200C <= c <= 0x200D) || (0x2070 <= c
            <= 0x218F) || (0x2C00 <= c <= 0x2FEF) || (0x3001 <= c <= 0xD7FF) || (0xF900 <= c
            <= 0xFDCF) || (0xFDF0 <= c <= 0xFFFD) || (0x10000 <= c <= 0xEFFFF)
    }
}

/// `NameChar`.
pub open spec fn spec_xml_name_char(c: u32) -> bool {
    if c <= 128 {
        spec_xml_name_byte(c as u8)
    } else {
        c == 0xB7 || (0xC0 <= c <= 0xD6) || (0xD8 <= c <= 0xF6) || (0xF8 <= c <= 0x37D) || (0x37F
            <= c <= 0x1FFF) || (0x200C <= c <= 0x200D) || (0x203F <= c <= 0x2040) || (0x2070 <= c
            <= 0x218F) || (0x2C00 <= c <= 0x2FEF) || (0x3001 <= c <= 0xD7FF) || (0xF900 <= c
            <= 0xFDCF) || (0xFDF0 <= c <= 0xFFFD) || (0x10000 <= c <= 0xEFFFF)
    }
}

/// `Char`: a code point that may appear in an XML document.
pub open spec fn spec_xml_char(c: u32) -> bool {
    c == 0x09 || c == 0x0A || c == 0x0D || (0x20 <= c <= 0xD7FF) || (0xE000 <= c <= 0xFFFD) || (
    0x10000 <= c <= 0x10FFFF)
}

pub fn is_xml_space(c: u8) -> (r: bool)
    ensures
        r == spec_xml_space(c),
{
    c == 0x20 || c == 0x09 || c == 0x0A || c == 0x0D
}

pub fn is_xml_digit(c: u8) -> (r: bool)
    ensures
        r == spec_xml_digit(c),
{
    0x30 <= c && c <= 0x39
}

pub fn is_xml_hex_digit(c: u8) -> (r: bool)
    ensures
        r == spec_xml_hex_digit(c),
{
    is_xml_digit(c) || (0x41 <= c && c <= 0x46) || (0x61 <= c && c <= 0x66)
}

pub fn is_xml_letter(c: u8) -> (r: bool)
    ensures
        r == spec_xml_letter(c),
{
    (0x41 <= c && c <= 0x5A) || (0x61 <= c && c <= 0x7A)
}

pub fn is_xml_name_byte(c: u8) -> (r: bool)
    ensures
        r == spec_xml_name_byte(c),
{
    is_xml_letter(c) || is_xml_digit(c) || c == 0x3A || c == 0x5F || c == 0x2D || c == 0x2E
}

pub fn is_xml_name_start(c: u32) -> (r: bool)
    ensures
        r == spec_xml_name_start(c),
{
    if c <= 128 {
        is_xml_letter(c as u8) || c == 0x3A || c == 0x5F
    } else {
        (0xC0 <= c && c <= 0xD6) || (0xD8 <= c && c <= 0xF6) || (0xF8 <= c && c <= 0x2FF) || (0x370
            <= c && c <= 0x37D) || (0x37F <= c && c <= 0x1FFF) || (0x200C <= c && c <= 0x200D) || (
        0x2070 <= c && c <= 0x218F) || (0x2C00 <= c && c <= 0x2FEF) || (0x3001 <= c && c <= 0xD7FF)
            || (0xF900 <= c && c <= 0xFDCF) || (0xFDF0 <= c && c <= 0xFFFD) || (0x10000 <= c && c
            <= 0xEFFFF)
    }
}

pub fn is_xml_name_char(c: u32) -> (r: bool)
    ensures
        r == spec_xml_name_char(c),
{
    if c <= 128 {
        is_xml_name_byte(c as u8)
    } else {
        c == 0xB7 || (0xC0 <= c && c <= 0xD6) || (0xD8 <= c && c <= 0xF6) || (0xF8 <= c && c
            <= 0x37D) || (0x37F <= c && c <= 0x1FFF) || (0x200C <= c && c <= 0x200D) || (0x203F
            <= c && c <= 0x2040) || (0x2070 <= c && c <= 0x218F) || (0x2C00 <= c && c <= 0x2FEF)
            || (0x3001 <= c && c <= 0xD7FF) || (0xF900 <= c && c <= 0xFDCF) || (0xFDF0 <= c && c
            <= 0xFFFD) || (0x10000 <= c && c <= 0xEFFFF)
    }
}

pub fn is_xml_char(c: u32) -> (r: bool)
    ensures
        r == spec_xml_char(c),
{
    c == 0x09 || c == 0x0A || c == 0x0D || (0x20 <= c && c <= 0xD7FF) || (0xE000 <= c && c
        <= 0xFFFD) || (0x10000 <= c && c <= 0x10FFFF)
}

/// The first character of `b` and the number of bytes that encode it. A byte that does
/// not start a well-formed UTF-8 encoding reads as U+FFFD and counts as one byte.
pub open spec fn first_char(b: Seq<u8>) -> (u32, int) {
    if valid_first_scalar(b) {
        (decode_first_scalar(b), length_of_first_scalar(b))
    } else {
        (0xFFFD, 1)
    }
}

/// The code point that `first_char` reads is a Unicode scalar value, so it survives a
/// round trip through `char`.
pub proof fn lemma_char_at_scalar(s: Seq<u8>, p: int)
    ensures
        is_scalar(first_char(s.subrange(p, s.len() as int)).0),
        (first_char(s.subrange(p, s.len() as int)).0 as char) as u32 == first_char(
            s.subrange(p, s.len() as int),
        ).0,
{
    let b = s.subrange(p, s.len() as int);
    if valid_first_scalar(b) {
        let b0 = b[0];
        if is_leading_byte_width_1(b0) {
            assert((b0 & 0x7F) as u32 <= 0x7F) by (bit_vector);
        } else if is_leading_byte_width_2(b0) {
            let b1 = b[1];
            assert((((b0 & 0x1F) as u32) << 6) | ((b1 & 0x3f) as u32) <= 0x7FF) by (bit_vector);
        } else if is_leading_byte_width_3(b0) {
            let b1 = b[1];
            let b2 = b[2];
            assert((((b0 & 0x0F) as u32) << 12) | (((b1 & 0x3f) as u32) << 6) | ((b2 & 0x3f) as u32)
                <= 0xFFFF) by (bit_vector);
        }
    }
}

/// Decodes the character that starts at `pos`, reading no byte at or after `end`.
pub fn decode_char_at(bytes: &[u8], pos: usize, end: usize) -> (r: (u32, usize))
    requires
        pos < end <= bytes@.len(),
    ensures
        r.0 == first_char(bytes@.subrange(pos as int, end as int)).0,
        r.1 == first_char(bytes@.subrange(pos as int, end as int)).1,
        1 <= r.1 <= end - pos,
        is_scalar(r.0),
{
    let ghost b = bytes@.subrange(pos as int, end as int);
    let n = end - pos;
    let b0 = bytes[pos];
    if b0 <= 0x7f {
        return ((b0 & 0x7F) as u32, 1);
    }
    if 0xc0 <= b0 && b0 <= 0xdf && n >= 2 {
        let b1 = bytes[pos + 1];
        if 0x80 <= b1 && b1 <= 0xbf {
            let c = (((b0 & 0x1F) as u32) << 6) | ((b1 & 0x3f) as u32);
            assert(c == decode_first_codepoint(b));
            assert((((b0 & 0x1F) as u32) << 6) | ((b1 & 0x3f) as u32) <= 0x7FF) by (bit_vector);
            if 0x80 <= c {
                return (c, 2);
            }
        }
    } else if 0xe0 <= b0 && b0 <= 0xef && n >= 3 {
        let b1 = bytes[pos + 1];
        let b2 = bytes[pos + 2];
        if 0x80 <= b1 && b1 <= 0xbf && 0x80 <= b2 && b2 <= 0xbf {
            let c = (((b0 & 0x0F) as u32) << 12) | (((b1 & 0x3f) as u32) << 6) | ((b2
                & 0x3f) as u32);
            assert(c == decode_first_codepoint(b));
            assert((((b0 & 0x0F) as u32) << 12) | (((b1 & 0x3f) as u32) << 6) | ((b2 & 0x3f) as u32)
                <= 0xFFFF) by (bit_vector);
            if 0x800 <= c && !(0xD800 <= c && c <= 0xDFFF) {
                return (c, 3);
            }
        }
    } else if 0xf0 <= b0 && b0 <= 0xf7 && n >= 4 {
        let b1 = bytes[pos + 1];
        let b2 = bytes[pos + 2];
        let b3 = bytes[pos + 3];
        if 0x80 <= b1 && b1 <= 0xbf && 0x80 <= b2 && b2 <= 0xbf && 0x80 <= b3 && b3 <= 0xbf {
            let c = (((b0 & 0x07) as u32) << 18) | (((b1 & 0x3f) as u32) << 12) | (((b2
                & 0x3f) as u32) << 6) | ((b3 & 0x3f) as u32);
            assert(c == decode_first_codepoint(b));
            if 0x10000 <= c && c <= 0x10ffff && !(0xD800 <= c && c <= 0xDFFF) {
                return (c, 4);
            }
        }
    }
    (0xFFFD, 1)
}

} // verus!
