//! A forward-only cursor over a span of the input text.

use vstd::prelude::*;
use vstd::utf8::is_scalar;
use vstd::string::StringSliceAdditionalSpecFns;
use crate::chars::{
    decode_char_at,
    first_char,
    is_xml_char,
    is_xml_digit,
    is_xml_hex_digit,
    is_xml_name_char,
    is_xml_name_start,
    is_xml_space,
    spec_xml_char,
    spec_xml_digit,
    spec_xml_hex_digit,
    spec_xml_name_char,
    spec_xml_name_start,
    spec_xml_space,
};
use crate::span::{ErrorPos, SpanModel, StrSpan};

verus! {

/// Errors of the cursor's own operations.
#[derive(Clone, PartialEq, Debug)]
pub enum StreamError {
    /// The input ended where more was expected.
    UnexpectedEndOfStream,
    /// A `Name` was empty or started with a character that cannot start one.
    InvalidName,
    /// The character found, the bytes that were expected, and where.
    InvalidChar(char, Vec<u8>, ErrorPos),
    /// A malformed character or entity reference.
    InvalidReference,
}

/// A [Reference](https://www.w3.org/TR/xml/#NT-Reference) value.
#[derive(PartialEq, Clone, Copy, Debug)]
pub enum Reference<'a> {
    /// An entity reference that is not one of the five predefined ones.
    EntityRef(StrSpan<'a>),
    /// A character reference, or a predefined entity.
    CharRef(char),
}

/// Relies on `char::from_u32`: `Some` exactly for Unicode scalar values, holding that value.
#[verifier::external_body]
fn char_from_u32(v: u32) -> (r: Option<char>)
    ensures
        r.is_some() <==> is_scalar(v),
        r matches Some(c) ==> c as u32 == v,
{
    char::from_u32(v)
}

/// The character of a scalar value.
fn scalar_char(v: u32) -> (r: char)
    requires
        is_scalar(v),
    ensures
        r as u32 == v,
{
    match char_from_u32(v) {
        Some(c) => c,
        None => '\u{FFFD}',
    }
}

/// What a [`Stream`] denotes: the whole buffer, the offset `base` of the stream's own
/// region within it, the region's length `end`, and the cursor `pos` within the region.
pub struct StreamModel {
    pub text: Seq<u8>,
    pub base: int,
    pub pos: int,
    pub end: int,
}

impl StreamModel {
    pub open spec fn wf(self) -> bool {
        &&& 0 <= self.base
        &&& 0 <= self.pos <= self.end
        &&& self.base + self.end <= self.text.len()
        &&& self.base + self.end <= usize::MAX
    }

    /// The bytes of the stream's region.
    pub open spec fn bytes(self) -> Seq<u8> {
        self.text.subrange(self.base, self.base + self.end)
    }

    pub open spec fn at_end(self) -> bool {
        self.pos >= self.end
    }

    pub open spec fn byte(self, i: int) -> u8 {
        self.bytes()[i]
    }

    pub open spec fn with_pos(self, p: int) -> StreamModel {
        StreamModel { pos: p, ..self }
    }

    /// The region from the cursor on begins with `t`.
    pub open spec fn starts_with(self, t: Seq<u8>) -> bool {
        self.pos + t.len() <= self.end && self.bytes().subrange(self.pos, self.pos + t.len()) == t
    }

    /// The span of the region's bytes `[a, b)`.
    pub open spec fn region(self, a: int, b: int) -> SpanModel {
        SpanModel { text: self.text, start: self.base + a, end: self.base + b }
    }
}

/// Number of line feeds among the first `k` bytes.
pub open spec fn newlines(t: Seq<u8>, k: int) -> nat
    decreases k,
{
    if k <= 0 {
        0
    } else {
        newlines(t, k - 1) + if t[k - 1] == 0x0A {
            1nat
        } else {
            0nat
        }
    }
}

/// Column reported for offset `k`: it starts at 1, grows by one per byte, and is 2 right
/// after a line feed.
pub open spec fn column(t: Seq<u8>, k: int) -> nat
    decreases k,
{
    if k <= 0 {
        1
    } else if t[k - 1] == 0x0A {
        2
    } else {
        column(t, k - 1) + 1
    }
}

pub open spec fn saturate(x: nat) -> usize {
    if x > usize::MAX {
        usize::MAX
    } else {
        x as usize
    }
}

/// Row and column of the absolute offset `k` of `t`.
pub open spec fn error_pos_at(t: Seq<u8>, k: int) -> ErrorPos {
    ErrorPos { row: saturate(1 + newlines(t, k)), col: saturate(column(t, k)) }
}

/// Streaming text parsing interface.
#[derive(Clone, Copy, PartialEq, Debug)]
pub struct Stream<'a> {
    span: StrSpan<'a>,
    pos: usize,
}

impl<'a> View for Stream<'a> {
    type V = StreamModel;

    closed spec fn view(&self) -> StreamModel {
        StreamModel {
            text: self.span@.text,
            base: self.span@.start,
            pos: self.pos as int,
            end: self.span@.end - self.span@.start,
        }
    }
}

impl<'a> Stream<'a> {
    pub open spec fn wf(&self) -> bool {
        self@.wf()
    }

    /// The same stream with its cursor at `p`.
    pub closed spec fn at_pos(self, p: int) -> Stream<'a> {
        Stream { span: self.span, pos: p as usize }
    }

    pub broadcast proof fn lemma_at_pos(self, p: int)
        requires
            0 <= p <= usize::MAX,
        ensures
            #[trigger] self.at_pos(p)@ == self@.with_pos(p),
    {
    }

    /// Constructs a new `Stream` over a string span.
    pub fn from_span(span: StrSpan<'a>) -> (r: Stream<'a>)
        ensures
            r.wf(),
            r@ == (StreamModel { text: span@.text, base: span@.start, pos: 0, end: span@.len() }),
    {
        let _ = span.bounds();
        Stream { span, pos: 0 }
    }

    /// Constructs a new `Stream` over a whole string.
    pub fn from_str(text: &'a str) -> (r: Stream<'a>)
        ensures
            r.wf(),
            r@ == (StreamModel {
                text: text.spec_bytes(),
                base: 0,
                pos: 0,
                end: text.spec_bytes().len() as int,
            }),
    {
        Stream::from_span(StrSpan::from_str(text))
    }

    /// The underlying string span.
    pub fn span(&self) -> (r: StrSpan<'a>)
        ensures
            r@ == self@.region(0, self@.end),
    {
        self.span
    }

    /// The current position.
    pub fn pos(&self) -> (r: usize)
        ensures
            r == self@.pos,
    {
        self.pos
    }

    /// Moves the cursor to the end; used to stop parsing on error.
    pub fn jump_to_end(&mut self)
        requires
            old(self).wf(),
        ensures
            final(self).wf(),
            final(self)@ == old(self)@.with_pos(old(self)@.end),
    {
        self.pos = self.span.len();
    }

    /// Checks whether the stream has reached its end.
    pub fn at_end(&self) -> (r: bool)
        ensures
            r == self@.at_end(),
    {
        self.pos >= self.span.len()
    }

    fn curr_byte_unchecked(&self) -> (r: u8)
        requires
            self.wf(),
            !self@.at_end(),
        ensures
            r == self@.byte(self@.pos),
    {
        self.span.byte_at(self.pos)
    }

    /// The byte at the current position.
    pub fn curr_byte(&self) -> (r: Result<u8, StreamError>)
        requires
            self.wf(),
        ensures
            self@.at_end() <==> r == Err::<u8, StreamError>(StreamError::UnexpectedEndOfStream),
            !self@.at_end() ==> r == Ok::<u8, StreamError>(self@.byte(self@.pos)),
    {
        if self.at_end() {
            return Err(StreamError::UnexpectedEndOfStream);
        }
        Ok(self.curr_byte_unchecked())
    }

    /// Checks that the current byte is `c`; `false` at the end.
    pub fn is_curr_byte_eq(&self, c: u8) -> (r: bool)
        requires
            self.wf(),
        ensures
            r == (!self@.at_end() && self@.byte(self@.pos) == c),
    {
        if !self.at_end() {
            self.curr_byte_unchecked() == c
        } else {
            false
        }
    }

    /// The byte at the current position, if there is one.
    pub fn get_curr_byte(&self) -> (r: Option<u8>)
        requires
            self.wf(),
        ensures
            self@.at_end() ==> r.is_none(),
            !self@.at_end() ==> r == Some(self@.byte(self@.pos)),
    {
        if !self.at_end() {
            Some(self.curr_byte_unchecked())
        } else {
            None
        }
    }

    /// The byte after the current one.
    pub fn next_byte(&self) -> (r: Result<u8, StreamError>)
        requires
            self.wf(),
        ensures
            self@.pos + 1 >= self@.end <==> r == Err::<u8, StreamError>(
                StreamError::UnexpectedEndOfStream,
            ),
            self@.pos + 1 < self@.end ==> r == Ok::<u8, StreamError>(self@.byte(self@.pos + 1)),
    {
        if self.pos >= self.span.len() || self.pos + 1 >= self.span.len() {
            return Err(StreamError::UnexpectedEndOfStream);
        }
        Ok(self.span.byte_at(self.pos + 1))
    }

    /// Code point and encoded length of the character at the current position.
    fn curr_code_point(&self) -> (r: (u32, usize))
        requires
            self.wf(),
            !self@.at_end(),
        ensures
            r.0 == char_at(self@.bytes(), self@.pos).0,
            r.1 == char_at(self@.bytes(), self@.pos).1,
            1 <= r.1 <= self@.end - self@.pos,
            is_scalar(r.0),
    {
        let base = self.span.start();
        let bytes = self.span.full_bytes();
        let end = self.span.len();
        proof {
            assert(self@.text.subrange(base + self@.pos, base + end) =~= self@.bytes().subrange(
                self@.pos,
                self@.bytes().len() as int,
            ));
        }
        decode_char_at(bytes, base + self.pos, base + end)
    }

    /// The character at the current position.
    pub fn curr_char(&self) -> (r: Result<char, StreamError>)
        requires
            self.wf(),
        ensures
            self@.at_end() <==> r is Err,
            r matches Err(e) ==> e == StreamError::UnexpectedEndOfStream,
            r matches Ok(c) ==> c as u32 == char_at(self@.bytes(), self@.pos).0,
    {
        if self.at_end() {
            return Err(StreamError::UnexpectedEndOfStream);
        }
        let (v, _) = self.curr_code_point();
        Ok(scalar_char(v))
    }

    /// Advances by `n` bytes.
    pub fn advance(&mut self, n: usize)
        requires
            old(self).wf(),
            old(self)@.pos + n <= old(self)@.end,
        ensures
            final(self).wf(),
            final(self)@ == old(self)@.with_pos(old(self)@.pos + n),
    {
        self.pos = self.pos + n;
    }

    /// Row and column of the current position. Scans the whole text before it: use
    /// only for errors.
    pub fn gen_error_pos(&self) -> (r: ErrorPos)
        requires
            self.wf(),
        ensures
            r == error_pos_at(self@.text, self@.base + self@.pos),
    {
        let text = self.span.full_bytes();
        let k = self.span.start() + self.pos;
        let mut row: usize = 1;
        let mut col: usize = 1;
        let mut n: usize = 0;
        while n < k
            invariant
                k == self@.base + self@.pos,
                k <= text@.len(),
                text@ == self@.text,
                n <= k,
                row == saturate(1 + newlines(text@, n as int)),
                col == saturate(column(text@, n as int)),
            decreases k - n,
        {
            if text[n] == 0x0A {
                col = 2;
                row = row.saturating_add(1);
            } else {
                col = col.saturating_add(1);
            }
            n = n + 1;
        }
        ErrorPos::new(row, col)
    }

    /// Row and column of position `pos`. Leaves the stream as it is.
    pub fn gen_error_pos_from(&mut self, pos: usize) -> (r: ErrorPos)
        requires
            old(self).wf(),
            pos <= old(self)@.end,
        ensures
            *final(self) == *old(self),
            r == error_pos_at(old(self)@.text, old(self)@.base + pos),
    {
        let old_pos = self.pos;
        self.pos = pos;
        let e = self.gen_error_pos();
        self.pos = old_pos;
        e
    }
}


/// The character of a byte, for error reports.
fn byte_char(b: u8) -> (r: char)
    ensures
        r as u32 == b as u32,
{
    b as char
}

/// What is reported as expected where `S` is missing: the text `Space`.
fn space_expected() -> (r: Vec<u8>)
    ensures
        r@ == space_name(),
{
    vec![0x53u8, 0x70, 0x61, 0x63, 0x65]
}

/// The text `Space`.
pub open spec fn space_name() -> Seq<u8> {
    seq![0x53u8, 0x70, 0x61, 0x63, 0x65]
}

fn is_space_code(c: u32) -> (r: bool)
    ensures
        r == spec_xml_space_code(c),
{
    c == 0x20 || c == 0x09 || c == 0x0A || c == 0x0D
}

fn digit_value_of(c: u8) -> (r: u8)
    ensures
        r as nat == digit_value(c),
        r < 256,
{
    if 0x30 <= c && c <= 0x39 {
        c - 0x30
    } else if 0x41 <= c && c <= 0x46 {
        c - 0x41 + 10
    } else if 0x61 <= c && c <= 0x66 {
        c - 0x61 + 10
    } else {
        0
    }
}

/// More digits never make a smaller number.
proof fn lemma_number_value_grows(s: Seq<u8>, p: int, q1: int, q2: int, radix: nat)
    requires
        p <= q1 <= q2,
        radix >= 1,
    ensures
        number_value(s, p, q1, radix) <= number_value(s, p, q2, radix),
    decreases q2 - q1,
{
    if q1 < q2 {
        lemma_number_value_grows(s, p, q1, q2 - 1, radix);
        assert(number_value(s, p, q2 - 1, radix) <= number_value(s, p, q2 - 1, radix) * radix)
            by (nonlinear_arith)
            requires
                radix >= 1,
        ;
    }
}

/// All characters from `p` up to `q` are accepted by `f`, read from `st`.
pub open spec fn chars_accepted<'a, F: Fn(&Stream<'a>, char) -> bool>(
    st: Stream<'a>,
    p: int,
    q: int,
    f: F,
) -> bool
    decreases st@.bytes().len() - p,
{
    if p >= q {
        p == q
    } else if !(0 <= p < st@.bytes().len()) {
        false
    } else {
        &&& f.ensures((&st.at_pos(p), char_at(st@.bytes(), p).0 as char), true)
        &&& chars_accepted(st, p + char_at(st@.bytes(), p).1, q, f)
    }
}

proof fn lemma_chars_accepted_extend<'a, F: Fn(&Stream<'a>, char) -> bool>(
    st: Stream<'a>,
    p: int,
    q: int,
    f: F,
)
    requires
        0 <= p <= q < st@.bytes().len(),
        chars_accepted(st, p, q, f),
        f.ensures((&st.at_pos(q), char_at(st@.bytes(), q).0 as char), true),
    ensures
        chars_accepted(st, p, q + char_at(st@.bytes(), q).1, f),
    decreases st@.bytes().len() - p,
{
    if p < q {
        let l = char_at(st@.bytes(), p).1;
        assert(chars_accepted(st, p + l, q, f));
        assert(p + l <= q);
        lemma_chars_accepted_extend(st, p + l, q, f);
    } else {
        assert(1 <= char_at(st@.bytes(), q).1);
        assert(chars_accepted(st, q + char_at(st@.bytes(), q).1, q + char_at(st@.bytes(), q).1, f));
        reveal_with_fuel(chars_accepted, 2);
    }
}

impl<'a> Stream<'a> {
    /// Skips `S`, literal or by character reference (`&#x20; &#x9; &#xD; &#xA;`).
    pub fn skip_spaces(&mut self)
        requires
            old(self).wf(),
        ensures
            final(self).wf(),
            final(self)@ == old(self)@.with_pos(spaces_end(old(self)@.bytes(), old(self)@.pos)),
            old(self)@.pos <= final(self)@.pos <= old(self)@.end,
    {
        while !self.at_end()
            invariant
                self.wf(),
                self@ == old(self)@.with_pos(self@.pos),
                old(self)@.pos <= self@.pos,
                spaces_end(self@.bytes(), self@.pos) == spaces_end(
                    old(self)@.bytes(),
                    old(self)@.pos,
                ),
            ensures
                self.wf(),
                self@ == old(self)@.with_pos(self@.pos),
                old(self)@.pos <= self@.pos,
                self@.pos == spaces_end(old(self)@.bytes(), old(self)@.pos),
            decreases self@.end - self@.pos,
        {
            let c = self.curr_byte_unchecked();
            if is_xml_space(c) {
                self.advance(1);
            } else if c == 0x26 {
                let start = self.pos;
                let mut is_space = false;
                if let Ok(Reference::CharRef(ch)) = self.consume_reference() {
                    if is_space_code(ch as u32) {
                        is_space = true;
                    }
                }
                if !is_space {
                    self.pos = start;
                    break;
                }
            } else {
                break;
            }
        }
    }

    /// Skips `S` bytes (no references).
    pub fn skip_ascii_spaces(&mut self)
        requires
            old(self).wf(),
        ensures
            final(self).wf(),
            final(self)@ == old(self)@.with_pos(
                ascii_spaces_end(old(self)@.bytes(), old(self)@.pos),
            ),
            old(self)@.pos <= final(self)@.pos <= old(self)@.end,
    {
        while !self.at_end()
            invariant
                self.wf(),
                self@ == old(self)@.with_pos(self@.pos),
                old(self)@.pos <= self@.pos,
                ascii_spaces_end(self@.bytes(), self@.pos) == ascii_spaces_end(
                    old(self)@.bytes(),
                    old(self)@.pos,
                ),
            ensures
                self.wf(),
                self@ == old(self)@.with_pos(self@.pos),
                old(self)@.pos <= self@.pos,
                self@.pos == ascii_spaces_end(old(self)@.bytes(), old(self)@.pos),
            decreases self@.end - self@.pos,
        {
            if is_xml_space(self.curr_byte_unchecked()) {
                self.advance(1);
            } else {
                break;
            }
        }
    }

    /// Checks that the rest of the stream begins with `text`.
    pub fn starts_with(&self, text: &[u8]) -> (r: bool)
        ensures
            r == self@.starts_with(text@),
    {
        let (start, stop) = self.span.bounds();
        let end = stop - start;
        let n = text.len();
        if self.pos > end || n > end - self.pos {
            return false;
        }
        let mut i: usize = 0;
        while i < n
            invariant
                self@.pos + n <= self@.end,
                end == self@.end,
                self@.wf(),
                n == text@.len(),
                i <= n,
                forall|k: int| 0 <= k < i ==> self@.bytes()[self@.pos + k] == text@[k],
            decreases n - i,
        {
            if self.span.byte_at(self.pos + i) != text[i] {
                proof {
                    assert(self@.bytes().subrange(self@.pos, self@.pos + n)[i as int] != text@[i as int]);
                }
                return false;
            }
            i = i + 1;
        }
        proof {
            assert(self@.bytes().subrange(self@.pos, self@.pos + n) =~= text@);
        }
        true
    }

    /// Checks whether the stream starts with `S`, literal or by character reference.
    pub fn starts_with_space(&self) -> (r: bool)
        requires
            self.wf(),
        ensures
            r == space_at(self@.bytes(), self@.pos),
    {
        if self.at_end() {
            return false;
        }
        let mut is_space = false;
        let c = self.curr_byte_unchecked();
        if is_xml_space(c) {
            is_space = true;
        } else if c == 0x26 {
            let mut s = *self;
            if let Some(v) = s.try_consume_char_reference() {
                if is_space_code(v as u32) {
                    is_space = true;
                }
            }
        }
        is_space
    }

    /// Like [`Stream::skip_spaces`], but the stream must be at `S` or at its end.
    pub fn consume_spaces(&mut self) -> (r: Result<(), StreamError>)
        requires
            old(self).wf(),
        ensures
            final(self).wf(),
            final(self)@ == old(self)@.with_pos(final(self)@.pos),
            old(self)@.pos <= final(self)@.pos <= old(self)@.end,
            r is Ok <==> (old(self)@.at_end() || space_at(old(self)@.bytes(), old(self)@.pos)),
            r is Ok ==> final(self)@ == old(self)@.with_pos(
                spaces_end(old(self)@.bytes(), old(self)@.pos),
            ),
            r is Err ==> *final(self) == *old(self),
            r matches Err(e) ==> e matches StreamError::InvalidChar(found, expected, at) && found
                as u32 == old(self)@.byte(old(self)@.pos) as u32 && expected@ == space_name() && at
                == error_pos_at(old(self)@.text, old(self)@.base + old(self)@.pos),
    {
        if !self.at_end() && !self.starts_with_space() {
            let c = byte_char(self.curr_byte_unchecked());
            let pos = self.gen_error_pos();
            return Err(StreamError::InvalidChar(c, space_expected(), pos));
        }
        self.skip_spaces();
        Ok(())
    }

    /// Consumes the current byte if it is `c`.
    pub fn consume_byte(&mut self, c: u8) -> (r: Result<(), StreamError>)
        requires
            old(self).wf(),
        ensures
            final(self).wf(),
            r is Ok <==> (!old(self)@.at_end() && old(self)@.byte(old(self)@.pos) == c),
            r is Ok ==> final(self)@ == old(self)@.with_pos(old(self)@.pos + 1),
            r is Err ==> *final(self) == *old(self),
            old(self)@.at_end() ==> r == Err::<(), StreamError>(StreamError::UnexpectedEndOfStream),
            !old(self)@.at_end() && r is Err ==> (r matches Err(
                StreamError::InvalidChar(found, expected, at),
            ) && found as u32 == old(self)@.byte(old(self)@.pos) as u32 && expected@ == seq![c]
                && at == error_pos_at(old(self)@.text, old(self)@.base + old(self)@.pos)),
    {
        if self.curr_byte()? != c {
            return Err(
                StreamError::InvalidChar(
                    byte_char(self.curr_byte_unchecked()),
                    vec![c],
                    self.gen_error_pos(),
                ),
            );
        }
        self.advance(1);
        Ok(())
    }

    /// Consumes the current byte if it is one of `list`, and returns it.
    pub fn consume_either(&mut self, list: &[u8]) -> (r: Result<u8, StreamError>)
        requires
            old(self).wf(),
            list@.len() > 0,
        ensures
            final(self).wf(),
            r is Ok <==> (!old(self)@.at_end() && list@.contains(
                old(self)@.byte(old(self)@.pos),
            )),
            r is Ok ==> r == Ok::<u8, StreamError>(old(self)@.byte(old(self)@.pos))
                && final(self)@ == old(self)@.with_pos(old(self)@.pos + 1),
            r is Err ==> *final(self) == *old(self),
            old(self)@.at_end() ==> r == Err::<u8, StreamError>(StreamError::UnexpectedEndOfStream),
            !old(self)@.at_end() && r is Err ==> (r matches Err(
                StreamError::InvalidChar(found, expected, at),
            ) && found as u32 == old(self)@.byte(old(self)@.pos) as u32 && expected@ == list@
                && at == error_pos_at(old(self)@.text, old(self)@.base + old(self)@.pos)),
    {
        let c = self.curr_byte()?;
        let mut found = false;
        let mut i: usize = 0;
        while i < list.len()
            invariant
                i <= list@.len(),
                found <==> exists|k: int| 0 <= k < i && list@[k] == c,
            decreases list@.len() - i,
        {
            if list[i] == c {
                found = true;
            }
            i = i + 1;
        }
        if !found {
            proof {
                assert(!list@.contains(c));
            }
            let expected = vstd::slice::slice_to_vec(list);
            return Err(StreamError::InvalidChar(byte_char(c), expected, self.gen_error_pos()));
        }
        self.advance(1);
        Ok(c)
    }

    /// Consumes `text`, or fails at the first byte that differs from it.
    pub fn skip_string(&mut self, text: &[u8]) -> (r: Result<(), StreamError>)
        requires
            old(self).wf(),
        ensures
            final(self).wf(),
            final(self)@ == old(self)@.with_pos(final(self)@.pos),
            old(self)@.pos <= final(self)@.pos <= old(self)@.end,
            r is Ok <==> old(self)@.starts_with(text@),
            r is Ok ==> final(self)@.pos == old(self)@.pos + text@.len(),
            r is Err ==> final(self)@.pos == old(self)@.pos + mismatch_at(
                old(self)@.bytes(),
                old(self)@.pos,
                text@,
                0,
            ),
            r matches Err(e) ==> byte_error(
                old(self)@.with_pos(final(self)@.pos),
                text@[final(self)@.pos - old(self)@.pos],
                e,
            ),
    {
        if !self.starts_with(text) {
            let mut i: usize = 0;
            while i < text.len()
                invariant
                    self.wf(),
                    self@ == old(self)@.with_pos(old(self)@.pos + i),
                    i <= text@.len(),
                    !old(self)@.starts_with(text@),
                    mismatch_at(old(self)@.bytes(), old(self)@.pos, text@, i as int) == mismatch_at(
                        old(self)@.bytes(),
                        old(self)@.pos,
                        text@,
                        0,
                    ),
                    forall|k: int| 0 <= k < i ==> old(self)@.bytes()[old(self)@.pos + k] == text@[k],
                decreases text@.len() - i,
            {
                match self.consume_byte(text[i]) {
                    Ok(()) => {},
                    Err(e) => return Err(e),
                }
                i = i + 1;
            }
            proof {
                assert(old(self)@.bytes().subrange(old(self)@.pos, old(self)@.pos + text@.len())
                    =~= text@);
            }
        }
        self.advance(text.len());
        Ok(())
    }

    /// Consumes an XML [Name](https://www.w3.org/TR/xml/#NT-Name) and returns it.
    pub fn consume_name(&mut self) -> (r: Result<StrSpan<'a>, StreamError>)
        requires
            old(self).wf(),
        ensures
            final(self).wf(),
            r is Ok <==> name_starts_at(old(self)@.bytes(), old(self)@.pos),
            r matches Ok(name) ==> final(self)@ == old(self)@.with_pos(
                name_end(old(self)@.bytes(), old(self)@.pos),
            ) && name@ == old(self)@.region(old(self)@.pos, final(self)@.pos) && old(self)@.pos
                < final(self)@.pos,
            r is Err ==> r == Err::<StrSpan<'a>, StreamError>(StreamError::InvalidName)
                && *final(self) == *old(self),
    {
        let start = self.pos();
        self.skip_name()?;
        let name = self.slice_back(start);
        if name.is_empty() {
            return Err(StreamError::InvalidName);
        }
        Ok(name)
    }

    /// Skips an XML `Name`; at the end of the stream nothing is skipped.
    pub fn skip_name(&mut self) -> (r: Result<(), StreamError>)
        requires
            old(self).wf(),
        ensures
            final(self).wf(),
            r is Err <==> (!old(self)@.at_end() && !name_starts_at(
                old(self)@.bytes(),
                old(self)@.pos,
            )),
            r is Err ==> r == Err::<(), StreamError>(StreamError::InvalidName) && *final(self)
                == *old(self),
            r is Ok && old(self)@.at_end() ==> *final(self) == *old(self),
            r is Ok && !old(self)@.at_end() ==> final(self)@ == old(self)@.with_pos(
                name_end(old(self)@.bytes(), old(self)@.pos),
            ) && old(self)@.pos < final(self)@.pos <= old(self)@.end,
    {
        if self.at_end() {
            return Ok(());
        }
        let (c, l) = self.curr_code_point();
        if !is_xml_name_start(c) {
            return Err(StreamError::InvalidName);
        }
        self.advance(l);
        while !self.at_end()
            invariant
                self.wf(),
                self@ == old(self)@.with_pos(self@.pos),
                old(self)@.pos < self@.pos,
                name_tail_end(self@.bytes(), self@.pos) == name_end(
                    old(self)@.bytes(),
                    old(self)@.pos,
                ),
            ensures
                self.wf(),
                self@ == old(self)@.with_pos(self@.pos),
                old(self)@.pos < self@.pos,
                self@.pos == name_end(old(self)@.bytes(), old(self)@.pos),
            decreases self@.end - self@.pos,
        {
            let (c, l) = self.curr_code_point();
            if is_xml_name_char(c) {
                self.advance(l);
            } else {
                break;
            }
        }
        Ok(())
    }

    /// Consumes `Eq`: optional `S`, `=`, optional `S`.
    pub fn consume_eq(&mut self) -> (r: Result<(), StreamError>)
        requires
            old(self).wf(),
        ensures
            final(self).wf(),
            final(self)@ == old(self)@.with_pos(final(self)@.pos),
            old(self)@.pos <= final(self)@.pos <= old(self)@.end,
            ({
                let q = ascii_spaces_end(old(self)@.bytes(), old(self)@.pos);
                &&& old(self)@.pos <= q <= old(self)@.end
                &&& r is Ok <==> (q < old(self)@.end && old(self)@.byte(q) == 0x3D)
                &&& r is Ok ==> final(self)@.pos == ascii_spaces_end(old(self)@.bytes(), q + 1)
            }),
    {
        self.skip_ascii_spaces();
        self.consume_byte(0x3D)?;
        self.skip_ascii_spaces();
        Ok(())
    }

    /// Consumes a quote, `'` or `"`, and returns it.
    pub fn consume_quote(&mut self) -> (r: Result<u8, StreamError>)
        requires
            old(self).wf(),
        ensures
            final(self).wf(),
            r is Ok <==> (!old(self)@.at_end() && (old(self)@.byte(old(self)@.pos) == 0x27
                || old(self)@.byte(old(self)@.pos) == 0x22)),
            r is Ok ==> r == Ok::<u8, StreamError>(old(self)@.byte(old(self)@.pos))
                && final(self)@ == old(self)@.with_pos(old(self)@.pos + 1),
            r is Err ==> *final(self) == *old(self),
            old(self)@.at_end() ==> r == Err::<u8, StreamError>(StreamError::UnexpectedEndOfStream),
            !old(self)@.at_end() && r is Err ==> (r matches Err(
                StreamError::InvalidChar(found, expected, at),
            ) && found as u32 == old(self)@.byte(old(self)@.pos) as u32 && expected@ == seq![
                0x27u8,
                0x22,
            ] && at == error_pos_at(old(self)@.text, old(self)@.base + old(self)@.pos)),
    {
        let c = self.curr_byte()?;
        if c == 0x27 || c == 0x22 {
            self.advance(1);
            Ok(c)
        } else {
            Err(StreamError::InvalidChar(byte_char(c), vec![0x27u8, 0x22], self.gen_error_pos()))
        }
    }

    /// Consumes bytes while `f` accepts them, and returns them; the result may be empty.
    pub fn consume_bytes<F: Fn(&Stream<'a>, u8) -> bool>(&mut self, f: F) -> (r: StrSpan<'a>)
        requires
            old(self).wf(),
            forall|st: &Stream<'a>, c: u8| st.wf() ==> #[trigger] f.requires((st, c)),
        ensures
            final(self).wf(),
            final(self)@ == old(self)@.with_pos(final(self)@.pos),
            old(self)@.pos <= final(self)@.pos <= old(self)@.end,
            forall|i: int|
                old(self)@.pos <= i < final(self)@.pos ==> #[trigger] f.ensures(
                    (&old(self).at_pos(i), old(self)@.byte(i)),
                    true,
                ),
            final(self)@.pos < old(self)@.end ==> f.ensures(
                (&old(self).at_pos(final(self)@.pos), old(self)@.byte(final(self)@.pos)),
                false,
            ),
            r@ == old(self)@.region(old(self)@.pos, final(self)@.pos),
    {
        let start = self.pos();
        self.skip_bytes(f);
        self.slice_back(start)
    }

    /// Skips bytes while `f` accepts them.
    pub fn skip_bytes<F: Fn(&Stream<'a>, u8) -> bool>(&mut self, f: F)
        requires
            old(self).wf(),
            forall|st: &Stream<'a>, c: u8| st.wf() ==> #[trigger] f.requires((st, c)),
        ensures
            final(self).wf(),
            final(self)@ == old(self)@.with_pos(final(self)@.pos),
            old(self)@.pos <= final(self)@.pos <= old(self)@.end,
            forall|i: int|
                old(self)@.pos <= i < final(self)@.pos ==> #[trigger] f.ensures(
                    (&old(self).at_pos(i), old(self)@.byte(i)),
                    true,
                ),
            final(self)@.pos < old(self)@.end ==> f.ensures(
                (&old(self).at_pos(final(self)@.pos), old(self)@.byte(final(self)@.pos)),
                false,
            ),
    {
        while !self.at_end()
            invariant
                self.wf(),
                *self == old(self).at_pos(self@.pos),
                self@ == old(self)@.with_pos(self@.pos),
                old(self)@.pos <= self@.pos <= old(self)@.end,
                forall|st: &Stream<'a>, c: u8| st.wf() ==> #[trigger] f.requires((st, c)),
                forall|i: int|
                    old(self)@.pos <= i < self@.pos ==> #[trigger] f.ensures(
                        (&old(self).at_pos(i), old(self)@.byte(i)),
                        true,
                    ),
            ensures
                self.wf(),
                self@ == old(self)@.with_pos(self@.pos),
                old(self)@.pos <= self@.pos <= old(self)@.end,
                forall|i: int|
                    old(self)@.pos <= i < self@.pos ==> #[trigger] f.ensures(
                        (&old(self).at_pos(i), old(self)@.byte(i)),
                        true,
                    ),
                self@.pos < old(self)@.end ==> f.ensures(
                    (&old(self).at_pos(self@.pos), old(self)@.byte(self@.pos)),
                    false,
                ),
            decreases self@.end - self@.pos,
        {
            let c = self.curr_byte_unchecked();
            if f(&*self, c) {
                self.pos = self.pos + 1;
            } else {
                break;
            }
        }
    }

    /// Consumes characters while `f` accepts them, and returns them; the result may be empty.
    pub fn consume_chars<F: Fn(&Stream<'a>, char) -> bool>(&mut self, f: F) -> (r: StrSpan<'a>)
        requires
            old(self).wf(),
            forall|st: &Stream<'a>, c: char| st.wf() ==> #[trigger] f.requires((st, c)),
        ensures
            final(self).wf(),
            final(self)@ == old(self)@.with_pos(final(self)@.pos),
            old(self)@.pos <= final(self)@.pos <= old(self)@.end,
            chars_accepted(*old(self), old(self)@.pos, final(self)@.pos, f),
            final(self)@.pos < old(self)@.end ==> f.ensures(
                (
                    &old(self).at_pos(final(self)@.pos),
                    char_at(old(self)@.bytes(), final(self)@.pos).0 as char,
                ),
                false,
            ),
            r@ == old(self)@.region(old(self)@.pos, final(self)@.pos),
    {
        let start = self.pos();
        self.skip_chars(f);
        self.slice_back(start)
    }

    /// Skips characters while `f` accepts them.
    pub fn skip_chars<F: Fn(&Stream<'a>, char) -> bool>(&mut self, f: F)
        requires
            old(self).wf(),
            forall|st: &Stream<'a>, c: char| st.wf() ==> #[trigger] f.requires((st, c)),
        ensures
            final(self).wf(),
            final(self)@ == old(self)@.with_pos(final(self)@.pos),
            old(self)@.pos <= final(self)@.pos <= old(self)@.end,
            chars_accepted(*old(self), old(self)@.pos, final(self)@.pos, f),
            final(self)@.pos < old(self)@.end ==> f.ensures(
                (
                    &old(self).at_pos(final(self)@.pos),
                    char_at(old(self)@.bytes(), final(self)@.pos).0 as char,
                ),
                false,
            ),
    {
        while !self.at_end()
            invariant
                self.wf(),
                *self == old(self).at_pos(self@.pos),
                self@ == old(self)@.with_pos(self@.pos),
                old(self)@.pos <= self@.pos <= old(self)@.end,
                forall|st: &Stream<'a>, c: char| st.wf() ==> #[trigger] f.requires((st, c)),
                chars_accepted(*old(self), old(self)@.pos, self@.pos, f),
            ensures
                self.wf(),
                self@ == old(self)@.with_pos(self@.pos),
                old(self)@.pos <= self@.pos <= old(self)@.end,
                chars_accepted(*old(self), old(self)@.pos, self@.pos, f),
                self@.pos < old(self)@.end ==> f.ensures(
                    (
                        &old(self).at_pos(self@.pos),
                        char_at(old(self)@.bytes(), self@.pos).0 as char,
                    ),
                    false,
                ),
            decreases self@.end - self@.pos,
        {
            let (v, l) = self.curr_code_point();
            let c = scalar_char(v);
            proof {
                vstd::utf8::char_u32_cast(c, v);
            }
            if f(&*self, c) {
                proof {
                    lemma_chars_accepted_extend(*old(self), old(self)@.pos, self@.pos, f);
                }
                self.pos = self.pos + l;
            } else {
                break;
            }
        }
    }

    /// Consumes a character reference if there is one; otherwise leaves the stream as it is.
    pub fn try_consume_char_reference(&mut self) -> (r: Option<char>)
        requires
            old(self).wf(),
        ensures
            final(self).wf(),
            match reference_at(old(self)@.bytes(), old(self)@.pos) {
                Some((RefModel::Char(v), q)) => (r matches Some(c) && c as u32 == v
                    && final(self)@ == old(self)@.with_pos(q)),
                _ => (r is None && final(self)@ == old(self)@),
            },
    {
        let start = self.pos();
        match self.consume_reference() {
            Ok(Reference::CharRef(ch)) => Some(ch),
            _ => {
                self.pos = start;
                None
            },
        }
    }

    /// Skips the digits at the cursor, hexadecimal ones if `hex`.
    fn skip_digits(&mut self, hex: bool)
        requires
            old(self).wf(),
        ensures
            final(self).wf(),
            final(self)@ == old(self)@.with_pos(
                digits_end(old(self)@.bytes(), old(self)@.pos, hex),
            ),
            old(self)@.pos <= final(self)@.pos <= old(self)@.end,
    {
        while !self.at_end()
            invariant
                self.wf(),
                self@ == old(self)@.with_pos(self@.pos),
                old(self)@.pos <= self@.pos,
                digits_end(self@.bytes(), self@.pos, hex) == digits_end(
                    old(self)@.bytes(),
                    old(self)@.pos,
                    hex,
                ),
            ensures
                self.wf(),
                self@ == old(self)@.with_pos(self@.pos),
                old(self)@.pos <= self@.pos,
                self@.pos == digits_end(old(self)@.bytes(), old(self)@.pos, hex),
            decreases self@.end - self@.pos,
        {
            let c = self.curr_byte_unchecked();
            let is_digit = if hex {
                is_xml_hex_digit(c)
            } else {
                is_xml_digit(c)
            };
            if is_digit {
                self.advance(1);
            } else {
                break;
            }
        }
    }

    /// The number that the digits in `[d0, d1)` denote, if it fits in a `u32`.
    fn parse_number(&self, d0: usize, d1: usize, radix: u8) -> (r: Option<u32>)
        requires
            self.wf(),
            d0 <= d1 <= self@.end,
            radix == 10 || radix == 16,
        ensures
            r == (if d0 < d1 && number_value(self@.bytes(), d0 as int, d1 as int, radix as nat)
                <= u32::MAX {
                Some(number_value(self@.bytes(), d0 as int, d1 as int, radix as nat) as u32)
            } else {
                None::<u32>
            }),
    {
        if d0 == d1 {
            return None;
        }
        let mut acc: u64 = 0;
        let mut i: usize = d0;
        while i < d1
            invariant
                self.wf(),
                d0 <= i <= d1 <= self@.end,
                radix == 10 || radix == 16,
                acc == number_value(self@.bytes(), d0 as int, i as int, radix as nat),
                acc <= u32::MAX,
            decreases d1 - i,
        {
            let d = digit_value_of(self.span.byte_at(i));
            assert(acc * (radix as u64) + (d as u64) <= 0xFFFF_FFFFu64 * 16 + 255) by (nonlinear_arith)
                requires
                    acc <= 0xFFFF_FFFFu64,
                    radix <= 16,
                    d < 256,
            ;
            acc = acc * (radix as u64) + (d as u64);
            i = i + 1;
            if acc > 0xFFFF_FFFFu64 {
                proof {
                    lemma_number_value_grows(
                        self@.bytes(),
                        d0 as int,
                        i as int,
                        d1 as int,
                        radix as nat,
                    );
                }
                return None;
            }
        }
        Some(acc as u32)
    }

    /// Consumes an XML [Reference](https://www.w3.org/TR/xml/#NT-Reference).
    pub fn consume_reference(&mut self) -> (r: Result<Reference<'a>, StreamError>)
        requires
            old(self).wf(),
        ensures
            final(self).wf(),
            final(self)@ == old(self)@.with_pos(final(self)@.pos),
            old(self)@.pos <= final(self)@.pos <= old(self)@.end,
            r is Ok <==> reference_at(old(self)@.bytes(), old(self)@.pos) is Some,
            r matches Ok(reference) ==> ({
                let (m, q) = reference_at(old(self)@.bytes(), old(self)@.pos).unwrap();
                &&& m.denotes(reference, old(self)@)
                &&& final(self)@.pos == q
            }),
            r matches Err(e) ==> reference_error(old(self)@, e),
    {
        if self.curr_byte()? != 0x26 {
            return Err(StreamError::InvalidReference);
        }
        self.advance(1);
        let reference = if self.curr_byte()? == 0x23 {
            self.advance(1);
            let hex = self.curr_byte()? == 0x78;
            if hex {
                self.advance(1);
            }
            let d0 = self.pos;
            self.skip_digits(hex);
            let d1 = self.pos;
            let n = match self.parse_number(d0, d1, if hex { 16 } else { 10 }) {
                Some(v) => v,
                None => return Err(StreamError::InvalidReference),
            };
            let c = match char_from_u32(n) {
                Some(c) => c,
                None => '\u{FFFD}',
            };
            if is_xml_char(n) {
                Reference::CharRef(c)
            } else {
                return Err(StreamError::InvalidReference);
            }
        } else {
            let ghost p1 = self@.pos;
            let name = self.consume_name()?;
            proof {
                let s0 = old(self)@.bytes();
                assert(name@.content() =~= s0.subrange(p1, name_end(s0, p1)));
            }
            if span_is(&name, &[0x71u8, 0x75, 0x6F, 0x74]) {
                Reference::CharRef('"')
            } else if span_is(&name, &[0x61u8, 0x6D, 0x70]) {
                Reference::CharRef('&')
            } else if span_is(&name, &[0x61u8, 0x70, 0x6F, 0x73]) {
                Reference::CharRef('\'')
            } else if span_is(&name, &[0x6Cu8, 0x74]) {
                Reference::CharRef('<')
            } else if span_is(&name, &[0x67u8, 0x74]) {
                Reference::CharRef('>')
            } else {
                Reference::EntityRef(name)
            }
        };
        self.consume_byte(0x3B)?;
        Ok(reference)
    }

    /// The span from `pos` to the cursor.
    pub fn slice_back(&mut self, pos: usize) -> (r: StrSpan<'a>)
        requires
            old(self).wf(),
            pos <= old(self)@.pos,
        ensures
            *final(self) == *old(self),
            r@ == old(self)@.region(pos as int, old(self)@.pos),
    {
        self.span.slice_region(pos, self.pos)
    }

    /// The span from the cursor to the end.
    pub fn slice_tail(&mut self) -> (r: StrSpan<'a>)
        requires
            old(self).wf(),
        ensures
            *final(self) == *old(self),
            r@ == old(self)@.region(old(self)@.pos, old(self)@.end),
    {
        self.span.slice_region(self.pos, self.span.len())
    }
}

/// The span's bytes are `lit`.
pub(crate) fn span_is(sp: &StrSpan, lit: &[u8]) -> (r: bool)
    ensures
        r == (sp@.content() == lit@),
{
    let (start, end) = sp.bounds();
    let n = sp.len();
    if n != lit.len() {
        proof {
            assert(sp@.content().len() != lit@.len());
        }
        return false;
    }
    let mut i: usize = 0;
    while i < n
        invariant
            n == sp@.len(),
            n == lit@.len(),
            sp@.in_bounds(),
            i <= n,
            forall|k: int| 0 <= k < i ==> sp@.content()[k] == lit@[k],
        decreases n - i,
    {
        if sp.byte_at(i) != lit[i] {
            return false;
        }
        i = i + 1;
    }
    proof {
        assert(sp@.content() =~= lit@);
    }
    true
}

/// The run of `S` that starts at `p` ends at or after `p`.
pub proof fn lemma_spaces_end_ge(s: Seq<u8>, p: int)
    requires
        0 <= p,
    ensures
        p <= spaces_end(s, p),
        p <= s.len() ==> spaces_end(s, p) <= s.len(),
    decreases s.len() - p,
{
    if 0 <= p < s.len() && spec_xml_space(s[p]) {
        lemma_spaces_end_ge(s, p + 1);
    } else if 0 <= p < s.len() && s[p] == 0x26 && space_reference_at(s, p) {
        let q = reference_at(s, p).unwrap().1;
        if p < q <= s.len() {
            lemma_spaces_end_ge(s, q);
        }
    }
}

/// At `S`, skipping spaces moves forward.
pub proof fn lemma_spaces_progress(s: Seq<u8>, p: int)
    requires
        0 <= p,
        space_at(s, p),
    ensures
        p < spaces_end(s, p),
{
    if spec_xml_space(s[p]) {
        lemma_spaces_end_ge(s, p + 1);
    } else {
        let q = reference_at(s, p).unwrap().1;
        assert(p < q <= s.len());
        lemma_spaces_end_ge(s, q);
    }
}

/// The character that starts at `p` in `s`, and its encoded length.
pub open spec fn char_at(s: Seq<u8>, p: int) -> (u32, int) {
    first_char(s.subrange(p, s.len() as int))
}

/// `e` is the error of `consume_byte(c)` on a stream `m` that is not at `c`: the end of
/// the stream, or the byte found, `c` expected, and the position.
pub open spec fn byte_error(m: StreamModel, c: u8, e: StreamError) -> bool {
    if m.at_end() {
        e == StreamError::UnexpectedEndOfStream
    } else {
        e matches StreamError::InvalidChar(found, expected, at) && found as u32 == m.byte(m.pos)
            as u32 && expected@ == seq![c] && at == error_pos_at(m.text, m.base + m.pos)
    }
}

/// The error of `consume_reference` at the cursor of `m`, where `reference_at` finds
/// no reference: end of stream where the input stops early, `InvalidReference` for a
/// missing `&` or a numeric part that is empty, too large or not a legal character,
/// `InvalidName` for a bad name, and the error for a missing `;`.
pub open spec fn reference_error(m: StreamModel, e: StreamError) -> bool {
    let s = m.bytes();
    let p = m.pos;
    if p >= s.len() {
        e == StreamError::UnexpectedEndOfStream
    } else if s[p] != 0x26 {
        e == StreamError::InvalidReference
    } else if p + 1 >= s.len() {
        e == StreamError::UnexpectedEndOfStream
    } else if s[p + 1] == 0x23 {
        if p + 2 >= s.len() {
            e == StreamError::UnexpectedEndOfStream
        } else {
            let hex = s[p + 2] == 0x78;
            let d0 = if hex {
                p + 3
            } else {
                p + 2
            };
            let d1 = digits_end(s, d0, hex);
            let v = number_value(
                s,
                d0,
                d1,
                if hex {
                    16
                } else {
                    10
                },
            );
            if !(d0 < d1 && v <= u32::MAX && spec_xml_char(v as u32)) {
                e == StreamError::InvalidReference
            } else {
                byte_error(m.with_pos(d1), 0x3B, e)
            }
        }
    } else if !name_starts_at(s, p + 1) {
        e == StreamError::InvalidName
    } else {
        byte_error(m.with_pos(name_end(s, p + 1)), 0x3B, e)
    }
}

/// How many leading bytes of `t` the bytes at `p` match, counting from `k` on.
pub open spec fn mismatch_at(s: Seq<u8>, p: int, t: Seq<u8>, k: int) -> int
    decreases t.len() - k,
{
    if k >= t.len() {
        k
    } else if 0 <= p + k < s.len() && s[p + k] == t[k] {
        mismatch_at(s, p, t, k + 1)
    } else {
        k
    }
}

/// End of the run of `S` bytes that starts at `p`.
pub open spec fn ascii_spaces_end(s: Seq<u8>, p: int) -> int
    decreases s.len() - p,
{
    if 0 <= p < s.len() && spec_xml_space(s[p]) {
        ascii_spaces_end(s, p + 1)
    } else {
        p
    }
}

/// End of the run of `NameChar`s that starts at `p`.
pub open spec fn name_tail_end(s: Seq<u8>, p: int) -> int
    decreases s.len() - p,
{
    if 0 <= p < s.len() && spec_xml_name_char(char_at(s, p).0) {
        name_tail_end(s, p + char_at(s, p).1)
    } else {
        p
    }
}

/// A `Name` starts at `p`.
pub open spec fn name_starts_at(s: Seq<u8>, p: int) -> bool {
    0 <= p < s.len() && spec_xml_name_start(char_at(s, p).0)
}

/// End of the `Name` that starts at `p`.
pub open spec fn name_end(s: Seq<u8>, p: int) -> int {
    name_tail_end(s, p + char_at(s, p).1)
}

/// End of the run of digits (hexadecimal ones if `hex`) that starts at `p`.
pub open spec fn digits_end(s: Seq<u8>, p: int, hex: bool) -> int
    decreases s.len() - p,
{
    if 0 <= p < s.len() && (if hex {
        spec_xml_hex_digit(s[p])
    } else {
        spec_xml_digit(s[p])
    }) {
        digits_end(s, p + 1, hex)
    } else {
        p
    }
}

pub open spec fn digit_value(c: u8) -> nat {
    if 0x30 <= c <= 0x39 {
        (c - 0x30) as nat
    } else if 0x41 <= c <= 0x46 {
        (c - 0x41 + 10) as nat
    } else if 0x61 <= c <= 0x66 {
        (c - 0x61 + 10) as nat
    } else {
        0
    }
}

/// The number that the digits `s[p..q]` denote in base `radix`.
pub open spec fn number_value(s: Seq<u8>, p: int, q: int, radix: nat) -> nat
    decreases q - p,
{
    if q <= p {
        0
    } else {
        number_value(s, p, q - 1, radix) * radix + digit_value(s[q - 1])
    }
}

/// The character that one of the five predefined entities stands for.
pub open spec fn predefined_entity(name: Seq<u8>) -> Option<u32> {
    if name == seq![0x71u8, 0x75, 0x6F, 0x74] {
        Some(0x22)
    } else if name == seq![0x61u8, 0x6D, 0x70] {
        Some(0x26)
    } else if name == seq![0x61u8, 0x70, 0x6F, 0x73] {
        Some(0x27)
    } else if name == seq![0x6Cu8, 0x74] {
        Some(0x3C)
    } else if name == seq![0x67u8, 0x74] {
        Some(0x3E)
    } else {
        None
    }
}

/// What a well-formed reference denotes.
pub enum RefModel {
    /// A character, by its code point.
    Char(u32),
    /// An entity name, by its byte range.
    Entity(int, int),
}

/// The reference that starts at `p`, and the position after its `;`; `None` where none
/// is well-formed there. A numeric reference must denote a legal XML character.
pub open spec fn reference_at(s: Seq<u8>, p: int) -> Option<(RefModel, int)> {
    if !(0 <= p < s.len() && s[p] == 0x26) {
        None
    } else if p + 1 < s.len() && s[p + 1] == 0x23 {
        let hex = p + 2 < s.len() && s[p + 2] == 0x78;
        let d0 = if hex {
            p + 3
        } else {
            p + 2
        };
        let d1 = digits_end(s, d0, hex);
        let v = number_value(
            s,
            d0,
            d1,
            if hex {
                16
            } else {
                10
            },
        );
        if d0 < d1 && v <= u32::MAX && spec_xml_char(v as u32) && d1 < s.len() && s[d1] == 0x3B {
            Some((RefModel::Char(v as u32), d1 + 1))
        } else {
            None
        }
    } else if name_starts_at(s, p + 1) && name_end(s, p + 1) < s.len() && s[name_end(s, p + 1)]
        == 0x3B {
        let q = name_end(s, p + 1);
        match predefined_entity(s.subrange(p + 1, q)) {
            Some(c) => Some((RefModel::Char(c), q + 1)),
            None => Some((RefModel::Entity(p + 1, q), q + 1)),
        }
    } else {
        None
    }
}

/// The reference at `p` is a character reference to an `S` character.
pub open spec fn space_reference_at(s: Seq<u8>, p: int) -> bool {
    match reference_at(s, p) {
        Some((RefModel::Char(c), _)) => spec_xml_space_code(c),
        _ => false,
    }
}

pub open spec fn spec_xml_space_code(c: u32) -> bool {
    c == 0x20 || c == 0x09 || c == 0x0A || c == 0x0D
}

/// Position `p` holds `S`, literal or by a character reference.
pub open spec fn space_at(s: Seq<u8>, p: int) -> bool {
    0 <= p < s.len() && (spec_xml_space(s[p]) || (s[p] == 0x26 && space_reference_at(s, p)))
}

/// End of the run of `S`, literal or by character references, that starts at `p`.
pub open spec fn spaces_end(s: Seq<u8>, p: int) -> int
    decreases s.len() - p,
{
    if 0 <= p < s.len() && spec_xml_space(s[p]) {
        spaces_end(s, p + 1)
    } else if 0 <= p < s.len() && s[p] == 0x26 && space_reference_at(s, p) {
        let q = reference_at(s, p).unwrap().1;
        if p < q <= s.len() {
            spaces_end(s, q)
        } else {
            p
        }
    } else {
        p
    }
}

impl RefModel {
    /// `r`, read in stream `m`, is what this model denotes.
    pub open spec fn denotes(self, r: Reference, m: StreamModel) -> bool {
        match (self, r) {
            (RefModel::Char(v), Reference::CharRef(c)) => c as u32 == v,
            (RefModel::Entity(a, b), Reference::EntityRef(sp)) => sp@ == m.region(a, b),
            _ => false,
        }
    }
}

} // verus!
