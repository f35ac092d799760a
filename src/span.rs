//! Zero-copy views of the input text, and positions for diagnostics.

use vstd::prelude::*;
use vstd::string::StringSliceAdditionalSpecFns;

verus! {

/// What a [`StrSpan`] denotes: the whole input buffer and a byte range of it.
pub struct SpanModel {
    pub text: Seq<u8>,
    pub start: int,
    pub end: int,
}

impl SpanModel {
    /// The bytes that the span covers.
    pub open spec fn content(self) -> Seq<u8> {
        self.text.subrange(self.start, self.end)
    }

    pub open spec fn len(self) -> int {
        self.end - self.start
    }

    /// `start <= end <= text.len()`.
    pub open spec fn in_bounds(self) -> bool {
        0 <= self.start <= self.end <= self.text.len()
    }
}

/// An immutable view of a byte range of the input text that remembers its absolute
/// offset within the whole buffer. Equality compares the covered bytes only.
#[derive(Clone, Copy, Debug)]
pub struct StrSpan<'a> {
    text: &'a [u8],
    start: usize,
    end: usize,
}

impl<'a> View for StrSpan<'a> {
    type V = SpanModel;

    closed spec fn view(&self) -> SpanModel {
        SpanModel { text: self.text@, start: self.start as int, end: self.end as int }
    }
}

impl<'a> StrSpan<'a> {
    #[verifier::type_invariant]
    spec fn inv(self) -> bool {
        self.start <= self.end <= self.text@.len()
    }

    /// Every span lies within its buffer: `start <= end <= len`.
    pub fn bounds(&self) -> (r: (usize, usize))
        ensures
            r.0 == self@.start,
            r.1 == self@.end,
            self@.in_bounds(),
    {
        proof {
            use_type_invariant(self);
        }
        (self.start, self.end)
    }

    /// A span over the whole text.
    pub fn from_str(text: &'a str) -> (r: StrSpan<'a>)
        ensures
            r@.text == text.spec_bytes(),
            r@.start == 0,
            r@.end == text.spec_bytes().len(),
            r@.in_bounds(),
    {
        let bytes = text.as_bytes();
        StrSpan { text: bytes, start: 0, end: bytes.len() }
    }

    /// A span over the whole byte buffer.
    pub fn from_bytes(text: &'a [u8]) -> (r: StrSpan<'a>)
        ensures
            r@.text == text@,
            r@.start == 0,
            r@.end == text@.len(),
            r@.in_bounds(),
    {
        StrSpan { text, start: 0, end: text.len() }
    }

    /// Absolute offset of the first byte.
    pub fn start(&self) -> (r: usize)
        ensures
            r == self@.start,
    {
        self.start
    }

    /// Absolute offset one past the last byte.
    pub fn end(&self) -> (r: usize)
        ensures
            r == self@.end,
    {
        self.end
    }

    pub fn len(&self) -> (r: usize)
        ensures
            r == self@.len(),
    {
        proof {
            use_type_invariant(self);
        }
        self.end - self.start
    }

    pub fn is_empty(&self) -> (r: bool)
        ensures
            r == (self@.len() == 0),
    {
        self.start == self.end
    }

    /// The covered bytes.
    pub fn as_bytes(&self) -> (r: &'a [u8])
        ensures
            r@ == self@.content(),
    {
        proof {
            use_type_invariant(self);
        }
        vstd::slice::slice_subrange(self.text, self.start, self.end)
    }

    /// The whole buffer that the span is a view of.
    pub fn full_bytes(&self) -> (r: &'a [u8])
        ensures
            r@ == self@.text,
    {
        self.text
    }

    /// The byte at `i`, counted from the start of the span.
    pub fn byte_at(&self, i: usize) -> (r: u8)
        requires
            i < self@.len(),
        ensures
            r == self@.content()[i as int],
    {
        proof {
            use_type_invariant(self);
        }
        self.text[self.start + i]
    }

    /// The sub-span `[start, end)`, counted from the start of this span.
    pub fn slice_region(&self, start: usize, end: usize) -> (r: StrSpan<'a>)
        requires
            start <= end <= self@.len(),
        ensures
            r@.text == self@.text,
            r@.start == self@.start + start,
            r@.end == self@.start + end,
            r@.in_bounds(),
    {
        proof {
            use_type_invariant(self);
        }
        StrSpan { text: self.text, start: self.start + start, end: self.start + end }
    }
}

impl<'a> PartialEq for StrSpan<'a> {
    fn eq(&self, other: &StrSpan<'a>) -> (r: bool)
        ensures
            r == (self@.content() == other@.content()),
    {
        proof {
            use_type_invariant(self);
            use_type_invariant(other);
        }
        let n = self.end - self.start;
        if n != other.end - other.start {
            proof {
                assert(self@.content().len() != other@.content().len());
            }
            return false;
        }
        let mut i: usize = 0;
        while i < n
            invariant
                n == self@.len(),
                n == other@.len(),
                self@.in_bounds(),
                other@.in_bounds(),
                i <= n,
                forall|k: int| 0 <= k < i ==> self@.content()[k] == other@.content()[k],
            decreases n - i,
        {
            if self.text[self.start + i] != other.text[other.start + i] {
                proof {
                    assert(self@.content()[i as int] != other@.content()[i as int]);
                }
                return false;
            }
            i = i + 1;
        }
        proof {
            assert(self@.content() =~= other@.content());
        }
        true
    }
}

impl<'a> vstd::std_specs::cmp::PartialEqSpecImpl for StrSpan<'a> {
    open spec fn obeys_eq_spec() -> bool {
        true
    }

    open spec fn eq_spec(&self, other: &StrSpan<'a>) -> bool {
        self@.content() == other@.content()
    }
}

/// A 1-based row and column in the input text.
#[derive(Clone, Copy, PartialEq, Eq, Structural, Debug)]
pub struct ErrorPos {
    pub row: usize,
    pub col: usize,
}

impl ErrorPos {
    pub fn new(row: usize, col: usize) -> (r: ErrorPos)
        ensures
            r.row == row,
            r.col == col,
    {
        ErrorPos { row, col }
    }
}

} // verus!
