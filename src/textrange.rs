//! Byte ranges into the text being read, together with the text they cover.

use vstd::prelude::*;
use vstd::string::StringSliceAdditionalSpecFns;

verus! {

/// A half-open byte range `[start, end)` of a text and the bytes it covers.
pub struct Span {
    pub start: int,
    pub end: int,
    pub text: Seq<u8>,
}

/// The range `[start, end)` of the bytes `b`.
pub open spec fn span(b: Seq<u8>, start: int, end: int) -> Span {
    Span { start, end, text: b.subrange(start, end) }
}

/// A borrowed range of the text: its byte offsets and the slice between them.
#[derive(Clone, Copy, Debug, PartialEq)]
pub struct TextRange<'a> {
    pub start: usize,
    pub end: usize,
    pub slice: &'a str,
}

impl<'a> View for TextRange<'a> {
    type V = Span;

    open spec fn view(&self) -> Span {
        Span { start: self.start as int, end: self.end as int, text: self.slice.spec_bytes() }
    }
}

/// The model of an optional range.
pub open spec fn opt_span(r: Option<TextRange>) -> Option<Span> {
    match r {
        Some(r) => Some(r@),
        None => None,
    }
}

impl<'a> TextRange<'a> {
    pub fn is_empty(&self) -> (r: bool)
        ensures
            r == (self.start >= self.end),
    {
        self.start >= self.end
    }

    pub fn start(&self) -> (r: usize)
        ensures
            r == self.start,
    {
        self.start
    }

    pub fn end(&self) -> (r: usize)
        ensures
            r == self.end,
    {
        self.end
    }

    /// The text that the range covers.
    pub fn as_str(&self) -> (r: &'a str)
        ensures
            r == self.slice,
    {
        self.slice
    }
}

} // verus!
