//! A cursor over the bytes of a text, aware of UTF-8 and of the XML character classes.

use std::ops::Range;

use vstd::prelude::*;
use vstd::string::StringSliceAdditionalSpecFns;
use vstd::string::StringExecFns;
use vstd::utf8::*;

use crate::error::{ErrV, XmlError, XmlErrorPos, XmlErrorRange};
use crate::textrange::{span, TextRange};
use crate::xmlchar::{is_xml_char_code, xml_char, xml_whitespace, XmlByte};

verus! {

/// Relies on char::from_u32: `Some` exactly for the Unicode scalar values, holding that value.
pub assume_specification[ char::from_u32 ](i: u32) -> (r: Option<char>)
    ensures
        r is Some <==> (i < 0xD800 || (0xE000 <= i && i <= 0x10FFFF)),
        r matches Some(c) ==> c as u32 == i,
;

/// Byte width of the UTF-8 sequence that starts with the byte at `p`.
pub open spec fn width_at(b: Seq<u8>, p: int) -> int {
    let x = b[p];
    if x < 0x80 {
        1
    } else if 0xC0 <= x && x <= 0xDF {
        2
    } else if 0xE0 <= x && x <= 0xEF {
        3
    } else if 0xF0 <= x && x <= 0xF7 {
        4
    } else {
        1
    }
}

/// The code point whose UTF-8 sequence starts at `p`.
pub open spec fn code_at(b: Seq<u8>, p: int) -> u32 {
    let x = b[p] as int;
    if x < 0x80 {
        x as u32
    } else if 0xC0 <= x && x <= 0xDF {
        ((x % 32) * 64 + (b[p + 1] as int) % 64) as u32
    } else if 0xE0 <= x && x <= 0xEF {
        ((x % 16) * 4096 + ((b[p + 1] as int) % 64) * 64 + (b[p + 2] as int) % 64) as u32
    } else if 0xF0 <= x && x <= 0xF7 {
        ((x % 8) * 262144 + ((b[p + 1] as int) % 64) * 4096 + ((b[p + 2] as int) % 64) * 64 + (
        b[p + 3] as int) % 64) as u32
    } else {
        x as u32
    }
}

/// The error for the character at `p`: the end of the text, or that character as illegal.
pub open spec fn illegal_at(b: Seq<u8>, p: int) -> ErrV {
    if p >= b.len() {
        ErrV::UnexpectedEndOfFile
    } else if is_char_boundary(b, p) {
        ErrV::IllegalToken(span(b, p, p + width_at(b, p)))
    } else {
        // inside a character no range can be cut out: the error points at the offset alone
        ErrV::IllegalToken(span(b, p, p))
    }
}

/// The XML character at `p`.
pub open spec fn peek_char(b: Seq<u8>, p: int) -> Result<u32, ErrV> {
    if p >= b.len() {
        Err(ErrV::UnexpectedEndOfFile)
    } else if p + width_at(b, p) > b.len() || !xml_char(code_at(b, p)) {
        Err(illegal_at(b, p))
    } else {
        Ok(code_at(b, p))
    }
}

/// Whether `s` stands at `p`.
pub open spec fn test_at(b: Seq<u8>, p: int, s: Seq<u8>) -> bool {
    0 <= p && p + s.len() <= b.len() && b.subrange(p, p + s.len()) == s
}

/// The end of the run of whitespace that starts at `p`.
pub open spec fn skip_ws(b: Seq<u8>, p: int) -> int
    decreases b.len() - p,
{
    if 0 <= p < b.len() && xml_whitespace(b[p]) {
        skip_ws(b, p + 1)
    } else {
        p
    }
}

/// A non-empty run of whitespace at `p`.
pub open spec fn spaces_at(b: Seq<u8>, p: int) -> Result<int, ErrV> {
    if p >= b.len() {
        Err(ErrV::UnexpectedEndOfFile)
    } else if !xml_whitespace(b[p]) {
        Err(illegal_at(b, p))
    } else {
        Ok(skip_ws(b, p))
    }
}

/// The byte `x` at `p`.
pub open spec fn byte_at(b: Seq<u8>, p: int, x: u8) -> Result<int, ErrV> {
    if p >= b.len() {
        Err(ErrV::UnexpectedEndOfFile)
    } else if b[p] != x {
        Err(illegal_at(b, p))
    } else {
        Ok(p + 1)
    }
}

/// The bytes `s` at `p`.
pub open spec fn bytes_at(b: Seq<u8>, p: int, s: Seq<u8>) -> Result<int, ErrV> {
    if test_at(b, p, s) {
        Ok(p + s.len())
    } else if p >= b.len() {
        Err(ErrV::IllegalToken(span(b, p, p)))
    } else {
        Err(illegal_at(b, p))
    }
}

pub open spec fn is_ascii_seq(s: Seq<u8>) -> bool {
    forall|i: int| 0 <= i < s.len() ==> s[i] < 0x80
}

/// The number of line feeds among the first `n` bytes.
pub open spec fn line_feeds(b: Seq<u8>, n: int) -> int
    decreases n,
{
    if n <= 0 {
        0
    } else {
        line_feeds(b, n - 1) + if b[n - 1] == 0x0A {
            1int
        } else {
            0int
        }
    }
}

/// The offset of the last line feed among the first `n` bytes, or zero if there is none.
pub open spec fn last_line_feed(b: Seq<u8>, n: int) -> int
    decreases n,
{
    if n <= 0 {
        0
    } else if b[n - 1] == 0x0A {
        n - 1
    } else {
        last_line_feed(b, n - 1)
    }
}

proof fn lemma_boundary_after_scalar(b: Seq<u8>, p: int)
    requires
        valid_utf8(b),
        is_char_boundary(b, p),
        0 <= p < b.len(),
    ensures
        valid_first_scalar(b.subrange(p, b.len() as int)),
        is_char_boundary(b, p + length_of_first_scalar(b.subrange(p, b.len() as int))),
    decreases b.len(),
{
    let l0 = length_of_first_scalar(b);
    let rest = pop_first_scalar(b);
    if p == 0 {
        assert(b.subrange(0, b.len() as int) =~= b);
        assert(is_char_boundary(rest, 0));
    } else {
        assert(is_char_boundary(rest, p - l0));
        lemma_boundary_after_scalar(rest, p - l0);
        assert(rest.subrange(p - l0, rest.len() as int) =~= b.subrange(p, b.len() as int));
    }
}

/// A character boundary inside the text is followed by a whole UTF-8 sequence, which ends at
/// another boundary.
pub proof fn lemma_char_step(b: Seq<u8>, p: int)
    requires
        valid_utf8(b),
        is_char_boundary(b, p),
        0 <= p < b.len(),
    ensures
        1 <= width_at(b, p) <= 4,
        p + width_at(b, p) <= b.len(),
        is_char_boundary(b, p + width_at(b, p)),
        b[p] < 0x80 ==> width_at(b, p) == 1,
{
    lemma_boundary_after_scalar(b, p);
    let s = b.subrange(p, b.len() as int);
    assert(s[0] == b[p]);
}

pub proof fn lemma_ascii_run(b: Seq<u8>, p: int, s: Seq<u8>)
    requires
        valid_utf8(b),
        is_char_boundary(b, p),
        test_at(b, p, s),
        is_ascii_seq(s),
    ensures
        is_char_boundary(b, p + s.len()),
    decreases s.len(),
{
    if s.len() > 0 {
        assert(b[p] == s[0]);
        lemma_char_step(b, p);
        let t = s.subrange(1, s.len() as int);
        assert(b.subrange(p + 1, p + 1 + t.len()) =~= t);
        lemma_ascii_run(b, p + 1, t);
    }
}

pub proof fn lemma_skip_ws(b: Seq<u8>, p: int)
    requires
        valid_utf8(b),
        is_char_boundary(b, p),
        0 <= p <= b.len(),
    ensures
        p <= skip_ws(b, p) <= b.len(),
        is_char_boundary(b, skip_ws(b, p)),
    decreases b.len() - p,
{
    if 0 <= p < b.len() && xml_whitespace(b[p]) {
        lemma_char_step(b, p);
        lemma_skip_ws(b, p + 1);
    }
}

/// A run of whitespace never ends before it starts.
pub proof fn lemma_skip_ws_from(b: Seq<u8>, p: int)
    requires
        0 <= p,
    ensures
        p <= skip_ws(b, p),
    decreases b.len() - p,
{
    if 0 <= p < b.len() && xml_whitespace(b[p]) {
        lemma_skip_ws_from(b, p + 1);
    }
}

proof fn lemma_sub_boundary(b: Seq<u8>, s: int, e: int)
    requires
        valid_utf8(b),
        is_char_boundary(b, s),
        is_char_boundary(b, e),
        0 <= s <= e <= b.len(),
    ensures
        is_char_boundary(b.subrange(s, b.len() as int), e - s),
{
    valid_utf8_split(b, s);
    let t = b.subrange(s, b.len() as int);
    is_char_boundary_start_end_of_seq(t);
    if e - s > 0 && e < b.len() {
        assert(t[e - s] == b[e]);
        is_char_boundary_iff_not_is_continuation_byte(b, e);
        is_char_boundary_iff_not_is_continuation_byte(t, e - s);
    } else if e == b.len() {
        assert(t.len() == e - s);
    }
}

/// One character further on, a boundary is followed by another.
pub broadcast proof fn lemma_char_boundary_step(b: Seq<u8>, p: int)
    requires
        valid_utf8(b),
        is_char_boundary(b, p),
        0 <= p < b.len(),
    ensures
        #[trigger] is_char_boundary(b, p + width_at(b, p)),
        b[p] < 0x80 ==> is_char_boundary(b, p + 1),
{
    lemma_char_step(b, p);
}

/// ASCII bytes that stand at a boundary end at one.
pub broadcast proof fn lemma_ascii_boundary(b: Seq<u8>, p: int, s: Seq<u8>)
    requires
        valid_utf8(b),
        is_char_boundary(b, p),
        #[trigger] test_at(b, p, s),
        is_ascii_seq(s),
    ensures
        is_char_boundary(b, p + s.len()),
{
    lemma_ascii_run(b, p, s);
}

pub broadcast group group_boundaries {
    lemma_char_boundary_step,
    lemma_ascii_boundary,
}

/// The bytes of every text are valid UTF-8, with boundaries at both ends.
pub proof fn lemma_text_bytes(t: &str)
    ensures
        valid_utf8(t.spec_bytes()),
        is_char_boundary(t.spec_bytes(), 0),
        is_char_boundary(t.spec_bytes(), t.spec_bytes().len() as int),
{
    encode_utf8_valid_utf8(t@);
    is_char_boundary_start_end_of_seq(t.spec_bytes());
}

/// The bytes `b` as text for a message, each byte shown as the character of that number.
fn shown(b: &[u8]) -> String {
    let mut s = String::new();
    let mut i: usize = 0;
    while i < b.len()
        decreases b@.len() - i,
    {
        s.append((b[i] as char).to_string().as_str());
        i = i + 1;
    }
    s
}

/// A cursor over a text: a byte offset into it. Characters are read only where it stands on a
/// character boundary (`ready`); byte moves may leave it inside a character.
pub struct CharIter<'a> {
    pub pos: usize,
    pub text: &'a str,
}

impl<'a> CharIter<'a> {
    pub open spec fn bytes(&self) -> Seq<u8> {
        self.text.spec_bytes()
    }

    pub open spec fn wf(&self) -> bool {
        &&& self.pos <= self.bytes().len()
        &&& self.bytes().len() <= usize::MAX
        &&& valid_utf8(self.bytes())
    }

    /// The cursor stands on a character boundary, where characters can be read.
    pub open spec fn ready(&self) -> bool {
        self.wf() && is_char_boundary(self.bytes(), self.pos as int)
    }

    /// Whether `p` is an offset where a range of the text may begin or end.
    pub open spec fn boundary(&self, p: int) -> bool {
        0 <= p <= self.bytes().len() && is_char_boundary(self.bytes(), p)
    }

    /// A cursor at the start of `text`.
    pub fn new(text: &'a str) -> (r: Self)
        ensures
            r.ready(),
            r.text == text,
            r.pos == 0,
    {
        proof {
            lemma_text_bytes(text);
        }
        let len = text.as_bytes().len();
        assert(len == text.spec_bytes().len());
        CharIter { pos: 0, text }
    }

    /// Get the underlying text as an owned String
    pub fn text(&self) -> (r: String)
        ensures
            r@ == self.text@,
    {
        self.text.to_owned()
    }

    /// Get the current position as an index in the underlying string slice
    pub fn pos(&self) -> (r: usize)
        ensures
            r == self.pos,
    {
        self.pos
    }

    /// If the iterator has more elements
    pub fn has_next(&self) -> (r: bool)
        ensures
            r == (self.pos < self.bytes().len()),
    {
        self.pos < self.text.as_bytes().len()
    }

    /// The width in bytes of the character under the cursor.
    fn char_width(&self) -> (r: usize)
        requires
            self.ready(),
            self.pos < self.bytes().len(),
        ensures
            r == width_at(self.bytes(), self.pos as int),
            self.pos + r <= self.bytes().len(),
            self.boundary(self.pos + r),
    {
        proof {
            lemma_char_step(self.bytes(), self.pos as int);
        }
        let x = self.text.as_bytes()[self.pos];
        if x < 0x80 {
            1
        } else if 0xC0 <= x && x <= 0xDF {
            2
        } else if 0xE0 <= x && x <= 0xEF {
            3
        } else if 0xF0 <= x && x <= 0xF7 {
            4
        } else {
            1
        }
    }

    /// The empty range at the cursor, for an error where no character can be cut out.
    fn empty_range(&self) -> (r: XmlErrorRange)
        requires
            self.wf(),
        ensures
            r@ == span(self.bytes(), self.pos as int, self.pos as int),
    {
        let r = XmlErrorRange { start: self.pos, end: self.pos, input: String::new() };
        assert(encode_utf8(r.input@) =~= self.bytes().subrange(self.pos as int, self.pos as int));
        r
    }

    /// The error for the character under the cursor.
    pub(crate) fn illegal_here(&self, expected: Option<String>) -> (e: XmlError)
        requires
            self.wf(),
        ensures
            e@ == illegal_at(self.bytes(), self.pos as int),
    {
        if self.pos >= self.text.as_bytes().len() {
            XmlError::UnexpectedEndOfFile
        } else if !self.text.is_char_boundary(self.pos) {
            XmlError::IllegalToken {
                range: self.empty_range(),
                expected,
            }
        } else {
            let w = self.char_width();
            XmlError::IllegalToken { range: self.error_slice(self.pos..self.pos + w), expected }
        }
    }

    /// The character under the cursor and its width in bytes.
    pub(crate) fn peek_scalar(&self) -> (r: Result<(char, usize), XmlError>)
        requires
            self.wf(),
        ensures
            !is_char_boundary(self.bytes(), self.pos as int) ==> (r matches Err(x) && x@
                == illegal_at(self.bytes(), self.pos as int)),
            is_char_boundary(self.bytes(), self.pos as int) ==> match peek_char(
                self.bytes(),
                self.pos as int,
            ) {
                Ok(c) => r matches Ok((ch, w)) && ch as u32 == c && w == width_at(
                    self.bytes(),
                    self.pos as int,
                ) && self.pos + w <= self.bytes().len() && self.boundary(self.pos + w),
                Err(e) => r matches Err(x) && x@ == e,
            },
    {
        if !self.text.is_char_boundary(self.pos) {
            return Err(self.illegal_here(None));
        }
        if self.pos >= self.text.as_bytes().len() {
            return Err(XmlError::UnexpectedEndOfFile);
        }
        let w = self.char_width();
        let bytes = self.text.as_bytes();
        let x = bytes[self.pos] as u32;
        let code: u32 = if w == 1 {
            x
        } else if w == 2 {
            (x % 32) * 64 + (bytes[self.pos + 1] as u32) % 64
        } else if w == 3 {
            (x % 16) * 4096 + ((bytes[self.pos + 1] as u32) % 64) * 64 + (bytes[self.pos + 2] as u32)
                % 64
        } else {
            (x % 8) * 262144 + ((bytes[self.pos + 1] as u32) % 64) * 4096 + ((bytes[self.pos
                + 2] as u32) % 64) * 64 + (bytes[self.pos + 3] as u32) % 64
        };
        if !is_xml_char_code(code) {
            return Err(self.illegal_here(None));
        }
        match char::from_u32(code) {
            Some(c) => Ok((c, w)),
            None => Err(self.illegal_here(None)),
        }
    }

    /// Get the current character and advance the iterator by the length of that character.
    /// Throws an error if the character is not a valid XML char, or the cursor stands inside
    /// a character.
    pub fn next_xml_char(&mut self) -> (r: Result<char, XmlError>)
        requires
            old(self).wf(),
        ensures
            final(self).wf(),
            final(self).text == old(self).text,
            !old(self).ready() ==> (r matches Err(x) && x@ == illegal_at(
                old(self).bytes(),
                old(self).pos as int,
            ) && final(self).pos == old(self).pos),
            old(self).ready() ==> final(self).ready(),
            old(self).ready() ==> match peek_char(old(self).bytes(), old(self).pos as int) {
                Ok(c) => r matches Ok(ch) && ch as u32 == c && final(self).pos == old(self).pos
                    + width_at(old(self).bytes(), old(self).pos as int),
                Err(e) => r matches Err(x) && x@ == e && final(self).pos == old(self).pos,
            },
    {
        let (c, w) = self.peek_scalar()?;
        self.pos = self.pos + w;
        Ok(c)
    }

    /// Get the current character without advancing the iterator.
    /// Throws an error if the character is not a valid XML char, or the cursor stands inside
    /// a character.
    pub fn peek_xml_char(&self) -> (r: Result<char, XmlError>)
        requires
            self.wf(),
        ensures
            !self.ready() ==> (r matches Err(x) && x@ == illegal_at(self.bytes(), self.pos as int)),
            self.ready() ==> match peek_char(self.bytes(), self.pos as int) {
                Ok(c) => r matches Ok(ch) && ch as u32 == c,
                Err(e) => r matches Err(x) && x@ == e,
            },
    {
        let (c, _) = self.peek_scalar()?;
        Ok(c)
    }

    /// Get the current byte and advance the iterator by one. Does NOT check for character
    /// boundaries: after a byte that begins a longer character the cursor stands inside it.
    pub fn next_byte(&mut self) -> (r: Result<u8, XmlError>)
        requires
            old(self).wf(),
        ensures
            final(self).wf(),
            final(self).text == old(self).text,
            old(self).pos < old(self).bytes().len() ==> r == Ok::<u8, XmlError>(
                old(self).bytes()[old(self).pos as int],
            ) && final(self).pos == old(self).pos + 1,
            old(self).pos >= old(self).bytes().len() ==> (r matches Err(x) && x@
                == ErrV::UnexpectedEndOfFile && final(self).pos == old(self).pos),
            old(self).ready() && old(self).pos < old(self).bytes().len() && old(self).bytes()[old(
                self,
            ).pos as int] < 0x80 ==> final(self).ready(),
    {
        let byte = self.peek_byte()?;
        proof {
            if is_char_boundary(self.bytes(), self.pos as int) {
                lemma_char_step(self.bytes(), self.pos as int);
            }
        }
        self.pos = self.pos + 1;
        Ok(byte)
    }

    /// Get the current byte without advancing the iterator
    pub fn peek_byte(&self) -> (r: Result<u8, XmlError>)
        requires
            self.wf(),
        ensures
            self.pos < self.bytes().len() ==> r == Ok::<u8, XmlError>(
                self.bytes()[self.pos as int],
            ),
            self.pos >= self.bytes().len() ==> (r matches Err(x) && x@ == ErrV::UnexpectedEndOfFile),
    {
        if !self.has_next() {
            return Err(XmlError::UnexpectedEndOfFile);
        }
        Ok(self.text.as_bytes()[self.pos])
    }

    /// Advance the iterator by n bytes; fails at the end of the text, and when the n bytes run
    /// past it.
    pub fn advance_n(&mut self, n: usize) -> (r: Result<(), XmlError>)
        requires
            old(self).wf(),
        ensures
            final(self).wf(),
            final(self).text == old(self).text,
            old(self).pos < old(self).bytes().len() && old(self).pos + n <= old(self).bytes().len()
                ==> r is Ok && final(self).pos == old(self).pos + n,
            !(old(self).pos < old(self).bytes().len() && old(self).pos + n
                <= old(self).bytes().len()) ==> (r matches Err(x) && x@
                == ErrV::UnexpectedEndOfFile && final(self).pos == old(self).pos),
    {
        if !self.has_next() || n > self.text.as_bytes().len() - self.pos {
            return Err(XmlError::UnexpectedEndOfFile);
        }
        self.pos = self.pos + n;
        Ok(())
    }

    /// Advance the iterator by the length of a byte slice; fails where `advance_n` does. Over
    /// ASCII bytes that stand under a cursor on a boundary, it ends on a boundary.
    pub fn skip_over(&mut self, expected: &[u8]) -> (r: Result<(), XmlError>)
        requires
            old(self).wf(),
        ensures
            final(self).wf(),
            final(self).text == old(self).text,
            old(self).pos < old(self).bytes().len() && old(self).pos + expected@.len()
                <= old(self).bytes().len() ==> r is Ok && final(self).pos == old(self).pos
                + expected@.len(),
            !(old(self).pos < old(self).bytes().len() && old(self).pos + expected@.len()
                <= old(self).bytes().len()) ==> (r matches Err(x) && x@
                == ErrV::UnexpectedEndOfFile && final(self).pos == old(self).pos),
            old(self).ready() && test_at(old(self).bytes(), old(self).pos as int, expected@)
                && is_ascii_seq(expected@) && r is Ok ==> final(self).ready(),
    {
        proof {
            if is_char_boundary(self.bytes(), self.pos as int) && test_at(
                self.bytes(),
                self.pos as int,
                expected@,
            ) && is_ascii_seq(expected@) {
                lemma_ascii_run(self.bytes(), self.pos as int, expected@);
            }
        }
        self.advance_n(expected.len())
    }

    /// Advance the iterator over the (possibly empty) run of whitespace under it.
    pub fn skip_spaces(&mut self) -> (r: Result<(), XmlError>)
        requires
            old(self).wf(),
        ensures
            final(self).wf(),
            final(self).text == old(self).text,
            final(self).pos == skip_ws(old(self).bytes(), old(self).pos as int),
            final(self).pos >= old(self).pos,
            old(self).ready() ==> final(self).ready(),
            r is Ok,
    {
        let bytes = self.text.as_bytes();
        let ghost b = self.bytes();
        let ghost p0 = self.pos as int;
        proof {
            lemma_skip_ws_from(b, p0);
        }
        while self.pos < bytes.len() && bytes[self.pos].is_xml_whitespace()
            invariant
                self.wf(),
                self.text == old(self).text,
                bytes@ == b,
                b == self.bytes(),
                skip_ws(b, self.pos as int) == skip_ws(b, p0),
                is_char_boundary(b, p0) ==> is_char_boundary(b, self.pos as int),
                p0 <= self.pos,
            decreases b.len() - self.pos,
        {
            proof {
                if is_char_boundary(b, self.pos as int) {
                    lemma_char_step(b, self.pos as int);
                }
            }
            self.pos = self.pos + 1;
        }
        Ok(())
    }

    /// Test if a specified byte slice starts at the current iterator position
    pub fn test(&self, test: &[u8]) -> (r: bool)
        requires
            self.wf(),
        ensures
            r == test_at(self.bytes(), self.pos as int, test@),
    {
        let bytes = self.text.as_bytes();
        if test.len() > bytes.len() - self.pos {
            return false;
        }
        let mut i: usize = 0;
        while i < test.len()
            invariant
                self.pos + test@.len() <= bytes@.len(),
                bytes@.len() <= usize::MAX,
                bytes@ == self.bytes(),
                i <= test@.len(),
                forall|j: int| 0 <= j < i ==> bytes@[self.pos + j] == test@[j],
            decreases test@.len() - i,
        {
            if bytes[self.pos + i] != test[i] {
                assert(self.bytes().subrange(self.pos as int, self.pos + test@.len())[i as int]
                    != test@[i as int]);
                return false;
            }
            i = i + 1;
        }
        assert(self.bytes().subrange(self.pos as int, self.pos + test@.len()) =~= test@);
        true
    }

    /// Test if the specified byte equals the current byte
    pub fn test_byte(&self, test: u8) -> (r: bool)
        requires
            self.wf(),
        ensures
            r == (self.pos < self.bytes().len() && self.bytes()[self.pos as int] == test),
    {
        self.pos < self.text.as_bytes().len() && self.text.as_bytes()[self.pos] == test
    }

    /// Test if a specified byte slice starts after skipping spaces
    pub fn test_after_spaces(&self, test: &[u8]) -> (r: bool)
        requires
            self.wf(),
        ensures
            r == test_at(self.bytes(), skip_ws(self.bytes(), self.pos as int), test@),
    {
        let mut probe = CharIter { pos: self.pos, text: self.text };
        let _ = probe.skip_spaces();
        probe.test(test)
    }

    /// Test if a specified byte slice starts at the current iterator position; consume it if
    /// so, return an error if not.
    pub fn expect_bytes(&mut self, expected: &[u8]) -> (r: Result<(), XmlError>)
        requires
            old(self).wf(),
        ensures
            final(self).wf(),
            final(self).text == old(self).text,
            match bytes_at(old(self).bytes(), old(self).pos as int, expected@) {
                Ok(q) => r is Ok && final(self).pos == q,
                Err(e) => r matches Err(x) && x@ == e && final(self).pos == old(self).pos,
            },
            old(self).ready() && is_ascii_seq(expected@) && r is Ok ==> final(self).ready(),
    {
        proof {
            if is_char_boundary(self.bytes(), self.pos as int) && is_ascii_seq(expected@)
                && test_at(self.bytes(), self.pos as int, expected@) {
                lemma_ascii_run(self.bytes(), self.pos as int, expected@);
            }
        }
        if !self.test(expected) {
            if !self.has_next() {
                return Err(
                    XmlError::IllegalToken {
                        range: self.empty_range(),
                        expected: Some(shown(expected)),
                    },
                );
            }
            return Err(self.illegal_here(Some(shown(expected))));
        }
        self.pos = self.pos + expected.len();
        Ok(())
    }

    /// Test if the current byte equals the expected, return an error if it doesn't.
    pub fn expect_byte(&mut self, expected: u8) -> (r: Result<(), XmlError>)
        requires
            old(self).wf(),
        ensures
            final(self).wf(),
            final(self).text == old(self).text,
            match byte_at(old(self).bytes(), old(self).pos as int, expected) {
                Ok(q) => r is Ok && final(self).pos == q,
                Err(e) => r matches Err(x) && x@ == e && final(self).pos == old(self).pos,
            },
            old(self).ready() && expected < 0x80 && r is Ok ==> final(self).ready(),
    {
        if self.peek_byte()? != expected {
            return Err(self.illegal_here(Some((expected as char).to_string())));
        }
        proof {
            if is_char_boundary(self.bytes(), self.pos as int) {
                lemma_char_step(self.bytes(), self.pos as int);
            }
        }
        self.pos = self.pos + 1;
        Ok(())
    }

    /// Like [skip_spaces](CharIter::skip_spaces) but throws and error if no space is skipped.
    pub fn expect_spaces(&mut self) -> (r: Result<(), XmlError>)
        requires
            old(self).wf(),
        ensures
            final(self).wf(),
            final(self).text == old(self).text,
            match spaces_at(old(self).bytes(), old(self).pos as int) {
                Ok(q) => r is Ok && final(self).pos == q && q > old(self).pos,
                Err(e) => r matches Err(x) && x@ == e && final(self).pos == old(self).pos,
            },
            old(self).ready() ==> final(self).ready(),
    {
        if !self.peek_byte()?.is_xml_whitespace() {
            return Err(self.illegal_here(Some("Any space".to_string())));
        }
        proof {
            lemma_skip_ws_from(self.bytes(), self.pos + 1);
        }
        let _ = self.skip_spaces();
        Ok(())
    }

    /// Create a TextRange using a text range and the underlying text; both ends of the range
    /// are character boundaries.
    pub fn slice(&self, range: Range<usize>) -> (r: TextRange<'a>)
        requires
            self.wf(),
            range.start <= range.end,
            self.boundary(range.start as int),
            self.boundary(range.end as int),
        ensures
            r@ == span(self.bytes(), range.start as int, range.end as int),
    {
        proof {
            lemma_sub_boundary(self.bytes(), range.start as int, range.end as int);
        }
        let (_, tail) = self.text.split_at(range.start);
        let (mid, _) = tail.split_at(range.end - range.start);
        assert(mid.spec_bytes() =~= self.bytes().subrange(range.start as int, range.end as int));
        TextRange { start: range.start, end: range.end, slice: mid }
    }

    /// Capture the text region that caused an error as an owned string.
    pub fn error_slice(&self, range: Range<usize>) -> (r: XmlErrorRange)
        requires
            self.wf(),
            range.start <= range.end,
            self.boundary(range.start as int),
            self.boundary(range.end as int),
        ensures
            r@ == span(self.bytes(), range.start as int, range.end as int),
    {
        let tr = self.slice(range);
        XmlErrorRange { start: tr.start, end: tr.end, input: tr.slice.to_owned() }
    }

    /// The line and column of the byte at `pos`: lines are counted by the line feeds up to
    /// and including that byte, columns from the last of them.
    pub fn error_pos_of(&self, pos: usize) -> (r: XmlErrorPos)
        requires
            pos < self.bytes().len() < usize::MAX,
        ensures
            r.row == 1 + line_feeds(self.bytes(), pos + 1),
            r.col == pos - last_line_feed(self.bytes(), pos + 1),
    {
        let bytes = self.text.as_bytes();
        let mut row: usize = 1;
        let mut last_line_break_index: usize = 0;
        let mut i: usize = 0;
        while i <= pos
            invariant
                bytes@ == self.bytes(),
                pos < bytes@.len() < usize::MAX,
                i <= pos + 1,
                row == 1 + line_feeds(bytes@, i as int),
                row <= 1 + i,
                last_line_break_index == last_line_feed(bytes@, i as int),
                last_line_break_index <= pos,
            decreases pos + 1 - i,
        {
            if bytes[i] == 0x0A {
                row = row + 1;
                last_line_break_index = i;
            }
            i = i + 1;
        }
        XmlErrorPos { row, col: pos - last_line_break_index }
    }

    /// The line and column of the cursor, which must stand on a byte of the text.
    pub fn error_pos(&self) -> (r: XmlErrorPos)
        requires
            self.pos < self.bytes().len() < usize::MAX,
        ensures
            r.row == 1 + line_feeds(self.bytes(), self.pos + 1),
            r.col == self.pos - last_line_feed(self.bytes(), self.pos + 1),
    {
        self.error_pos_of(self.pos)
    }
}

impl Default for CharIter<'_> {
    fn default() -> (r: Self)
        ensures
            r.ready(),
            r.pos == 0,
    {
        CharIter::new("")
    }
}

} // verus!
