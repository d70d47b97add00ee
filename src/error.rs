//! What a failed scan or parse reports.

use vstd::prelude::*;
use vstd::utf8::encode_utf8;

use crate::textrange::Span;

verus! {

/// A line and column, both counted from one.
#[derive(Debug)]
pub struct XmlErrorPos {
    pub row: usize,
    pub col: usize,
}

/// The byte range of the text that an error is about, and a copy of that text.
#[derive(Debug)]
pub struct XmlErrorRange {
    pub start: usize,
    pub end: usize,
    pub input: String,
}

impl View for XmlErrorRange {
    type V = Span;

    open spec fn view(&self) -> Span {
        Span { start: self.start as int, end: self.end as int, text: encode_utf8(self.input@) }
    }
}

#[derive(Debug)]
pub enum XmlError {
    /// An end tag whose name differs from that of the start tag it closes.
    NonMatchingTags { start_tag: XmlErrorRange, end_tag: XmlErrorRange },
    /// A token where the structure of a document allows none of its kind.
    UnexpectedXmlToken { token: XmlErrorRange },
    /// Text that the grammar does not allow where it stands.
    IllegalToken { range: XmlErrorRange, expected: Option<String> },
    /// A reference `&...;` that names no character.
    UnknownReference { range: XmlErrorRange },
    /// The text ended in the middle of a construct.
    UnexpectedEndOfFile,
}

/// The model of an error: its kind and the ranges it carries.
pub enum ErrV {
    NonMatchingTags(Span, Span),
    UnexpectedXmlToken(Span),
    IllegalToken(Span),
    UnknownReference(Span),
    UnexpectedEndOfFile,
}

impl View for XmlError {
    type V = ErrV;

    open spec fn view(&self) -> ErrV {
        match self {
            XmlError::NonMatchingTags { start_tag, end_tag } => ErrV::NonMatchingTags(
                start_tag@,
                end_tag@,
            ),
            XmlError::UnexpectedXmlToken { token } => ErrV::UnexpectedXmlToken(token@),
            XmlError::IllegalToken { range, .. } => ErrV::IllegalToken(range@),
            XmlError::UnknownReference { range } => ErrV::UnknownReference(range@),
            XmlError::UnexpectedEndOfFile => ErrV::UnexpectedEndOfFile,
        }
    }
}

/// The text that an error points at: the end tag for tags that do not match, nothing for
/// the end of the text.
pub open spec fn target_of(e: ErrV) -> Seq<u8> {
    match e {
        ErrV::NonMatchingTags(_, end_tag) => end_tag.text,
        ErrV::UnexpectedXmlToken(r) => r.text,
        ErrV::IllegalToken(r) => r.text,
        ErrV::UnknownReference(r) => r.text,
        ErrV::UnexpectedEndOfFile => Seq::empty(),
    }
}

impl XmlError {
    /// The offending text.
    pub fn get_target(&self) -> (r: String)
        ensures
            encode_utf8(r@) == target_of(self@),
    {
        match self {
            XmlError::NonMatchingTags { end_tag, .. } => end_tag.input.clone(),
            XmlError::UnexpectedXmlToken { token } => token.input.clone(),
            XmlError::IllegalToken { range, .. } => range.input.clone(),
            XmlError::UnknownReference { range } => range.input.clone(),
            XmlError::UnexpectedEndOfFile => String::new(),
        }
    }
}

} // verus!
