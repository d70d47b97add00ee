//! The lexical tokens of a document.

use vstd::prelude::*;

use crate::textrange::{opt_span, Span, TextRange};

verus! {

#[derive(Clone, Copy, Debug)]
pub enum XmlToken<'a> {
    Text(TextRange<'a>),
    StartTag(TextRange<'a>),
    EndTag(TextRange<'a>),
    CdataSection(TextRange<'a>),
    Comment(TextRange<'a>),
    ProcessingInstruction { target_range: TextRange<'a>, opt_value_range: Option<TextRange<'a>> },
    Attribute { name_range: TextRange<'a>, value_range: TextRange<'a> },
    // Prolog tokens
    XmlDeclaration {
        version_range: TextRange<'a>,
        opt_encoding_range: Option<TextRange<'a>>,
        opt_standalone_range: Option<TextRange<'a>>,
    },
    DocTypeDeclaration {
        name_range: TextRange<'a>,
        opt_system_entity_range: Option<TextRange<'a>>,
        opt_public_entity_range: Option<TextRange<'a>>,
    },
    ParameterEntityReference(TextRange<'a>),
}

/// The model of a token: its kind and the ranges of the text it carries.
pub enum TokenV {
    Text(Span),
    StartTag(Span),
    EndTag(Span),
    CdataSection(Span),
    Comment(Span),
    ProcessingInstruction { target: Span, data: Option<Span> },
    Attribute { name: Span, value: Span },
    XmlDeclaration { version: Span, encoding: Option<Span>, standalone: Option<Span> },
    DocTypeDeclaration { name: Span, system: Option<Span>, public: Option<Span> },
    ParameterEntityReference(Span),
}

impl<'a> View for XmlToken<'a> {
    type V = TokenV;

    open spec fn view(&self) -> TokenV {
        match self {
            XmlToken::Text(r) => TokenV::Text(r@),
            XmlToken::StartTag(r) => TokenV::StartTag(r@),
            XmlToken::EndTag(r) => TokenV::EndTag(r@),
            XmlToken::CdataSection(r) => TokenV::CdataSection(r@),
            XmlToken::Comment(r) => TokenV::Comment(r@),
            XmlToken::ProcessingInstruction { target_range, opt_value_range } => {
                TokenV::ProcessingInstruction {
                    target: target_range@,
                    data: opt_span(*opt_value_range),
                }
            },
            XmlToken::Attribute { name_range, value_range } => TokenV::Attribute {
                name: name_range@,
                value: value_range@,
            },
            XmlToken::XmlDeclaration { version_range, opt_encoding_range, opt_standalone_range } => {
                TokenV::XmlDeclaration {
                    version: version_range@,
                    encoding: opt_span(*opt_encoding_range),
                    standalone: opt_span(*opt_standalone_range),
                }
            },
            XmlToken::DocTypeDeclaration {
                name_range,
                opt_system_entity_range,
                opt_public_entity_range,
            } => TokenV::DocTypeDeclaration {
                name: name_range@,
                system: opt_span(*opt_system_entity_range),
                public: opt_span(*opt_public_entity_range),
            },
            XmlToken::ParameterEntityReference(r) => TokenV::ParameterEntityReference(r@),
        }
    }
}

/// The models of a sequence of tokens.
pub open spec fn tokens_view(v: Seq<XmlToken>) -> Seq<TokenV> {
    v.map_values(|t: XmlToken| t@)
}

} // verus!
