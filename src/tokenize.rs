//! The tokenizer: a single forward pass of a cursor through the productions of the grammar.

use vstd::prelude::*;
use vstd::string::StringSliceAdditionalSpecFns;

use crate::chariter::{bytes_at, CharIter, peek_char, test_at};
use crate::error::{ErrV, XmlError};
use crate::grammar::{
    attribute_at, attributes_at, cdata_at, chars_until, char_data, comment_at, comment_body,
    content_at, digits_at, doctype_at, enc_name_at, enc_rest, encoding_decl_at, end_tag_at, eq_at,
    external_id_at, external_part, internal_subset_at, markup_at, misc_at, misc_run,
    name_at, name_rest, optional_decl, pe_reference_at, pi_at, prolog_at, pubid_literal_at,
    pubid_rest, quote_at, quoted_after, reference_at, reference_end, standalone_decl_at, start_tag_at, tag_end_at,
    subset_part, system_literal_at, tokenize_spec, version_info_at, version_num_at, xml_decl_at,
    yes_no_at, Scan, AMP, CDATA_CLOSE, CDATA_OPEN, COMMENT_CLOSE, COMMENT_OPEN, DEC_REF_OPEN,
    DOCTYPE_OPEN, DOUBLE_HYPHEN, EMPTY_TAG_CLOSE, ENCODING, END_TAG_OPEN, EQUALS, GT,
    HEX_REF_OPEN, HYPHEN_COMMENT_CLOSE, LBRACKET, LT, NO, PERCENT, PI_CLOSE, PI_OPEN, PUBLIC,
    RBRACKET, REF_CLOSE, SEMICOLON, STANDALONE, SYSTEM, TAG_CLOSE, VERSION, VERSION_PREFIX,
    XML_DECL_OPEN, YES,
};
use crate::textrange::{opt_span, span, TextRange};
use crate::token::{tokens_view, TokenV, XmlToken};
use crate::util;
use crate::xmlchar::{XmlByte, XmlChar};

verus! {

/// `r` is what the scan `s` yields, and the cursor `ci` stands where `s` ends.
pub open spec fn yields<T: View>(r: Result<T, XmlError>, s: Scan<T::V>, ci: CharIter) -> bool {
    match s {
        Ok((v, q)) => r matches Ok(x) && x@ == v && ci.pos == q,
        Err(e) => r matches Err(x) && x@ == e,
    }
}

/// `r` is the range from `p` to where the scan `s` ends, and the cursor `ci` stands there.
pub open spec fn yields_range(
    r: Result<TextRange, XmlError>,
    s: Result<int, ErrV>,
    b: Seq<u8>,
    p: int,
    ci: CharIter,
) -> bool {
    match s {
        Ok(q) => r matches Ok(x) && x@ == span(b, p, q) && ci.pos == q,
        Err(e) => r matches Err(x) && x@ == e,
    }
}

/// `r` holds the tokens that the scan `s` yields, and the cursor `ci` stands where `s` ends.
pub open spec fn yields_tokens(
    r: Result<Vec<XmlToken>, XmlError>,
    s: Scan<Seq<TokenV>>,
    ci: CharIter,
) -> bool {
    match s {
        Ok((v, q)) => r matches Ok(x) && tokens_view(x@) == v && ci.pos == q,
        Err(e) => r matches Err(x) && x@ == e,
    }
}

pub struct XmlTokenizer {}

impl Default for XmlTokenizer {
    fn default() -> Self {
        XmlTokenizer {  }
    }
}

impl<'a> XmlTokenizer {
    /// [\[5\] Name](https://www.w3.org/TR/xml/#NT-Name)
    pub fn consume_name(ci: &mut CharIter<'a>) -> (r: Result<TextRange<'a>, XmlError>)
        requires
            old(ci).ready(),
        ensures
            final(ci).ready(),
            final(ci).text == old(ci).text,
            yields(r, name_at(old(ci).bytes(), old(ci).pos as int), *final(ci)),
            r is Ok ==> final(ci).pos > old(ci).pos,
    {
        reveal(name_at);
        let ghost b = ci.bytes();
        let start_pos = ci.pos();
        let (c, w) = ci.peek_scalar()?;
        if !c.is_xml_name_start_char() {
            return Err(ci.illegal_here(Some("Any Name start char".to_string())));
        }
        ci.advance_n(w)?;
        loop
            invariant
                ci.ready(),
                ci.text == old(ci).text,
                b == ci.bytes(),
                start_pos == old(ci).pos,
                ci.pos > start_pos,
                ci.boundary(start_pos as int),
                name_at(b, start_pos as int) == (match name_rest(b, ci.pos as int) {
                    Err(e) => Err(e),
                    Ok(q) => Ok((span(b, start_pos as int, q), q)),
                }),
            decreases b.len() - ci.pos,
        {
            reveal(name_at);
            let (c, w) = ci.peek_scalar()?;
            if c.is_xml_name_char() {
                ci.advance_n(w)?;
            } else {
                return Ok(ci.slice(start_pos..ci.pos()));
            }
        }
    }

    /// Consume any XML char until a specified byte slice is found
    fn consume_xml_chars_until(ci: &mut CharIter<'a>, delimiter: &[u8]) -> (r: Result<
        TextRange<'a>,
        XmlError,
    >)
        requires
            old(ci).ready(),
        ensures
            final(ci).ready(),
            final(ci).text == old(ci).text,
            yields_range(
                r,
                chars_until(old(ci).bytes(), old(ci).pos as int, delimiter@),
                old(ci).bytes(),
                old(ci).pos as int,
                *final(ci),
            ),
            r is Ok ==> final(ci).pos >= old(ci).pos,
            r is Ok ==> test_at(final(ci).bytes(), final(ci).pos as int, delimiter@),
    {
        let ghost b = ci.bytes();
        let start_pos = ci.pos();
        while !ci.test(delimiter)
            invariant
                ci.ready(),
                ci.text == old(ci).text,
                b == ci.bytes(),
                start_pos == old(ci).pos,
                ci.pos >= start_pos,
                ci.boundary(start_pos as int),
                chars_until(b, start_pos as int, delimiter@) == chars_until(
                    b,
                    ci.pos as int,
                    delimiter@,
                ),
            decreases b.len() - ci.pos,
        {
            ci.next_xml_char()?;  // checks for valid XML char
        }
        Ok(ci.slice(start_pos..ci.pos()))
    }

    /// Consume a character reference.
    /// Apart from valid unicode character references, the short-hand definitions
    /// "&amp;" = &
    /// "&lt;" = <
    /// "&gt;"= >
    /// "&apos;" = '
    /// and "&quot;" = "
    /// are supported.
    ///
    /// [\[66\] CharRef](https://www.w3.org/TR/xml/#NT-CharRef)
    fn consume_character_reference(ci: &mut CharIter<'a>) -> (r: Result<TextRange<'a>, XmlError>)
        requires
            old(ci).ready(),
        ensures
            final(ci).ready(),
            final(ci).text == old(ci).text,
            yields_range(
                r,
                reference_at(old(ci).bytes(), old(ci).pos as int),
                old(ci).bytes(),
                old(ci).pos as int,
                *final(ci),
            ),
            r is Ok ==> final(ci).pos > old(ci).pos,
    {
        reveal(reference_at);
        reveal(reference_end);
        let ghost b = ci.bytes();
        let start_pos = ci.pos();
        ci.expect_byte(AMP)?;
        let ok: bool;
        if ci.test(&HEX_REF_OPEN) {
            ci.skip_over(&HEX_REF_OPEN)?;
            // unicode char reference
            let char_hex_range = Self::consume_xml_chars_until(ci, &REF_CLOSE)?;
            ok = util::decode_hex(char_hex_range.slice).is_some();
        } else if ci.test(&DEC_REF_OPEN) {
            ci.skip_over(&DEC_REF_OPEN)?;
            // unicode char reference
            let code_point_range = Self::consume_xml_chars_until(ci, &REF_CLOSE)?;
            ok = util::decode_decimal(code_point_range.slice).is_some();
        } else {
            // short hand syntax
            let short_range = Self::consume_xml_chars_until(ci, &REF_CLOSE)?;
            ok = util::is_predefined_entity(short_range.slice);
        }
        if !ok {
            proof {
                crate::chariter::lemma_char_step(b, ci.pos as int);
            }
            return Err(
                XmlError::UnknownReference { range: ci.error_slice(start_pos..ci.pos() + 1) },
            );
        }
        ci.skip_over(&REF_CLOSE)?;
        Ok(ci.slice(start_pos..ci.pos()))
    }

    /// Consumes CharData until a specified char is found.
    /// By the standard, CharData cannot contain the literal & or < in addition to
    /// the CDATA section-close delimiter "]]>".
    /// However, the literal & can still be used to escape characters or define character references.
    ///
    /// CharData ::= \[^<&\]* - (\[^<&\]* ']]>' \[^<&\]*)
    /// [\[14\] CharData](https://www.w3.org/TR/xml/#NT-CharData)
    /// With `to_end`, the end of the text ends the character data too.
    fn consume_character_data_until(ci: &mut CharIter<'a>, delimiter: char, to_end: bool) -> (r: Result<
        TextRange<'a>,
        XmlError,
    >)
        requires
            old(ci).ready(),
        ensures
            final(ci).ready(),
            final(ci).text == old(ci).text,
            yields_range(
                r,
                char_data(old(ci).bytes(), old(ci).pos as int, delimiter as u32, to_end),
                old(ci).bytes(),
                old(ci).pos as int,
                *final(ci),
            ),
            r is Ok ==> final(ci).pos >= old(ci).pos,
            r is Ok && final(ci).pos < final(ci).bytes().len() ==> peek_char(
                final(ci).bytes(),
                final(ci).pos as int,
            ) == Ok::<u32, ErrV>(delimiter as u32),
    {
        let ghost b = ci.bytes();
        let start_pos = ci.pos();
        loop
            invariant
                ci.ready(),
                ci.text == old(ci).text,
                b == ci.bytes(),
                start_pos == old(ci).pos,
                ci.pos >= start_pos,
                ci.boundary(start_pos as int),
                char_data(b, start_pos as int, delimiter as u32, to_end) == char_data(
                    b,
                    ci.pos as int,
                    delimiter as u32,
                    to_end,
                ),
            decreases b.len() - ci.pos,
        {
            if to_end && !ci.has_next() {
                return Ok(ci.slice(start_pos..ci.pos()));
            }
            let (c, w) = ci.peek_scalar()?;
            let code = c as u32;
            if code == delimiter as u32 {
                return Ok(ci.slice(start_pos..ci.pos()));
            } else if code == 0x5D && ci.test(&CDATA_CLOSE) {
                proof {
                    crate::chariter::lemma_char_step(b, ci.pos as int);
                    crate::chariter::lemma_char_step(b, ci.pos + 1);
                    crate::chariter::lemma_char_step(b, ci.pos + 2);
                }
                return Err(
                    XmlError::IllegalToken {
                        range: ci.error_slice(ci.pos()..ci.pos() + 3),
                        expected: Some("Not the CDATA section-close delimiter".to_string()),
                    },
                );
            } else if code == 0x26 {
                Self::consume_character_reference(ci)?;
            } else if code == 0x3C {
                return Err(ci.illegal_here(Some("Not the less-than character".to_string())));
            } else {
                ci.advance_n(w)?;
            }
        }
    }

    /// [\[25\] Eq](https://www.w3.org/TR/xml/#NT-Eq)
    fn expect_eq(ci: &mut CharIter<'a>) -> (r: Result<(), XmlError>)
        requires
            old(ci).ready(),
        ensures
            final(ci).ready(),
            final(ci).text == old(ci).text,
            match eq_at(old(ci).bytes(), old(ci).pos as int) {
                Ok(q) => r is Ok && final(ci).pos == q,
                Err(e) => r matches Err(x) && x@ == e,
            },
            r is Ok ==> final(ci).pos > old(ci).pos,
    {
        reveal(eq_at);
        let _ = ci.skip_spaces();
        ci.expect_byte(EQUALS)?;
        let _ = ci.skip_spaces();
        Ok(())
    }

    /// ' or "
    fn consume_quote(ci: &mut CharIter<'a>) -> (r: Result<u8, XmlError>)
        requires
            old(ci).ready(),
        ensures
            final(ci).ready(),
            final(ci).text == old(ci).text,
            yields(r, quote_at(old(ci).bytes(), old(ci).pos as int), *final(ci)),
            r matches Ok(q) ==> q < 0x80,
            r is Ok ==> final(ci).pos == old(ci).pos + 1,
    {
        reveal(quote_at);
        let quote = ci.peek_byte()?;
        if !quote.is_xml_quote() {
            return Err(ci.illegal_here(Some("Either \" or '".to_string())));
        }
        ci.next_byte()?;
        Ok(quote)
    }

    /// [\[42\] ETag](https://www.w3.org/TR/xml/#NT-ETag)
    fn tokenize_end_tag(ci: &mut CharIter<'a>) -> (r: Result<XmlToken<'a>, XmlError>)
        requires
            old(ci).ready(),
            test_at(old(ci).bytes(), old(ci).pos as int, END_TAG_OPEN@),
        ensures
            final(ci).ready(),
            final(ci).text == old(ci).text,
            yields(r, end_tag_at(old(ci).bytes(), old(ci).pos as int), *final(ci)),
            r is Ok ==> final(ci).pos > old(ci).pos,
    {
        reveal(end_tag_at);
        ci.skip_over(&END_TAG_OPEN)?;
        let name_range = Self::consume_name(ci)?;
        let _ = ci.skip_spaces();
        ci.expect_byte(GT)?;
        Ok(XmlToken::EndTag(name_range))
    }

    /// [\[41\] Attribute](https://www.w3.org/TR/xml/#NT-Attribute)
    fn tokenize_attribute(ci: &mut CharIter<'a>) -> (r: Result<XmlToken<'a>, XmlError>)
        requires
            old(ci).ready(),
        ensures
            final(ci).ready(),
            final(ci).text == old(ci).text,
            yields(r, attribute_at(old(ci).bytes(), old(ci).pos as int), *final(ci)),
            r is Ok ==> final(ci).pos > old(ci).pos,
    {
        reveal(attribute_at);
        // spaces have already been skipped
        let name_range = Self::consume_name(ci)?;
        Self::expect_eq(ci)?;
        let used_quote = Self::consume_quote(ci)?;
        // [\[10\] AttValue](https://www.w3.org/TR/xml/#NT-AttValue)
        let value_range = Self::consume_character_data_until(ci, used_quote as char, false)?;
        ci.expect_byte(used_quote)?;
        Ok(XmlToken::Attribute { name_range, value_range })
    }

    /// [\[40\] STag](https://www.w3.org/TR/xml/#NT-STag)
    fn tokenize_start_tag(ci: &mut CharIter<'a>) -> (r: Result<Vec<XmlToken<'a>>, XmlError>)
        requires
            old(ci).ready(),
        ensures
            final(ci).ready(),
            final(ci).text == old(ci).text,
            yields_tokens(r, start_tag_at(old(ci).bytes(), old(ci).pos as int), *final(ci)),
            r is Ok ==> final(ci).pos > old(ci).pos,
    {
        reveal(start_tag_at);
        let ghost b = ci.bytes();
        // the `<` that opens the tag
        ci.expect_byte(LT)?;
        let name_range = Self::consume_name(ci)?;
        let mut tokens = vec![XmlToken::StartTag(name_range)];
        let ghost q0 = ci.pos as int;
        assert(tokens_view(tokens@) =~= seq![TokenV::StartTag(name_range@)]);
        while !ci.test_after_spaces(&EMPTY_TAG_CLOSE) && !ci.test_after_spaces(&TAG_CLOSE)
            invariant
                ci.ready(),
                ci.text == old(ci).text,
                b == ci.bytes(),
                ci.pos > old(ci).pos,
                start_tag_at(b, old(ci).pos as int) == tag_end_at(
                    b,
                    name_range@,
                    attributes_at(b, ci.pos as int, tokens_view(tokens@)),
                ),
            decreases b.len() - ci.pos,
        {
            ci.expect_spaces()?;
            let t = Self::tokenize_attribute(ci)?;
            let ghost before = tokens@;
            tokens.push(t);
            assert(tokens_view(tokens@) =~= tokens_view(before).push(t@));
        }
        let _ = ci.skip_spaces();
        // Empty Element Tag
        let is_empty_element_tag = ci.test(&EMPTY_TAG_CLOSE);
        if is_empty_element_tag {
            ci.skip_over(&EMPTY_TAG_CLOSE)?;
            // Create artificial end tag
            let ghost before = tokens@;
            tokens.push(XmlToken::EndTag(name_range));
            assert(tokens_view(tokens@) =~= tokens_view(before).push(TokenV::EndTag(name_range@)));
        } else {
            ci.expect_byte(GT)?;
        }
        Ok(tokens)
    }

    /// [\[18\] CDSect](https://www.w3.org/TR/xml/#NT-CDSect)
    fn tokenize_cdata_section(ci: &mut CharIter<'a>) -> (r: Result<XmlToken<'a>, XmlError>)
        requires
            old(ci).ready(),
            test_at(old(ci).bytes(), old(ci).pos as int, CDATA_OPEN@),
        ensures
            final(ci).ready(),
            final(ci).text == old(ci).text,
            yields(r, cdata_at(old(ci).bytes(), old(ci).pos as int), *final(ci)),
            r is Ok ==> final(ci).pos > old(ci).pos,
    {
        reveal(cdata_at);
        ci.skip_over(&CDATA_OPEN)?;
        let value_range = Self::consume_xml_chars_until(ci, &CDATA_CLOSE)?;
        ci.skip_over(&CDATA_CLOSE)?;
        Ok(XmlToken::CdataSection(value_range))
    }

    /// [\[15\] Comment](https://www.w3.org/TR/xml/#NT-Comment)
    fn tokenize_comment(ci: &mut CharIter<'a>) -> (r: Result<XmlToken<'a>, XmlError>)
        requires
            old(ci).ready(),
            test_at(old(ci).bytes(), old(ci).pos as int, COMMENT_OPEN@),
        ensures
            final(ci).ready(),
            final(ci).text == old(ci).text,
            yields(r, comment_at(old(ci).bytes(), old(ci).pos as int), *final(ci)),
            r is Ok ==> final(ci).pos > old(ci).pos,
    {
        reveal(comment_at);
        let ghost b = ci.bytes();
        ci.skip_over(&COMMENT_OPEN)?;
        let start_pos = ci.pos();
        loop
            invariant
                ci.ready(),
                ci.text == old(ci).text,
                b == ci.bytes(),
                start_pos == old(ci).pos + 4,
                ci.pos >= start_pos,
                ci.boundary(start_pos as int),
                comment_body(b, start_pos as int) == comment_body(b, ci.pos as int),
            decreases b.len() - ci.pos,
        {
            reveal(comment_at);
            if ci.test(&DOUBLE_HYPHEN) {
                proof {
                    crate::chariter::lemma_char_step(b, ci.pos as int);
                    crate::chariter::lemma_char_step(b, ci.pos + 1);
                }
                if ci.test(&COMMENT_CLOSE) {
                    let value_range = ci.slice(start_pos..ci.pos());
                    ci.skip_over(&COMMENT_CLOSE)?;
                    return Ok(XmlToken::Comment(value_range));
                } else if ci.test(&HYPHEN_COMMENT_CLOSE) {
                    // Last character cannot be a hyphen
                    return Err(
                        XmlError::IllegalToken {
                            range: ci.error_slice(ci.pos()..ci.pos() + 2),
                            expected: Some("Not a hyphen as the last value character".to_string()),
                        },
                    );
                } else {
                    // Double hyphen is not allowed inside comments
                    return Err(
                        XmlError::IllegalToken {
                            range: ci.error_slice(ci.pos()..ci.pos() + 2),
                            expected: Some("Not a double hyphen inside comments".to_string()),
                        },
                    );
                }
            }
            ci.next_xml_char()?;
        }
    }

    /// [\[16\] PI](https://www.w3.org/TR/xml/#NT-PI)
    fn tokenize_processing_instruction(ci: &mut CharIter<'a>) -> (r: Result<XmlToken<'a>, XmlError>)
        requires
            old(ci).ready(),
            test_at(old(ci).bytes(), old(ci).pos as int, PI_OPEN@),
        ensures
            final(ci).ready(),
            final(ci).text == old(ci).text,
            yields(r, pi_at(old(ci).bytes(), old(ci).pos as int), *final(ci)),
            r is Ok ==> final(ci).pos > old(ci).pos,
    {
        reveal(pi_at);
        ci.skip_over(&PI_OPEN)?;
        let target_range = Self::consume_name(ci)?;
        let mut opt_value_range = None;
        if !ci.test(&PI_CLOSE) {
            ci.expect_spaces()?;
            if !ci.test(&PI_CLOSE) {
                opt_value_range = Some(Self::consume_xml_chars_until(ci, &PI_CLOSE)?);
            }
        }
        ci.skip_over(&PI_CLOSE)?;
        Ok(XmlToken::ProcessingInstruction { target_range, opt_value_range })
    }

    /// The markup at a `<` in content.
    fn tokenize_markup(ci: &mut CharIter<'a>) -> (r: Result<Vec<XmlToken<'a>>, XmlError>)
        requires
            old(ci).ready(),
        ensures
            final(ci).ready(),
            final(ci).text == old(ci).text,
            yields_tokens(r, markup_at(old(ci).bytes(), old(ci).pos as int), *final(ci)),
            r is Ok ==> final(ci).pos > old(ci).pos,
    {
        reveal(markup_at);
        let token = if ci.test(&END_TAG_OPEN) {
            Self::tokenize_end_tag(ci)?
        } else if ci.test(&COMMENT_OPEN) {
            Self::tokenize_comment(ci)?
        } else if ci.test(&CDATA_OPEN) {
            Self::tokenize_cdata_section(ci)?
        } else if ci.test(&PI_OPEN) {
            Self::tokenize_processing_instruction(ci)?
        } else {
            return Self::tokenize_start_tag(ci);
        };
        let tokens = vec![token];
        assert(tokens_view(tokens@) =~= seq![token@]);
        Ok(tokens)
    }

    /// [\[43\] content](https://www.w3.org/TR/xml/#NT-content)
    fn tokenize_content(ci: &mut CharIter<'a>) -> (r: Result<Vec<XmlToken<'a>>, XmlError>)
        requires
            old(ci).ready(),
        ensures
            final(ci).ready(),
            final(ci).text == old(ci).text,
            match content_at(old(ci).bytes(), old(ci).pos as int, seq![]) {
                Ok(v) => r matches Ok(x) && tokens_view(x@) == v,
                Err(e) => r matches Err(x) && x@ == e,
            },
    {
        let ghost b = ci.bytes();
        let mut tokens: Vec<XmlToken<'a>> = Vec::new();
        assert(tokens_view(tokens@) =~= Seq::<TokenV>::empty());
        while ci.has_next()
            invariant
                ci.ready(),
                ci.text == old(ci).text,
                b == ci.bytes(),
                content_at(b, old(ci).pos as int, seq![]) == content_at(
                    b,
                    ci.pos as int,
                    tokens_view(tokens@),
                ),
            decreases b.len() - ci.pos,
        {
            let ghost p = ci.pos as int;
            let text_range = Self::consume_character_data_until(ci, '<', true)?;
            let ghost acc0 = tokens@;
            if !text_range.is_empty() {
                tokens.push(XmlToken::Text(text_range));
                assert(tokens_view(tokens@) =~= tokens_view(acc0).push(TokenV::Text(text_range@)));
            }
            if !ci.has_next() {
                return Ok(tokens);
            }
            let ghost acc1 = tokens@;
            let mut markup = Self::tokenize_markup(ci)?;
            let ghost m = markup@;
            tokens.append(&mut markup);
            assert(tokens_view(tokens@) =~= tokens_view(acc1) + tokens_view(m));
        }
        Ok(tokens)
    }

    /// [\[26\] VersionNum](https://www.w3.org/TR/xml/#NT-VersionNum)
    fn consume_version_num(ci: &mut CharIter<'a>) -> (r: Result<TextRange<'a>, XmlError>)
        requires
            old(ci).ready(),
        ensures
            final(ci).ready(),
            final(ci).text == old(ci).text,
            yields(r, version_num_at(old(ci).bytes(), old(ci).pos as int), *final(ci)),
            r is Ok ==> final(ci).pos >= old(ci).pos,
    {
        reveal(version_num_at);
        let ghost b = ci.bytes();
        let start_pos = ci.pos();
        ci.expect_bytes(&VERSION_PREFIX)?;
        let ghost q = ci.pos as int;
        loop
            invariant
                ci.ready(),
                ci.text == old(ci).text,
                b == ci.bytes(),
                start_pos == old(ci).pos,
                ci.pos >= start_pos,
                ci.boundary(start_pos as int),
                bytes_at(b, start_pos as int, VERSION_PREFIX@) == Ok::<int, ErrV>(q),
                digits_at(b, q) == digits_at(b, ci.pos as int),
            decreases b.len() - ci.pos,
        {
            reveal(version_num_at);
            let c = ci.peek_xml_char()?;
            let code = c as u32;
            if 0x30 <= code && code <= 0x39 {
                ci.next_xml_char()?;
            } else {
                return Ok(ci.slice(start_pos..ci.pos()));
            }
        }
    }

    /// [\[24\] VersionInfo](https://www.w3.org/TR/xml/#NT-VersionInfo)
    fn consume_version_info(ci: &mut CharIter<'a>) -> (r: Result<TextRange<'a>, XmlError>)
        requires
            old(ci).ready(),
        ensures
            final(ci).ready(),
            final(ci).text == old(ci).text,
            yields(r, version_info_at(old(ci).bytes(), old(ci).pos as int), *final(ci)),
            r is Ok ==> final(ci).pos >= old(ci).pos,
    {
        reveal(version_info_at);
        reveal(quoted_after);
        ci.expect_spaces()?;
        ci.expect_bytes(&VERSION)?;
        Self::expect_eq(ci)?;
        let used_quote = Self::consume_quote(ci)?;
        let range = Self::consume_version_num(ci)?;
        ci.expect_byte(used_quote)?;
        Ok(range)
    }

    /// [\[81\] EncName](https://www.w3.org/TR/xml/#NT-EncName)
    fn consume_encoding_name(ci: &mut CharIter<'a>) -> (r: Result<TextRange<'a>, XmlError>)
        requires
            old(ci).ready(),
        ensures
            final(ci).ready(),
            final(ci).text == old(ci).text,
            yields(r, enc_name_at(old(ci).bytes(), old(ci).pos as int), *final(ci)),
            r is Ok ==> final(ci).pos >= old(ci).pos,
    {
        reveal(enc_name_at);
        let ghost b = ci.bytes();
        let start_pos = ci.pos();
        /* Encoding name contains only Latin characters */
        let byte = ci.peek_byte()?;
        if !((0x41 <= byte && byte <= 0x5A) || (0x61 <= byte && byte <= 0x7A)) {
            return Err(ci.illegal_here(Some("Any latin letter".to_string())));
        }
        ci.next_byte()?;
        loop
            invariant
                ci.ready(),
                ci.text == old(ci).text,
                b == ci.bytes(),
                start_pos == old(ci).pos,
                ci.pos > start_pos,
                ci.boundary(start_pos as int),
                start_pos < b.len() && crate::xmlchar::ascii_alpha(b[start_pos as int]),
                enc_rest(b, start_pos + 1) == enc_rest(b, ci.pos as int),
            decreases b.len() - ci.pos,
        {
            reveal(enc_name_at);
            let x = ci.peek_byte()?;
            if (0x30 <= x && x <= 0x39) || (0x41 <= x && x <= 0x5A) || (0x61 <= x && x <= 0x7A)
                || x == 0x2E || x == 0x5F || x == 0x2D {
                ci.next_byte()?;
            } else {
                return Ok(ci.slice(start_pos..ci.pos()));
            }
        }
    }

    /// [\[80\] EncodingDecl](https://www.w3.org/TR/xml/#NT-EncodingDecl)
    fn consume_encoding_declaration(ci: &mut CharIter<'a>) -> (r: Result<TextRange<'a>, XmlError>)
        requires
            old(ci).ready(),
        ensures
            final(ci).ready(),
            final(ci).text == old(ci).text,
            yields(r, encoding_decl_at(old(ci).bytes(), old(ci).pos as int), *final(ci)),
            r is Ok ==> final(ci).pos >= old(ci).pos,
    {
        reveal(encoding_decl_at);
        reveal(quoted_after);
        ci.expect_spaces()?;
        ci.expect_bytes(&ENCODING)?;
        Self::expect_eq(ci)?;
        let used_quote = Self::consume_quote(ci)?;
        let range = Self::consume_encoding_name(ci)?;
        ci.expect_byte(used_quote)?;
        Ok(range)
    }

    /// [\[32\] SDDecl](https://www.w3.org/TR/xml/#NT-SDDecl)
    fn consume_standalone_document_declaration(ci: &mut CharIter<'a>) -> (r: Result<
        TextRange<'a>,
        XmlError,
    >)
        requires
            old(ci).ready(),
        ensures
            final(ci).ready(),
            final(ci).text == old(ci).text,
            yields(r, standalone_decl_at(old(ci).bytes(), old(ci).pos as int), *final(ci)),
            r is Ok ==> final(ci).pos >= old(ci).pos,
    {
        reveal(standalone_decl_at);
        reveal(quoted_after);
        reveal(yes_no_at);
        ci.expect_spaces()?;
        ci.expect_bytes(&STANDALONE)?;
        Self::expect_eq(ci)?;
        let used_quote = Self::consume_quote(ci)?;
        let start_pos = ci.pos();
        if ci.test(&YES) {
            ci.skip_over(&YES)?;
        } else if ci.test(&NO) {
            ci.skip_over(&NO)?;
        } else {
            return Err(ci.illegal_here(Some("yes or no".to_string())));
        }
        let end_pos = ci.pos();
        ci.expect_byte(used_quote)?;
        Ok(ci.slice(start_pos..end_pos))
    }

    /// [\[23\] XMLDecl](https://www.w3.org/TR/xml/#NT-XMLDecl)
    fn tokenize_xml_declaration(ci: &mut CharIter<'a>) -> (r: Result<XmlToken<'a>, XmlError>)
        requires
            old(ci).ready(),
            test_at(old(ci).bytes(), old(ci).pos as int, XML_DECL_OPEN@),
        ensures
            final(ci).ready(),
            final(ci).text == old(ci).text,
            yields(r, xml_decl_at(old(ci).bytes(), old(ci).pos as int), *final(ci)),
            r is Ok ==> final(ci).pos > old(ci).pos,
    {
        reveal(xml_decl_at);
        reveal(optional_decl);
        ci.skip_over(&XML_DECL_OPEN)?;
        let version_range = Self::consume_version_info(ci)?;
        let mut opt_encoding_range = None;
        let mut opt_standalone_range = None;
        if ci.test_after_spaces(&ENCODING) {
            opt_encoding_range = Some(Self::consume_encoding_declaration(ci)?);
        }
        if ci.test_after_spaces(&STANDALONE) {
            opt_standalone_range = Some(Self::consume_standalone_document_declaration(ci)?);
        }
        let _ = ci.skip_spaces();
        ci.expect_bytes(&PI_CLOSE)?;
        Ok(XmlToken::XmlDeclaration { version_range, opt_encoding_range, opt_standalone_range })
    }

    /// [\[11\] SystemLiteral](https://www.w3.org/TR/xml/#NT-SystemLiteral)
    fn consume_system_literal(ci: &mut CharIter<'a>) -> (r: Result<TextRange<'a>, XmlError>)
        requires
            old(ci).ready(),
        ensures
            final(ci).ready(),
            final(ci).text == old(ci).text,
            yields(r, system_literal_at(old(ci).bytes(), old(ci).pos as int), *final(ci)),
            r is Ok ==> final(ci).pos >= old(ci).pos,
    {
        reveal(system_literal_at);
        let used_quote = Self::consume_quote(ci)?;
        let delimiter = [used_quote];
        assert(delimiter@ =~= seq![used_quote]);
        let literal_range = Self::consume_xml_chars_until(ci, &delimiter)?;
        ci.expect_byte(used_quote)?;
        Ok(literal_range)
    }

    /// [\[12\] PubidLiteral](https://www.w3.org/TR/xml/#NT-PubidLiteral)
    fn consume_pubid_literal(ci: &mut CharIter<'a>) -> (r: Result<TextRange<'a>, XmlError>)
        requires
            old(ci).ready(),
        ensures
            final(ci).ready(),
            final(ci).text == old(ci).text,
            yields(r, pubid_literal_at(old(ci).bytes(), old(ci).pos as int), *final(ci)),
            r is Ok ==> final(ci).pos >= old(ci).pos,
    {
        reveal(pubid_literal_at);
        let ghost b = ci.bytes();
        let used_quote = Self::consume_quote(ci)?;
        let start_pos = ci.pos();
        loop
            invariant
                ci.ready(),
                ci.text == old(ci).text,
                b == ci.bytes(),
                start_pos == old(ci).pos + 1,
                ci.pos >= start_pos,
                ci.boundary(start_pos as int),
                used_quote < 0x80,
                quote_at(b, old(ci).pos as int) == Ok::<(u8, int), ErrV>((used_quote, start_pos as int)),
                pubid_rest(b, start_pos as int, used_quote) == pubid_rest(b, ci.pos as int, used_quote),
            decreases b.len() - ci.pos,
        {
            reveal(pubid_literal_at);
            let x = ci.peek_byte()?;
            if x.is_xml_pubid_char() && x != used_quote {
                ci.next_byte()?;
            } else {
                let literal_range = ci.slice(start_pos..ci.pos());
                ci.expect_byte(used_quote)?;
                return Ok(literal_range);
            }
        }
    }

    /// [\[75\] ExternalID](https://www.w3.org/TR/xml/#NT-ExternalID)
    fn consume_external_id(ci: &mut CharIter<'a>) -> (r: Result<
        (Option<TextRange<'a>>, Option<TextRange<'a>>),
        XmlError,
    >)
        requires
            old(ci).ready(),
        ensures
            final(ci).ready(),
            final(ci).text == old(ci).text,
            match external_id_at(old(ci).bytes(), old(ci).pos as int) {
                Ok((v, q)) => r matches Ok(x) && opt_span(x.0) == v.0 && opt_span(x.1) == v.1
                    && final(ci).pos == q,
                Err(e) => r matches Err(x) && x@ == e,
            },
            r is Ok ==> final(ci).pos >= old(ci).pos,
            !test_at(old(ci).bytes(), old(ci).pos as int, SYSTEM@) && !test_at(
                old(ci).bytes(),
                old(ci).pos as int,
                PUBLIC@,
            ) ==> final(ci).pos == old(ci).pos,
    {
        reveal(external_id_at);
        if ci.test(&SYSTEM) {
            ci.skip_over(&SYSTEM)?;
            ci.expect_spaces()?;
            let system_literal_range = Self::consume_system_literal(ci)?;
            Ok((Some(system_literal_range), None))
        } else if ci.test(&PUBLIC) {
            ci.skip_over(&PUBLIC)?;
            ci.expect_spaces()?;
            let pubid_literal_range = Self::consume_pubid_literal(ci)?;
            ci.expect_spaces()?;
            let system_literal_range = Self::consume_system_literal(ci)?;
            Ok((Some(system_literal_range), Some(pubid_literal_range)))
        } else {
            Err(ci.illegal_here(Some("'SYSTEM' or 'PUBLIC'".to_string())))
        }
    }

    /// [\[69\] PEReference](https://www.w3.org/TR/xml/#NT-PEReference)
    fn consume_parameter_entity_reference(ci: &mut CharIter<'a>) -> (r: Result<TextRange<'a>, XmlError>)
        requires
            old(ci).ready(),
        ensures
            final(ci).ready(),
            final(ci).text == old(ci).text,
            yields(r, pe_reference_at(old(ci).bytes(), old(ci).pos as int), *final(ci)),
            r is Ok ==> final(ci).pos > old(ci).pos,
    {
        reveal(pe_reference_at);
        ci.expect_byte(PERCENT)?;
        let name_range = Self::consume_name(ci)?;
        ci.expect_byte(SEMICOLON)?;
        Ok(name_range)
    }

    /// [\[28b\] intSubset](https://www.w3.org/TR/xml/#NT-intSubset): parameter-entity
    /// references between whitespace; other markup declarations are not supported and are
    /// refused.
    fn tokenize_internal_subset(ci: &mut CharIter<'a>, tokens: &mut Vec<XmlToken<'a>>) -> (r: Result<
        (),
        XmlError,
    >)
        requires
            old(ci).ready(),
        ensures
            final(ci).ready(),
            final(ci).text == old(ci).text,
            match internal_subset_at(old(ci).bytes(), old(ci).pos as int, tokens_view(old(tokens)@)) {
                Ok((v, q)) => r is Ok && tokens_view(final(tokens)@) == v && final(ci).pos == q,
                Err(e) => r matches Err(x) && x@ == e,
            },
            r is Ok ==> final(ci).pos >= old(ci).pos,
    {
        let ghost b = ci.bytes();
        loop
            invariant
                ci.ready(),
                ci.text == old(ci).text,
                b == ci.bytes(),
                ci.pos >= old(ci).pos,
                internal_subset_at(b, old(ci).pos as int, tokens_view(old(tokens)@))
                    == internal_subset_at(b, ci.pos as int, tokens_view(tokens@)),
            decreases b.len() - ci.pos,
        {
            if ci.test_byte(RBRACKET) {
                return Ok(());
            }
            // [\[28a\] DeclSep](https://www.w3.org/TR/xml/#NT-DeclSep)
            let ghost p = ci.pos as int;
            let _ = ci.skip_spaces();
            if ci.test_byte(PERCENT) {
                let name_range = Self::consume_parameter_entity_reference(ci)?;
                let ghost before = tokens@;
                tokens.push(XmlToken::ParameterEntityReference(name_range));
                assert(tokens_view(tokens@) =~= tokens_view(before).push(
                    TokenV::ParameterEntityReference(name_range@),
                ));
            } else if ci.test_byte(RBRACKET) {
                return Ok(());
            } else {
                return Err(ci.illegal_here(Some("A parameter-entity reference".to_string())));
            }
        }
    }

    /// [\[28\] doctypedecl](https://www.w3.org/TR/xml/#NT-doctypedecl)
    fn tokenize_doctype_declaration(ci: &mut CharIter<'a>) -> (r: Result<Vec<XmlToken<'a>>, XmlError>)
        requires
            old(ci).ready(),
        ensures
            final(ci).ready(),
            final(ci).text == old(ci).text,
            yields_tokens(r, doctype_at(old(ci).bytes(), old(ci).pos as int), *final(ci)),
            r is Ok ==> final(ci).pos > old(ci).pos,
    {
        reveal(doctype_at);
        reveal(external_part);
        reveal(subset_part);
        ci.expect_bytes(&DOCTYPE_OPEN)?;
        ci.expect_spaces()?;
        let name_range = Self::consume_name(ci)?;
        let mut opt_system_entity_range = None;
        let mut opt_public_entity_range = None;
        // externalID ?
        if ci.test_after_spaces(&PUBLIC) || ci.test_after_spaces(&SYSTEM) {
            ci.expect_spaces()?;
            let (system, public) = Self::consume_external_id(ci)?;
            opt_system_entity_range = system;
            opt_public_entity_range = public;
        }
        let mut tokens = vec![
            XmlToken::DocTypeDeclaration {
                name_range,
                opt_system_entity_range,
                opt_public_entity_range,
            },
        ];
        assert(tokens_view(tokens@) =~= seq![tokens@[0]@]);
        let _ = ci.skip_spaces();
        if ci.test_byte(LBRACKET) {
            ci.expect_byte(LBRACKET)?;
            Self::tokenize_internal_subset(ci, &mut tokens)?;
            ci.expect_byte(RBRACKET)?;
        }
        let _ = ci.skip_spaces();
        ci.expect_byte(GT)?;
        Ok(tokens)
    }

    /// [\[27\] Misc](https://www.w3.org/TR/xml/#NT-Misc)
    fn tokenize_misc(ci: &mut CharIter<'a>) -> (r: Result<Option<XmlToken<'a>>, XmlError>)
        requires
            old(ci).ready(),
        ensures
            final(ci).ready(),
            final(ci).text == old(ci).text,
            match misc_at(old(ci).bytes(), old(ci).pos as int) {
                Ok((v, q)) => r matches Ok(x) && final(ci).pos == q && match x {
                    Some(t) => v == Some(t@),
                    None => v is None,
                },
                Err(e) => r matches Err(x) && x@ == e,
            },
            r is Ok ==> final(ci).pos > old(ci).pos,
    {
        reveal(misc_at);
        if ci.peek_byte()?.is_xml_whitespace() {
            ci.next_byte()?;
            Ok(None)
        } else if ci.test(&COMMENT_OPEN) {
            Ok(Some(Self::tokenize_comment(ci)?))
        } else if ci.test(&PI_OPEN) {
            Ok(Some(Self::tokenize_processing_instruction(ci)?))
        } else {
            Err(
                ci.illegal_here(
                    Some("Space or Start of Comment or Processing Instruction".to_string()),
                ),
            )
        }
    }

    /// A run of Misc, whose tokens are added to `tokens`.
    fn tokenize_misc_run(ci: &mut CharIter<'a>, tokens: &mut Vec<XmlToken<'a>>) -> (r: Result<
        (),
        XmlError,
    >)
        requires
            old(ci).ready(),
        ensures
            final(ci).ready(),
            final(ci).text == old(ci).text,
            match misc_run(old(ci).bytes(), old(ci).pos as int, tokens_view(old(tokens)@)) {
                Ok((v, q)) => r is Ok && tokens_view(final(tokens)@) == v && final(ci).pos == q,
                Err(e) => r matches Err(x) && x@ == e,
            },
    {
        let ghost b = ci.bytes();
        while ci.peek_byte()?.is_xml_whitespace() || ci.test(&COMMENT_OPEN) || ci.test(&PI_OPEN)
            invariant
                ci.ready(),
                ci.text == old(ci).text,
                b == ci.bytes(),
                misc_run(b, old(ci).pos as int, tokens_view(old(tokens)@)) == misc_run(
                    b,
                    ci.pos as int,
                    tokens_view(tokens@),
                ),
            decreases b.len() - ci.pos,
        {
            match Self::tokenize_misc(ci)? {
                Some(token) => {
                    let ghost before = tokens@;
                    tokens.push(token);
                    assert(tokens_view(tokens@) =~= tokens_view(before).push(token@));
                },
                None => (),
            }
        }
        Ok(())
    }

    /// [\[22\] prolog](https://www.w3.org/TR/xml/#NT-prolog)
    fn tokenize_prolog(ci: &mut CharIter<'a>) -> (r: Result<Vec<XmlToken<'a>>, XmlError>)
        requires
            old(ci).ready(),
        ensures
            final(ci).ready(),
            final(ci).text == old(ci).text,
            yields_tokens(r, prolog_at(old(ci).bytes(), old(ci).pos as int), *final(ci)),
    {
        reveal(prolog_at);
        let mut tokens = vec![];
        if ci.test(&XML_DECL_OPEN) {
            let t = Self::tokenize_xml_declaration(ci)?;
            tokens.push(t);
            assert(tokens_view(tokens@) =~= seq![t@]);
        } else {
            assert(tokens_view(tokens@) =~= Seq::<TokenV>::empty());
        }
        Self::tokenize_misc_run(ci, &mut tokens)?;
        if ci.test(&DOCTYPE_OPEN) {
            let ghost before = tokens@;
            let mut doctype = Self::tokenize_doctype_declaration(ci)?;
            let ghost d = doctype@;
            tokens.append(&mut doctype);
            assert(tokens_view(tokens@) =~= tokens_view(before) + tokens_view(d));
            Self::tokenize_misc_run(ci, &mut tokens)?;
        }
        Ok(tokens)
    }

    /// [\[1\] document](https://www.w3.org/TR/xml/#NT-document)
    fn tokenize_document(ci: &mut CharIter<'a>) -> (r: Result<Vec<XmlToken<'a>>, XmlError>)
        requires
            old(ci).ready(),
            old(ci).pos == 0,
        ensures
            match tokenize_spec(old(ci).bytes()) {
                Ok(v) => r matches Ok(x) && tokens_view(x@) == v,
                Err(e) => r matches Err(x) && x@ == e,
            },
    {
        let mut tokens = Self::tokenize_prolog(ci)?;
        let ghost before = tokens@;
        let mut content = Self::tokenize_content(ci)?;
        let ghost c = content@;
        tokens.append(&mut content);
        assert(tokens_view(tokens@) =~= tokens_view(before) + tokens_view(c));
        Ok(tokens)
    }

    /// The tokens of `xml`, in document order, or the first error.
    pub fn tokenize(&mut self, xml: &'a str) -> (r: Result<Vec<XmlToken<'a>>, XmlError>)
        ensures
            match tokenize_spec(xml.spec_bytes()) {
                Ok(v) => r matches Ok(x) && tokens_view(x@) == v,
                Err(e) => r matches Err(x) && x@ == e,
            },
    {
        let mut ci = CharIter::new(xml);
        Self::tokenize_document(&mut ci)
    }
}

} // verus!
