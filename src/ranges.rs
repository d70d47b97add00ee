//! Every range that the tokenizer yields lies inside the text and holds the text's bytes
//! there: slicing the text at a token's range gives back what the token holds.

use vstd::prelude::*;
use vstd::string::StringSliceAdditionalSpecFns;

use crate::chariter::{is_ascii_seq, lemma_char_step, bytes_at, peek_char, skip_ws, spaces_at, test_at, width_at};
use crate::error::ErrV;
use crate::grammar::{
    attribute_at, attributes_at, cdata_at, chars_until, char_data, comment_at, comment_body,
    content_at, digits_at, doctype_at, enc_name_at, enc_rest, encoding_decl_at, end_tag_at, eq_at,
    external_id_at, external_part, internal_subset_at, markup_at, misc_at, misc_run, misc_starts,
    name_at, name_rest, optional_decl, pe_reference_at, pi_at, prolog_at, pubid_literal_at,
    pubid_rest, quote_at, quoted_after, reference_at, reference_end, standalone_decl_at,
    start_tag_at, subset_part, system_literal_at, tokenize_spec, version_info_at, version_num_at,
    xml_decl_at, yes_no_at, Scan,
};
use crate::textrange::Span;
use crate::token::TokenV;
use crate::xmlchar::xml_whitespace;
use vstd::utf8::{is_char_boundary, is_char_boundary_start_end_of_seq, valid_utf8};

verus! {

/// `s` lies in `b` and holds the bytes of `b` there.
pub open spec fn span_in(s: Span, b: Seq<u8>) -> bool {
    &&& 0 <= s.start <= s.end <= b.len()
    &&& s.text == b.subrange(s.start, s.end)
    &&& is_char_boundary(b, s.start)
    &&& is_char_boundary(b, s.end)
}

pub open spec fn opt_span_in(s: Option<Span>, b: Seq<u8>) -> bool {
    match s {
        Some(s) => span_in(s, b),
        None => true,
    }
}

/// Every range of the token `t` lies in `b`.
pub open spec fn token_in(t: TokenV, b: Seq<u8>) -> bool {
    match t {
        TokenV::Text(s) => span_in(s, b),
        TokenV::StartTag(s) => span_in(s, b),
        TokenV::EndTag(s) => span_in(s, b),
        TokenV::CdataSection(s) => span_in(s, b),
        TokenV::Comment(s) => span_in(s, b),
        TokenV::ProcessingInstruction { target, data } => span_in(target, b) && opt_span_in(data, b),
        TokenV::Attribute { name, value } => span_in(name, b) && span_in(value, b),
        TokenV::XmlDeclaration { version, encoding, standalone } => span_in(version, b)
            && opt_span_in(encoding, b) && opt_span_in(standalone, b),
        TokenV::DocTypeDeclaration { name, system, public } => span_in(name, b) && opt_span_in(
            system,
            b,
        ) && opt_span_in(public, b),
        TokenV::ParameterEntityReference(s) => span_in(s, b),
    }
}

pub open spec fn tokens_in(ts: Seq<TokenV>, b: Seq<u8>) -> bool {
    forall|i: int| 0 <= i < ts.len() ==> token_in(#[trigger] ts[i], b)
}

/// A scan from `p` that succeeds ends inside the text, not before `p`.
pub open spec fn ends_in(r: Result<int, ErrV>, p: int, b: Seq<u8>) -> bool {
    r matches Ok(q) ==> p <= q <= b.len() && is_char_boundary(b, q)
}

/// A scan of a token from `p` that succeeds ends inside the text, after `p`, and the
/// token's ranges lie in the text.
pub open spec fn token_scan_in(r: Scan<TokenV>, p: int, b: Seq<u8>) -> bool {
    r matches Ok((t, q)) ==> p < q <= b.len() && is_char_boundary(b, q) && token_in(t, b)
}

/// A scan of tokens from `p` that succeeds ends inside the text, after `p`, and the
/// tokens' ranges lie in the text.
pub open spec fn tokens_scan_in(r: Scan<Seq<TokenV>>, p: int, b: Seq<u8>) -> bool {
    r matches Ok((ts, q)) ==> p < q <= b.len() && is_char_boundary(b, q) && tokens_in(ts, b)
}


broadcast use crate::chariter::group_boundaries;

proof fn lemma_push_in(ts: Seq<TokenV>, t: TokenV, b: Seq<u8>)
    requires
        tokens_in(ts, b),
        token_in(t, b),
    ensures
        tokens_in(ts.push(t), b),
{
    assert forall|i: int| 0 <= i < ts.push(t).len() implies token_in(#[trigger] ts.push(t)[i], b) by {
        if i < ts.len() {
            assert(ts.push(t)[i] == ts[i]);
        }
    }
}

proof fn lemma_concat_in(ts: Seq<TokenV>, us: Seq<TokenV>, b: Seq<u8>)
    requires
        tokens_in(ts, b),
        tokens_in(us, b),
    ensures
        tokens_in(ts + us, b),
{
    assert forall|i: int| 0 <= i < (ts + us).len() implies token_in(#[trigger] (ts + us)[i], b) by {
        if i < ts.len() {
            assert((ts + us)[i] == ts[i]);
        } else {
            assert((ts + us)[i] == us[i - ts.len()]);
        }
    }
}

proof fn lemma_skip_ws_in(b: Seq<u8>, p: int)
    requires
        valid_utf8(b),
        is_char_boundary(b, p),
        0 <= p <= b.len(),
    ensures
        p <= skip_ws(b, p) <= b.len(),
        is_char_boundary(b, skip_ws(b, p)),
    decreases b.len() - p,
{
    if 0 <= p < b.len() && xml_whitespace(b[p]) {
        lemma_char_step(b, p);
        lemma_skip_ws_in(b, p + 1);
    }
}

proof fn lemma_spaces_in(b: Seq<u8>, p: int)
    requires
        valid_utf8(b),
        is_char_boundary(b, p),
        0 <= p <= b.len(),
    ensures
        spaces_at(b, p) matches Ok(q) ==> p < q <= b.len() && is_char_boundary(b, q),
{
    if p < b.len() && xml_whitespace(b[p]) {
        lemma_char_step(b, p);
        lemma_skip_ws_in(b, p + 1);
    }
}

proof fn lemma_eq_in(b: Seq<u8>, p: int)
    requires
        valid_utf8(b),
        is_char_boundary(b, p),
        0 <= p <= b.len(),
    ensures
        eq_at(b, p) matches Ok(q) ==> p < q <= b.len() && is_char_boundary(b, q),
{
    reveal(eq_at);
    lemma_skip_ws_in(b, p);
    let s = skip_ws(b, p);
    if s < b.len() && b[s] == crate::grammar::EQUALS {
        lemma_char_step(b, s);
        lemma_skip_ws_in(b, s + 1);
    }
}

proof fn lemma_name_rest_in(b: Seq<u8>, p: int)
    requires
        valid_utf8(b),
        is_char_boundary(b, p),
        0 <= p <= b.len(),
    ensures
        ends_in(name_rest(b, p), p, b),
    decreases b.len() - p,
{
    if let Ok(_) = peek_char(b, p) {
        lemma_name_rest_in(b, p + width_at(b, p));
    }
}

proof fn lemma_name_in(b: Seq<u8>, p: int)
    requires
        valid_utf8(b),
        is_char_boundary(b, p),
        0 <= p <= b.len(),
    ensures
        name_at(b, p) matches Ok((s, q)) ==> span_in(s, b) && p < q <= b.len() && s.end == q,
{
    reveal(name_at);
    if let Ok(_) = peek_char(b, p) {
        lemma_name_rest_in(b, p + width_at(b, p));
    }
}

proof fn lemma_chars_until_in(b: Seq<u8>, p: int, d: Seq<u8>)
    requires
        valid_utf8(b),
        is_char_boundary(b, p),
        0 <= p <= b.len(),
    ensures
        ends_in(chars_until(b, p, d), p, b),
        chars_until(b, p, d) matches Ok(q) ==> test_at(b, q, d),
    decreases b.len() - p,
{
    if !test_at(b, p, d) {
        if let Ok(_) = peek_char(b, p) {
            lemma_chars_until_in(b, p + width_at(b, p), d);
        }
    }
}

proof fn lemma_reference_in(b: Seq<u8>, p: int)
    requires
        valid_utf8(b),
        is_char_boundary(b, p),
        0 <= p <= b.len(),
    ensures
        reference_at(b, p) matches Ok(q) ==> p < q <= b.len() && is_char_boundary(b, q),
{
    reveal(reference_at);
    reveal(reference_end);
    if p < b.len() && b[p] == crate::grammar::AMP {
        lemma_char_step(b, p);
        if test_at(b, p + 1, crate::grammar::HEX_REF_OPEN@) {
            lemma_chars_until_in(b, p + 3, crate::grammar::REF_CLOSE@);
        } else if test_at(b, p + 1, crate::grammar::DEC_REF_OPEN@) {
            lemma_chars_until_in(b, p + 2, crate::grammar::REF_CLOSE@);
        } else {
            lemma_chars_until_in(b, p + 1, crate::grammar::REF_CLOSE@);
        }
    }
}

proof fn lemma_char_data_in(b: Seq<u8>, p: int, delim: u32, to_end: bool)
    requires
        valid_utf8(b),
        is_char_boundary(b, p),
        0 <= p <= b.len(),
    ensures
        ends_in(char_data(b, p, delim, to_end), p, b),
    decreases b.len() - p,
{
    is_char_boundary_start_end_of_seq(b);
    if let Ok(c) = peek_char(b, p) {
        if c != delim && !(c == 0x5D && test_at(b, p, crate::grammar::CDATA_CLOSE@)) {
            if c == 0x26 {
                lemma_reference_in(b, p);
                if let Ok(q) = reference_at(b, p) {
                    lemma_char_data_in(b, q, delim, to_end);
                }
            } else if c != 0x3C {
                lemma_char_data_in(b, p + width_at(b, p), delim, to_end);
            }
        }
    }
}

proof fn lemma_end_tag_in(b: Seq<u8>, p: int)
    requires
        valid_utf8(b),
        is_char_boundary(b, p),
        0 <= p,
        p + 2 <= b.len(),
        test_at(b, p, crate::grammar::END_TAG_OPEN@),
    ensures
        token_scan_in(end_tag_at(b, p), p, b),
{
    reveal(end_tag_at);
    lemma_name_in(b, p + 2);
    if let Ok((nm, q)) = name_at(b, p + 2) {
        lemma_skip_ws_in(b, q);
    }
}

proof fn lemma_attribute_in(b: Seq<u8>, p: int)
    requires
        valid_utf8(b),
        is_char_boundary(b, p),
        0 <= p <= b.len(),
    ensures
        token_scan_in(attribute_at(b, p), p, b),
{
    reveal(attribute_at);
    reveal(quote_at);
    lemma_name_in(b, p);
    if let Ok((nm, q)) = name_at(b, p) {
        lemma_eq_in(b, q);
        if let Ok(q2) = eq_at(b, q) {
            if let Ok((qc, q3)) = quote_at(b, q2) {
                lemma_char_data_in(b, q3, qc as u32, false);
            }
        }
    }
}

proof fn lemma_attributes_in(b: Seq<u8>, p: int, acc: Seq<TokenV>)
    requires
        valid_utf8(b),
        is_char_boundary(b, p),
        0 <= p <= b.len(),
        tokens_in(acc, b),
    ensures
        attributes_at(b, p, acc) matches Ok((ts, q)) ==> p <= q <= b.len() && is_char_boundary(b, q)
            && tokens_in(ts, b),
    decreases b.len() - p,
{
    lemma_skip_ws_in(b, p);
    if !(test_at(b, skip_ws(b, p), crate::grammar::EMPTY_TAG_CLOSE@) || test_at(
        b,
        skip_ws(b, p),
        crate::grammar::TAG_CLOSE@,
    )) {
        lemma_spaces_in(b, p);
        if let Ok(q) = spaces_at(b, p) {
            lemma_attribute_in(b, q);
            if let Ok((t, q2)) = attribute_at(b, q) {
                lemma_push_in(acc, t, b);
                lemma_attributes_in(b, q2, acc.push(t));
            }
        }
    }
}

proof fn lemma_start_tag_in(b: Seq<u8>, p: int)
    requires
        valid_utf8(b),
        is_char_boundary(b, p),
        0 <= p <= b.len(),
    ensures
        tokens_scan_in(start_tag_at(b, p), p, b),
{
    reveal(start_tag_at);
    if p < b.len() && b[p] == crate::grammar::LT {
        lemma_char_step(b, p);
        lemma_name_in(b, p + 1);
        if let Ok((nm, q)) = name_at(b, p + 1) {
            let acc = seq![TokenV::StartTag(nm)];
            assert(tokens_in(acc, b)) by {
                assert(acc[0] == TokenV::StartTag(nm));
            }
            lemma_attributes_in(b, q, acc);
            if let Ok((ts, q2)) = attributes_at(b, q, acc) {
                lemma_skip_ws_in(b, q2);
                lemma_push_in(ts, TokenV::EndTag(nm), b);
            }
        }
    }
}

proof fn lemma_comment_body_in(b: Seq<u8>, p: int)
    requires
        valid_utf8(b),
        is_char_boundary(b, p),
        0 <= p <= b.len(),
    ensures
        comment_body(b, p) matches Ok(q) ==> p <= q && q + 3 <= b.len() && is_char_boundary(b, q)
            && test_at(b, q, crate::grammar::COMMENT_CLOSE@),
    decreases b.len() - p,
{
    if !test_at(b, p, crate::grammar::DOUBLE_HYPHEN@) {
        if let Ok(_) = peek_char(b, p) {
            lemma_comment_body_in(b, p + width_at(b, p));
        }
    }
}

proof fn lemma_comment_in(b: Seq<u8>, p: int)
    requires
        valid_utf8(b),
        is_char_boundary(b, p),
        0 <= p,
        p + 4 <= b.len(),
        test_at(b, p, crate::grammar::COMMENT_OPEN@),
    ensures
        token_scan_in(comment_at(b, p), p, b),
{
    reveal(comment_at);
    lemma_comment_body_in(b, p + 4);
}

proof fn lemma_cdata_in(b: Seq<u8>, p: int)
    requires
        valid_utf8(b),
        is_char_boundary(b, p),
        0 <= p,
        p + 9 <= b.len(),
        test_at(b, p, crate::grammar::CDATA_OPEN@),
    ensures
        token_scan_in(cdata_at(b, p), p, b),
{
    reveal(cdata_at);
    lemma_chars_until_in(b, p + 9, crate::grammar::CDATA_CLOSE@);
}

proof fn lemma_pi_in(b: Seq<u8>, p: int)
    requires
        valid_utf8(b),
        is_char_boundary(b, p),
        0 <= p,
        p + 2 <= b.len(),
        test_at(b, p, crate::grammar::PI_OPEN@),
    ensures
        token_scan_in(pi_at(b, p), p, b),
{
    reveal(pi_at);
    lemma_name_in(b, p + 2);
    if let Ok((t, q)) = name_at(b, p + 2) {
        lemma_spaces_in(b, q);
        if let Ok(q2) = spaces_at(b, q) {
            lemma_chars_until_in(b, q2, crate::grammar::PI_CLOSE@);
        }
    }
}

proof fn lemma_single_in(t: TokenV, b: Seq<u8>)
    requires
        token_in(t, b),
    ensures
        tokens_in(seq![t], b),
{
    assert(seq![t][0] == t);
}

proof fn lemma_markup_in(b: Seq<u8>, p: int)
    requires
        valid_utf8(b),
        is_char_boundary(b, p),
        0 <= p <= b.len(),
    ensures
        tokens_scan_in(markup_at(b, p), p, b),
{
    reveal(markup_at);
    if test_at(b, p, crate::grammar::END_TAG_OPEN@) {
        lemma_end_tag_in(b, p);
        if let Ok((t, q)) = end_tag_at(b, p) {
            lemma_single_in(t, b);
        }
    } else if test_at(b, p, crate::grammar::COMMENT_OPEN@) {
        lemma_comment_in(b, p);
        if let Ok((t, q)) = comment_at(b, p) {
            lemma_single_in(t, b);
        }
    } else if test_at(b, p, crate::grammar::CDATA_OPEN@) {
        lemma_cdata_in(b, p);
        if let Ok((t, q)) = cdata_at(b, p) {
            lemma_single_in(t, b);
        }
    } else if test_at(b, p, crate::grammar::PI_OPEN@) {
        lemma_pi_in(b, p);
        if let Ok((t, q)) = pi_at(b, p) {
            lemma_single_in(t, b);
        }
    } else {
        lemma_start_tag_in(b, p);
    }
}

/// The tokens of content lie in the text.
pub proof fn lemma_content_in(b: Seq<u8>, p: int, acc: Seq<TokenV>)
    requires
        valid_utf8(b),
        is_char_boundary(b, p),
        0 <= p <= b.len(),
        tokens_in(acc, b),
    ensures
        content_at(b, p, acc) matches Ok(ts) ==> tokens_in(ts, b),
    decreases b.len() - p,
{
    if p < b.len() {
        lemma_char_data_in(b, p, crate::grammar::LT as u32, true);
        if let Ok(q) = char_data(b, p, crate::grammar::LT as u32, true) {
            let acc1 = if q > p {
                acc.push(TokenV::Text(crate::textrange::span(b, p, q)))
            } else {
                acc
            };
            if q > p {
                lemma_push_in(acc, TokenV::Text(crate::textrange::span(b, p, q)), b);
            }
            lemma_markup_in(b, q);
            if let Ok((ts, q2)) = markup_at(b, q) {
                lemma_concat_in(acc1, ts, b);
                lemma_content_in(b, q2, acc1 + ts);
            }
        }
    }
}

/// A scan of a range from `p` that succeeds ends inside the text, not before `p`, and the
/// range lies in the text.
pub open spec fn span_scan_in(r: Scan<Span>, p: int, b: Seq<u8>) -> bool {
    r matches Ok((s, q)) ==> p <= q <= b.len() && is_char_boundary(b, q) && span_in(s, b)
}

proof fn lemma_misc_in(b: Seq<u8>, p: int)
    requires
        valid_utf8(b),
        is_char_boundary(b, p),
        0 <= p <= b.len(),
    ensures
        misc_at(b, p) matches Ok((t, q)) ==> p < q <= b.len() && is_char_boundary(b, q) && opt_token_in(
            t,
            b,
        ),
{
    reveal(misc_at);
    if p < b.len() && !xml_whitespace(b[p]) {
        if test_at(b, p, crate::grammar::COMMENT_OPEN@) {
            lemma_comment_in(b, p);
        } else if test_at(b, p, crate::grammar::PI_OPEN@) {
            lemma_pi_in(b, p);
        }
    }
}

pub open spec fn opt_token_in(t: Option<TokenV>, b: Seq<u8>) -> bool {
    match t {
        Some(t) => token_in(t, b),
        None => true,
    }
}

proof fn lemma_misc_run_in(b: Seq<u8>, p: int, acc: Seq<TokenV>)
    requires
        valid_utf8(b),
        is_char_boundary(b, p),
        0 <= p <= b.len(),
        tokens_in(acc, b),
    ensures
        misc_run(b, p, acc) matches Ok((ts, q)) ==> p <= q <= b.len() && is_char_boundary(b, q)
            && tokens_in(ts, b),
    decreases b.len() - p,
{
    if p < b.len() && misc_starts(b, p) {
        lemma_misc_in(b, p);
        if let Ok((t, q)) = misc_at(b, p) {
            let acc2 = match t {
                Some(t) => acc.push(t),
                None => acc,
            };
            if let Some(t) = t {
                lemma_push_in(acc, t, b);
            }
            lemma_misc_run_in(b, q, acc2);
        }
    }
}

proof fn lemma_digits_in(b: Seq<u8>, p: int)
    requires
        valid_utf8(b),
        is_char_boundary(b, p),
        0 <= p <= b.len(),
    ensures
        ends_in(digits_at(b, p), p, b),
    decreases b.len() - p,
{
    if let Ok(c) = peek_char(b, p) {
        if 0x30 <= c && c <= 0x39 {
            lemma_digits_in(b, p + width_at(b, p));
        }
    }
}

proof fn lemma_version_num_in(b: Seq<u8>, p: int)
    requires
        valid_utf8(b),
        is_char_boundary(b, p),
        0 <= p <= b.len(),
    ensures
        span_scan_in(version_num_at(b, p), p, b),
{
    reveal(version_num_at);
    if let Ok(q) = bytes_at(b, p, crate::grammar::VERSION_PREFIX@) {
        lemma_digits_in(b, q);
    }
}

proof fn lemma_enc_rest_in(b: Seq<u8>, p: int)
    requires
        valid_utf8(b),
        is_char_boundary(b, p),
        0 <= p <= b.len(),
    ensures
        ends_in(enc_rest(b, p), p, b),
    decreases b.len() - p,
{
    if p < b.len() && crate::grammar::enc_char(b[p]) {
        lemma_char_step(b, p);
        lemma_enc_rest_in(b, p + 1);
    }
}

proof fn lemma_enc_name_in(b: Seq<u8>, p: int)
    requires
        valid_utf8(b),
        is_char_boundary(b, p),
        0 <= p <= b.len(),
    ensures
        span_scan_in(enc_name_at(b, p), p, b),
{
    reveal(enc_name_at);
    if p < b.len() && crate::xmlchar::ascii_alpha(b[p]) {
        lemma_char_step(b, p);
        lemma_enc_rest_in(b, p + 1);
    }
}

proof fn lemma_yes_no_in(b: Seq<u8>, p: int)
    requires
        valid_utf8(b),
        is_char_boundary(b, p),
        0 <= p <= b.len(),
    ensures
        span_scan_in(yes_no_at(b, p), p, b),
{
    reveal(yes_no_at);
}

/// The steps that lead to the value of a quoted declaration part: the offset where the
/// value starts, if they succeed.
proof fn lemma_quoted_prefix_in(b: Seq<u8>, p: int, keyword: Seq<u8>) -> (v: Option<int>)
    requires
        valid_utf8(b),
        is_char_boundary(b, p),
        is_ascii_seq(keyword),
        0 <= p <= b.len(),
    ensures
        v matches Some(q4) ==> p < q4 <= b.len() && is_char_boundary(b, q4),
        v matches Some(q4) ==> spaces_at(b, p) matches Ok(q) && bytes_at(b, q, keyword) matches Ok(
            q2,
        ) && eq_at(b, q2) matches Ok(q3) && quote_at(b, q3) matches Ok((qc, q5)) && q5 == q4,
        v is None ==> !(spaces_at(b, p) matches Ok(q) && bytes_at(b, q, keyword) matches Ok(q2)
            && eq_at(b, q2) matches Ok(q3) && quote_at(b, q3) is Ok),
{
    reveal(quote_at);
    lemma_spaces_in(b, p);
    if let Ok(q) = spaces_at(b, p) {
        if let Ok(q2) = bytes_at(b, q, keyword) {
            lemma_eq_in(b, q2);
            if let Ok(q3) = eq_at(b, q2) {
                if let Ok((qc, q4)) = quote_at(b, q3) {
                    lemma_char_step(b, q3);
                    return Some(q4);
                }
            }
        }
    }
    None
}

proof fn lemma_version_info_in(b: Seq<u8>, p: int)
    requires
        valid_utf8(b),
        is_char_boundary(b, p),
        0 <= p <= b.len(),
    ensures
        span_scan_in(version_info_at(b, p), p, b),
{
    reveal(version_info_at);
    reveal(quoted_after);
    reveal(quote_at);
    if let Some(q4) = lemma_quoted_prefix_in(b, p, crate::grammar::VERSION@) {
        lemma_version_num_in(b, q4);
        if let Ok((v, q5)) = version_num_at(b, q4) {
            if q5 < b.len() {
                lemma_char_step(b, q5);
            }
        }
    }
}

proof fn lemma_encoding_decl_in(b: Seq<u8>, p: int)
    requires
        valid_utf8(b),
        is_char_boundary(b, p),
        0 <= p <= b.len(),
    ensures
        span_scan_in(encoding_decl_at(b, p), p, b),
{
    reveal(encoding_decl_at);
    reveal(quoted_after);
    reveal(quote_at);
    if let Some(q4) = lemma_quoted_prefix_in(b, p, crate::grammar::ENCODING@) {
        lemma_enc_name_in(b, q4);
        if let Ok((v, q5)) = enc_name_at(b, q4) {
            if q5 < b.len() {
                lemma_char_step(b, q5);
            }
        }
    }
}

proof fn lemma_standalone_decl_in(b: Seq<u8>, p: int)
    requires
        valid_utf8(b),
        is_char_boundary(b, p),
        0 <= p <= b.len(),
    ensures
        span_scan_in(standalone_decl_at(b, p), p, b),
{
    reveal(standalone_decl_at);
    reveal(quoted_after);
    reveal(quote_at);
    if let Some(q4) = lemma_quoted_prefix_in(b, p, crate::grammar::STANDALONE@) {
        lemma_yes_no_in(b, q4);
        if let Ok((v, q5)) = yes_no_at(b, q4) {
            if q5 < b.len() {
                lemma_char_step(b, q5);
            }
        }
    }
}

proof fn lemma_xml_decl_in(b: Seq<u8>, p: int)
    requires
        valid_utf8(b),
        is_char_boundary(b, p),
        0 <= p,
        p + 5 <= b.len(),
        test_at(b, p, crate::grammar::XML_DECL_OPEN@),
    ensures
        token_scan_in(xml_decl_at(b, p), p, b),
{
    reveal(xml_decl_at);
    reveal(optional_decl);
    lemma_version_info_in(b, p + 5);
    if let Ok((v, q)) = version_info_at(b, p + 5) {
        lemma_encoding_decl_in(b, q);
        let enc = optional_decl(b, q, crate::grammar::ENCODING@, |b: Seq<u8>, q: int| encoding_decl_at(b, q));
        if let Ok((e, q2)) = enc {
            lemma_standalone_decl_in(b, q2);
            let sd = optional_decl(b, q2, crate::grammar::STANDALONE@, |b: Seq<u8>, q: int| standalone_decl_at(b, q));
            if let Ok((s, q3)) = sd {
                lemma_skip_ws_in(b, q3);
            }
        }
    }
}

proof fn lemma_system_literal_in(b: Seq<u8>, p: int)
    requires
        valid_utf8(b),
        is_char_boundary(b, p),
        0 <= p <= b.len(),
    ensures
        span_scan_in(system_literal_at(b, p), p, b),
{
    reveal(system_literal_at);
    reveal(quote_at);
    if let Ok((qc, q)) = quote_at(b, p) {
        lemma_chars_until_in(b, q, seq![qc]);
    }
}

proof fn lemma_pubid_rest_in(b: Seq<u8>, p: int, qc: u8)
    requires
        valid_utf8(b),
        is_char_boundary(b, p),
        0 <= p <= b.len(),
    ensures
        ends_in(pubid_rest(b, p, qc), p, b),
    decreases b.len() - p,
{
    if p < b.len() && crate::xmlchar::pubid_char(b[p]) && b[p] != qc {
        lemma_char_step(b, p);
        lemma_pubid_rest_in(b, p + 1, qc);
    }
}

proof fn lemma_pubid_literal_in(b: Seq<u8>, p: int)
    requires
        valid_utf8(b),
        is_char_boundary(b, p),
        0 <= p <= b.len(),
    ensures
        span_scan_in(pubid_literal_at(b, p), p, b),
{
    reveal(pubid_literal_at);
    reveal(quote_at);
    if let Ok((qc, q)) = quote_at(b, p) {
        lemma_pubid_rest_in(b, q, qc);
    }
}

proof fn lemma_external_id_in(b: Seq<u8>, p: int)
    requires
        valid_utf8(b),
        is_char_boundary(b, p),
        0 <= p <= b.len(),
    ensures
        external_id_at(b, p) matches Ok((ids, q)) ==> p <= q <= b.len() && is_char_boundary(b, q)
            && opt_span_in(ids.0, b)
            && opt_span_in(ids.1, b),
{
    reveal(external_id_at);
    if test_at(b, p, crate::grammar::SYSTEM@) || test_at(b, p, crate::grammar::PUBLIC@) {
        lemma_spaces_in(b, p + 6);
        if let Ok(q) = spaces_at(b, p + 6) {
            lemma_system_literal_in(b, q);
            lemma_pubid_literal_in(b, q);
            if let Ok((pl, q2)) = pubid_literal_at(b, q) {
                lemma_spaces_in(b, q2);
                if let Ok(q3) = spaces_at(b, q2) {
                    lemma_system_literal_in(b, q3);
                }
            }
        }
    }
}

proof fn lemma_pe_reference_in(b: Seq<u8>, p: int)
    requires
        valid_utf8(b),
        is_char_boundary(b, p),
        0 <= p <= b.len(),
    ensures
        pe_reference_at(b, p) matches Ok((s, q)) ==> p < q <= b.len() && is_char_boundary(b, q)
            && span_in(s, b),
{
    reveal(pe_reference_at);
    if p < b.len() && b[p] == crate::grammar::PERCENT {
        lemma_char_step(b, p);
        lemma_name_in(b, p + 1);
    }
}

proof fn lemma_internal_subset_in(b: Seq<u8>, p: int, acc: Seq<TokenV>)
    requires
        valid_utf8(b),
        is_char_boundary(b, p),
        0 <= p <= b.len(),
        tokens_in(acc, b),
    ensures
        internal_subset_at(b, p, acc) matches Ok((ts, q)) ==> p <= q <= b.len() && is_char_boundary(
            b,
            q,
        ) && tokens_in(ts, b),
    decreases b.len() - p,
{
    if !(p < b.len() && b[p] == crate::grammar::RBRACKET) {
        lemma_skip_ws_in(b, p);
        let q = skip_ws(b, p);
        if q < b.len() && b[q] == crate::grammar::PERCENT {
            lemma_pe_reference_in(b, q);
            if let Ok((nm, q2)) = pe_reference_at(b, q) {
                lemma_push_in(acc, TokenV::ParameterEntityReference(nm), b);
                lemma_internal_subset_in(b, q2, acc.push(TokenV::ParameterEntityReference(nm)));
            }
        }
    }
}

proof fn lemma_doctype_in(b: Seq<u8>, p: int)
    requires
        valid_utf8(b),
        is_char_boundary(b, p),
        0 <= p <= b.len(),
    ensures
        tokens_scan_in(doctype_at(b, p), p, b),
{
    reveal(doctype_at);
    reveal(external_part);
    reveal(subset_part);
    if let Ok(q) = bytes_at(b, p, crate::grammar::DOCTYPE_OPEN@) {
        lemma_spaces_in(b, q);
        if let Ok(q2) = spaces_at(b, q) {
            lemma_name_in(b, q2);
            if let Ok((nm, q3)) = name_at(b, q2) {
                lemma_spaces_in(b, q3);
                if let Ok(q3s) = spaces_at(b, q3) {
                    lemma_external_id_in(b, q3s);
                }
                if let Ok(((sys, pubid), q4)) = external_part(b, q3) {
                    lemma_skip_ws_in(b, q4);
                    let q4s = skip_ws(b, q4);
                    let acc = seq![
                        TokenV::DocTypeDeclaration { name: nm, system: sys, public: pubid },
                    ];
                    lemma_single_in(acc[0], b);
                    assert(acc =~= seq![acc[0]]);
                    if q4s < b.len() && b[q4s] == crate::grammar::LBRACKET {
                        lemma_char_step(b, q4s);
                        lemma_internal_subset_in(b, q4s + 1, acc);
                    }
                    if let Ok((ts, q5)) = subset_part(b, q4s, acc) {
                        lemma_skip_ws_in(b, q5);
                    }
                }
            }
        }
    }
}

proof fn lemma_prolog_in(b: Seq<u8>, p: int)
    requires
        valid_utf8(b),
        is_char_boundary(b, p),
        0 <= p <= b.len(),
    ensures
        prolog_at(b, p) matches Ok((ts, q)) ==> p <= q <= b.len() && is_char_boundary(b, q)
            && tokens_in(ts, b),
{
    reveal(prolog_at);
    let first = if test_at(b, p, crate::grammar::XML_DECL_OPEN@) {
        lemma_xml_decl_in(b, p);
        match xml_decl_at(b, p) {
            Err(e) => Err(e),
            Ok((t, q)) => {
                lemma_single_in(t, b);
                Ok((seq![t], q))
            },
        }
    } else {
        assert(tokens_in(seq![], b));
        Ok((seq![], p))
    };
    if let Ok((acc, q)) = first {
        lemma_misc_run_in(b, q, acc);
        if let Ok((acc2, q2)) = misc_run(b, q, acc) {
            if test_at(b, q2, crate::grammar::DOCTYPE_OPEN@) {
                lemma_doctype_in(b, q2);
                if let Ok((ts, q3)) = doctype_at(b, q2) {
                    lemma_concat_in(acc2, ts, b);
                    lemma_misc_run_in(b, q3, acc2 + ts);
                }
            }
        }
    }
}

/// Every range of every token of a text lies in the text, begins and ends on character
/// boundaries, and holds the text's bytes there, so slicing the text at a token's range gives
/// back exactly the text that the token and the node built from it hold.
pub proof fn lemma_tokens_in_text(b: Seq<u8>)
    requires
        valid_utf8(b),
    ensures
        tokenize_spec(b) matches Ok(ts) ==> tokens_in(ts, b),
{
    is_char_boundary_start_end_of_seq(b);
    lemma_prolog_in(b, 0);
    if let Ok((ts, p)) = prolog_at(b, 0) {
        assert(tokens_in(seq![], b));
        lemma_content_in(b, p, seq![]);
        if let Ok(cs) = content_at(b, p, seq![]) {
            lemma_concat_in(ts, cs, b);
        }
    }
}

/// The same for the tokens of a string: every range of every token lies in the string, ends
/// on character boundaries, and holds the string's bytes there.
pub proof fn lemma_token_ranges_of_str(xml: &str)
    ensures
        tokenize_spec(xml.spec_bytes()) matches Ok(ts) ==> tokens_in(ts, xml.spec_bytes()),
{
    crate::chariter::lemma_text_bytes(xml);
    lemma_tokens_in_text(xml.spec_bytes());
}

} // verus!
