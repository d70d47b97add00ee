//! The grammar that the tokenizer follows, as functions from a text and an offset to what
//! stands there: a value and the offset after it, or the error that ends the scan.

use vstd::prelude::*;

use crate::chariter::{
    byte_at, bytes_at, illegal_at, peek_char, skip_ws, spaces_at, test_at, width_at,
};
use crate::error::ErrV;
use crate::textrange::{span, Span};
use crate::token::TokenV;
use crate::util::{dec_reference_ok, hex_reference_ok, predefined_entity};
use crate::xmlchar::{ascii_alnum, ascii_alpha, name_char, name_start_char, pubid_char, xml_quote};

verus! {

pub const LT: u8 = 0x3C;

pub const GT: u8 = 0x3E;

pub const AMP: u8 = 0x26;

pub const SEMICOLON: u8 = 0x3B;

pub const EQUALS: u8 = 0x3D;

pub const PERCENT: u8 = 0x25;

pub const LBRACKET: u8 = 0x5B;

pub const RBRACKET: u8 = 0x5D;

/// `</`
pub const END_TAG_OPEN: [u8; 2] = [0x3C, 0x2F];

/// `/>`
pub const EMPTY_TAG_CLOSE: [u8; 2] = [0x2F, 0x3E];

/// `>`
pub const TAG_CLOSE: [u8; 1] = [0x3E];

/// `<!--`
pub const COMMENT_OPEN: [u8; 4] = [0x3C, 0x21, 0x2D, 0x2D];

/// `--`
pub const DOUBLE_HYPHEN: [u8; 2] = [0x2D, 0x2D];

/// `-->`
pub const COMMENT_CLOSE: [u8; 3] = [0x2D, 0x2D, 0x3E];

/// `--->`
pub const HYPHEN_COMMENT_CLOSE: [u8; 4] = [0x2D, 0x2D, 0x2D, 0x3E];

/// `<![CDATA[`
pub const CDATA_OPEN: [u8; 9] = [0x3C, 0x21, 0x5B, 0x43, 0x44, 0x41, 0x54, 0x41, 0x5B];

/// `]]>`
pub const CDATA_CLOSE: [u8; 3] = [0x5D, 0x5D, 0x3E];

/// `<?`
pub const PI_OPEN: [u8; 2] = [0x3C, 0x3F];

/// `?>`
pub const PI_CLOSE: [u8; 2] = [0x3F, 0x3E];

/// `<?xml`
pub const XML_DECL_OPEN: [u8; 5] = [0x3C, 0x3F, 0x78, 0x6D, 0x6C];

/// `<!DOCTYPE`
pub const DOCTYPE_OPEN: [u8; 9] = [0x3C, 0x21, 0x44, 0x4F, 0x43, 0x54, 0x59, 0x50, 0x45];

/// `SYSTEM`
pub const SYSTEM: [u8; 6] = [0x53, 0x59, 0x53, 0x54, 0x45, 0x4D];

/// `PUBLIC`
pub const PUBLIC: [u8; 6] = [0x50, 0x55, 0x42, 0x4C, 0x49, 0x43];

/// `version`
pub const VERSION: [u8; 7] = [0x76, 0x65, 0x72, 0x73, 0x69, 0x6F, 0x6E];

/// `1.`
pub const VERSION_PREFIX: [u8; 2] = [0x31, 0x2E];

/// `encoding`
pub const ENCODING: [u8; 8] = [0x65, 0x6E, 0x63, 0x6F, 0x64, 0x69, 0x6E, 0x67];

/// `standalone`
pub const STANDALONE: [u8; 10] = [0x73, 0x74, 0x61, 0x6E, 0x64, 0x61, 0x6C, 0x6F, 0x6E, 0x65];

/// `yes`
pub const YES: [u8; 3] = [0x79, 0x65, 0x73];

/// `no`
pub const NO: [u8; 2] = [0x6E, 0x6F];

/// `#x`
pub const HEX_REF_OPEN: [u8; 2] = [0x23, 0x78];

/// `#`
pub const DEC_REF_OPEN: [u8; 1] = [0x23];

/// `;`
pub const REF_CLOSE: [u8; 1] = [0x3B];

/// What a production yields: a value and the offset after it, or the error.
pub type Scan<T> = Result<(T, int), ErrV>;

/// The name characters that follow the first one of a name.
pub open spec fn name_rest(b: Seq<u8>, p: int) -> Result<int, ErrV>
    decreases b.len() - p,
{
    match peek_char(b, p) {
        Err(e) => Err(e),
        Ok(c) => if name_char(c) {
            name_rest(b, p + width_at(b, p))
        } else {
            Ok(p)
        },
    }
}

/// `Name`
#[verifier::opaque]
pub open spec fn name_at(b: Seq<u8>, p: int) -> Scan<Span> {
    match peek_char(b, p) {
        Err(e) => Err(e),
        Ok(c) => if !name_start_char(c) {
            Err(illegal_at(b, p))
        } else {
            match name_rest(b, p + width_at(b, p)) {
                Err(e) => Err(e),
                Ok(q) => Ok((span(b, p, q), q)),
            }
        },
    }
}

/// XML characters up to the first place where `d` stands.
pub open spec fn chars_until(b: Seq<u8>, p: int, d: Seq<u8>) -> Result<int, ErrV>
    decreases b.len() - p,
{
    if test_at(b, p, d) {
        Ok(p)
    } else {
        match peek_char(b, p) {
            Err(e) => Err(e),
            Ok(_) => chars_until(b, p + width_at(b, p), d),
        }
    }
}

/// The end of a reference whose name or digits run from `s` to the `;`, checked by `ok`.
#[verifier::opaque]
pub open spec fn reference_end(b: Seq<u8>, p: int, s: int, ok: spec_fn(Seq<u8>) -> bool) -> Result<
    int,
    ErrV,
> {
    match chars_until(b, s, REF_CLOSE@) {
        Err(e) => Err(e),
        Ok(q) => if ok(b.subrange(s, q)) {
            Ok(q + 1)
        } else {
            Err(ErrV::UnknownReference(span(b, p, q + 1)))
        },
    }
}

/// `Reference`: `&#x` hex digits `;`, `&#` decimal digits `;`, or `&` a predefined name `;`.
#[verifier::opaque]
pub open spec fn reference_at(b: Seq<u8>, p: int) -> Result<int, ErrV> {
    match byte_at(b, p, AMP) {
        Err(e) => Err(e),
        Ok(p1) => if test_at(b, p1, HEX_REF_OPEN@) {
            reference_end(b, p, p1 + 2, |s: Seq<u8>| hex_reference_ok(s))
        } else if test_at(b, p1, DEC_REF_OPEN@) {
            reference_end(b, p, p1 + 1, |s: Seq<u8>| dec_reference_ok(s))
        } else {
            reference_end(b, p, p1, |s: Seq<u8>| predefined_entity(s))
        },
    }
}

/// `CharData` up to the character `delim`, with references checked where they stand; when
/// `to_end` holds, the end of the text ends it too.
pub open spec fn char_data(b: Seq<u8>, p: int, delim: u32, to_end: bool) -> Result<int, ErrV>
    decreases b.len() - p,
{
    if to_end && p >= b.len() {
        Ok(p)
    } else {
    match peek_char(b, p) {
        Err(e) => Err(e),
        Ok(c) => if c == delim {
            Ok(p)
        } else if c == 0x5D && test_at(b, p, CDATA_CLOSE@) {
            Err(ErrV::IllegalToken(span(b, p, p + 3)))
        } else if c == 0x26 {
            match reference_at(b, p) {
                Err(e) => Err(e),
                Ok(q) => if p < q <= b.len() {
                    char_data(b, q, delim, to_end)
                } else {
                    Err(ErrV::UnexpectedEndOfFile)
                },
            }
        } else if c == 0x3C {
            Err(illegal_at(b, p))
        } else {
            char_data(b, p + width_at(b, p), delim, to_end)
        },
    }
    }
}

/// `Eq`: an equals sign with optional whitespace around it.
#[verifier::opaque]
pub open spec fn eq_at(b: Seq<u8>, p: int) -> Result<int, ErrV> {
    match byte_at(b, skip_ws(b, p), EQUALS) {
        Err(e) => Err(e),
        Ok(q) => Ok(skip_ws(b, q)),
    }
}

/// An opening quote.
#[verifier::opaque]
pub open spec fn quote_at(b: Seq<u8>, p: int) -> Scan<u8> {
    if p >= b.len() {
        Err(ErrV::UnexpectedEndOfFile)
    } else if xml_quote(b[p]) {
        Ok((b[p], p + 1))
    } else {
        Err(illegal_at(b, p))
    }
}

/// `ETag`, from its `</`.
#[verifier::opaque]
pub open spec fn end_tag_at(b: Seq<u8>, p: int) -> Scan<TokenV> {
    match name_at(b, p + 2) {
        Err(e) => Err(e),
        Ok((nm, q)) => match byte_at(b, skip_ws(b, q), GT) {
            Err(e) => Err(e),
            Ok(q2) => Ok((TokenV::EndTag(nm), q2)),
        },
    }
}

/// `Attribute`: a name, `Eq` and a quoted value.
#[verifier::opaque]
pub open spec fn attribute_at(b: Seq<u8>, p: int) -> Scan<TokenV> {
    match name_at(b, p) {
        Err(e) => Err(e),
        Ok((nm, q)) => match eq_at(b, q) {
            Err(e) => Err(e),
            Ok(q2) => match quote_at(b, q2) {
                Err(e) => Err(e),
                Ok((qc, q3)) => match char_data(b, q3, qc as u32, false) {
                    Err(e) => Err(e),
                    Ok(q4) => match byte_at(b, q4, qc) {
                        Err(e) => Err(e),
                        Ok(q5) => Ok((TokenV::Attribute { name: nm, value: span(b, q3, q4) }, q5)),
                    },
                },
            },
        },
    }
}

/// The attributes of a start tag, each after whitespace, appended to `acc`.
pub open spec fn attributes_at(b: Seq<u8>, p: int, acc: Seq<TokenV>) -> Scan<Seq<TokenV>>
    decreases b.len() - p,
{
    if test_at(b, skip_ws(b, p), EMPTY_TAG_CLOSE@) || test_at(b, skip_ws(b, p), TAG_CLOSE@) {
        Ok((acc, p))
    } else {
        match spaces_at(b, p) {
            Err(e) => Err(e),
            Ok(q) => match attribute_at(b, q) {
                Err(e) => Err(e),
                Ok((t, q2)) => if p < q2 <= b.len() {
                    attributes_at(b, q2, acc.push(t))
                } else {
                    Err(ErrV::UnexpectedEndOfFile)
                },
            },
        }
    }
}

/// `STag` or `EmptyElemTag`, from its `<`; an empty-element tag yields a start tag and an end
/// tag with the same name.
#[verifier::opaque]
pub open spec fn start_tag_at(b: Seq<u8>, p: int) -> Scan<Seq<TokenV>> {
    match byte_at(b, p, LT) {
        Err(e) => Err(e),
        Ok(p1) => match name_at(b, p1) {
            Err(e) => Err(e),
            Ok((nm, q)) => tag_end_at(b, nm, attributes_at(b, q, seq![TokenV::StartTag(nm)])),
        },
    }
}

/// The close of a start tag named `nm`, after its tokens `attrs`: `/>` adds an end tag.
pub open spec fn tag_end_at(b: Seq<u8>, nm: Span, attrs: Scan<Seq<TokenV>>) -> Scan<Seq<TokenV>> {
    match attrs {
        Err(e) => Err(e),
        Ok((ts, q2)) => if test_at(b, skip_ws(b, q2), EMPTY_TAG_CLOSE@) {
            Ok((ts.push(TokenV::EndTag(nm)), skip_ws(b, q2) + 2))
        } else {
            match byte_at(b, skip_ws(b, q2), GT) {
                Err(e) => Err(e),
                Ok(q3) => Ok((ts, q3)),
            }
        },
    }
}

/// The text of a comment: characters up to `-->`, where `--` may not stand elsewhere.
pub open spec fn comment_body(b: Seq<u8>, p: int) -> Result<int, ErrV>
    decreases b.len() - p,
{
    if test_at(b, p, DOUBLE_HYPHEN@) {
        if test_at(b, p, COMMENT_CLOSE@) {
            Ok(p)
        } else {
            Err(ErrV::IllegalToken(span(b, p, p + 2)))
        }
    } else {
        match peek_char(b, p) {
            Err(e) => Err(e),
            Ok(_) => comment_body(b, p + width_at(b, p)),
        }
    }
}

/// `Comment`, from its `<!--`.
#[verifier::opaque]
pub open spec fn comment_at(b: Seq<u8>, p: int) -> Scan<TokenV> {
    match comment_body(b, p + 4) {
        Err(e) => Err(e),
        Ok(q) => Ok((TokenV::Comment(span(b, p + 4, q)), q + 3)),
    }
}

/// `CDSect`, from its `<![CDATA[`.
#[verifier::opaque]
pub open spec fn cdata_at(b: Seq<u8>, p: int) -> Scan<TokenV> {
    match chars_until(b, p + 9, CDATA_CLOSE@) {
        Err(e) => Err(e),
        Ok(q) => Ok((TokenV::CdataSection(span(b, p + 9, q)), q + 3)),
    }
}

/// `PI`, from its `<?`: a target and, after whitespace, the data up to `?>`.
#[verifier::opaque]
pub open spec fn pi_at(b: Seq<u8>, p: int) -> Scan<TokenV> {
    match name_at(b, p + 2) {
        Err(e) => Err(e),
        Ok((t, q)) => if test_at(b, q, PI_CLOSE@) {
            Ok((TokenV::ProcessingInstruction { target: t, data: None }, q + 2))
        } else {
            match spaces_at(b, q) {
                Err(e) => Err(e),
                Ok(q2) => if test_at(b, q2, PI_CLOSE@) {
                    Ok((TokenV::ProcessingInstruction { target: t, data: None }, q2 + 2))
                } else {
                    match chars_until(b, q2, PI_CLOSE@) {
                        Err(e) => Err(e),
                        Ok(q3) => Ok(
                            (
                                TokenV::ProcessingInstruction {
                                    target: t,
                                    data: Some(span(b, q2, q3)),
                                },
                                q3 + 2,
                            ),
                        ),
                    }
                },
            }
        },
    }
}

/// The markup at a `<` in content: an end tag, a comment, a CDATA section, a processing
/// instruction or a start tag.
#[verifier::opaque]
pub open spec fn markup_at(b: Seq<u8>, p: int) -> Scan<Seq<TokenV>> {
    if test_at(b, p, END_TAG_OPEN@) {
        match end_tag_at(b, p) {
            Err(e) => Err(e),
            Ok((t, q)) => Ok((seq![t], q)),
        }
    } else if test_at(b, p, COMMENT_OPEN@) {
        match comment_at(b, p) {
            Err(e) => Err(e),
            Ok((t, q)) => Ok((seq![t], q)),
        }
    } else if test_at(b, p, CDATA_OPEN@) {
        match cdata_at(b, p) {
            Err(e) => Err(e),
            Ok((t, q)) => Ok((seq![t], q)),
        }
    } else if test_at(b, p, PI_OPEN@) {
        match pi_at(b, p) {
            Err(e) => Err(e),
            Ok((t, q)) => Ok((seq![t], q)),
        }
    } else {
        start_tag_at(b, p)
    }
}

/// `content`: character data and markup up to the end of the text, appended to `acc`. The
/// text may end in character data: what follows the root element is left to the tree
/// builder.
pub open spec fn content_at(b: Seq<u8>, p: int, acc: Seq<TokenV>) -> Result<Seq<TokenV>, ErrV>
    decreases b.len() - p,
{
    if p >= b.len() {
        Ok(acc)
    } else {
        match char_data(b, p, LT as u32, true) {
            Err(e) => Err(e),
            Ok(q) => {
                let acc1 = if q > p {
                    acc.push(TokenV::Text(span(b, p, q)))
                } else {
                    acc
                };
                if q >= b.len() {
                    Ok(acc1)
                } else {
                match markup_at(b, q) {
                    Err(e) => Err(e),
                    Ok((ts, q2)) => if p < q2 <= b.len() {
                        content_at(b, q2, acc1 + ts)
                    } else {
                        Err(ErrV::UnexpectedEndOfFile)
                    },
                }
                }
            },
        }
    }
}

/// `Misc`: one whitespace byte, a comment or a processing instruction.
#[verifier::opaque]
pub open spec fn misc_at(b: Seq<u8>, p: int) -> Scan<Option<TokenV>> {
    if p >= b.len() {
        Err(ErrV::UnexpectedEndOfFile)
    } else if crate::xmlchar::xml_whitespace(b[p]) {
        Ok((None, p + 1))
    } else if test_at(b, p, COMMENT_OPEN@) {
        match comment_at(b, p) {
            Err(e) => Err(e),
            Ok((t, q)) => Ok((Some(t), q)),
        }
    } else if test_at(b, p, PI_OPEN@) {
        match pi_at(b, p) {
            Err(e) => Err(e),
            Ok((t, q)) => Ok((Some(t), q)),
        }
    } else {
        Err(illegal_at(b, p))
    }
}

/// Whether `Misc` begins at `p`.
pub open spec fn misc_starts(b: Seq<u8>, p: int) -> bool {
    crate::xmlchar::xml_whitespace(b[p]) || test_at(b, p, COMMENT_OPEN@) || test_at(
        b,
        p,
        PI_OPEN@,
    )
}

/// A run of `Misc`, whose tokens are appended to `acc`; the text must go on after it.
pub open spec fn misc_run(b: Seq<u8>, p: int, acc: Seq<TokenV>) -> Scan<Seq<TokenV>>
    decreases b.len() - p,
{
    if p >= b.len() {
        Err(ErrV::UnexpectedEndOfFile)
    } else if misc_starts(b, p) {
        match misc_at(b, p) {
            Err(e) => Err(e),
            Ok((t, q)) => if p < q <= b.len() {
                misc_run(
                    b,
                    q,
                    match t {
                        Some(t) => acc.push(t),
                        None => acc,
                    },
                )
            } else {
                Err(ErrV::UnexpectedEndOfFile)
            },
        }
    } else {
        Ok((acc, p))
    }
}

/// `VersionNum`: `1.` and decimal digits.
pub open spec fn digits_at(b: Seq<u8>, p: int) -> Result<int, ErrV>
    decreases b.len() - p,
{
    match peek_char(b, p) {
        Err(e) => Err(e),
        Ok(c) => if 0x30 <= c && c <= 0x39 {
            digits_at(b, p + width_at(b, p))
        } else {
            Ok(p)
        },
    }
}

#[verifier::opaque]
pub open spec fn version_num_at(b: Seq<u8>, p: int) -> Scan<Span> {
    match bytes_at(b, p, VERSION_PREFIX@) {
        Err(e) => Err(e),
        Ok(q) => match digits_at(b, q) {
            Err(e) => Err(e),
            Ok(q2) => Ok((span(b, p, q2), q2)),
        },
    }
}

/// The quoted value after whitespace, `keyword` and `Eq`, read by `value`.
#[verifier::opaque]
pub open spec fn quoted_after(
    b: Seq<u8>,
    p: int,
    keyword: Seq<u8>,
    value: spec_fn(Seq<u8>, int) -> Scan<Span>,
) -> Scan<Span> {
    match spaces_at(b, p) {
        Err(e) => Err(e),
        Ok(q) => match bytes_at(b, q, keyword) {
            Err(e) => Err(e),
            Ok(q2) => match eq_at(b, q2) {
                Err(e) => Err(e),
                Ok(q3) => match quote_at(b, q3) {
                    Err(e) => Err(e),
                    Ok((qc, q4)) => match value(b, q4) {
                        Err(e) => Err(e),
                        Ok((v, q5)) => match byte_at(b, q5, qc) {
                            Err(e) => Err(e),
                            Ok(q6) => Ok((v, q6)),
                        },
                    },
                },
            },
        },
    }
}

/// `VersionInfo`
#[verifier::opaque]
pub open spec fn version_info_at(b: Seq<u8>, p: int) -> Scan<Span> {
    quoted_after(b, p, VERSION@, |b: Seq<u8>, q: int| version_num_at(b, q))
}

pub open spec fn enc_char(x: u8) -> bool {
    ascii_alnum(x) || x == 0x2E || x == 0x5F || x == 0x2D
}

pub open spec fn enc_rest(b: Seq<u8>, p: int) -> Result<int, ErrV>
    decreases b.len() - p,
{
    if p >= b.len() {
        Err(ErrV::UnexpectedEndOfFile)
    } else if enc_char(b[p]) {
        enc_rest(b, p + 1)
    } else {
        Ok(p)
    }
}

/// `EncName`: a Latin letter, then letters, digits, `.`, `_` and `-`.
#[verifier::opaque]
pub open spec fn enc_name_at(b: Seq<u8>, p: int) -> Scan<Span> {
    if p >= b.len() {
        Err(ErrV::UnexpectedEndOfFile)
    } else if !ascii_alpha(b[p]) {
        Err(illegal_at(b, p))
    } else {
        match enc_rest(b, p + 1) {
            Err(e) => Err(e),
            Ok(q) => Ok((span(b, p, q), q)),
        }
    }
}

/// `EncodingDecl`
#[verifier::opaque]
pub open spec fn encoding_decl_at(b: Seq<u8>, p: int) -> Scan<Span> {
    quoted_after(b, p, ENCODING@, |b: Seq<u8>, q: int| enc_name_at(b, q))
}

/// `yes` or `no`.
#[verifier::opaque]
pub open spec fn yes_no_at(b: Seq<u8>, p: int) -> Scan<Span> {
    if test_at(b, p, YES@) {
        Ok((span(b, p, p + 3), p + 3))
    } else if test_at(b, p, NO@) {
        Ok((span(b, p, p + 2), p + 2))
    } else {
        Err(illegal_at(b, p))
    }
}

/// `SDDecl`
#[verifier::opaque]
pub open spec fn standalone_decl_at(b: Seq<u8>, p: int) -> Scan<Span> {
    quoted_after(b, p, STANDALONE@, |b: Seq<u8>, q: int| yes_no_at(b, q))
}

/// An optional part of a declaration, present where `keyword` follows whitespace.
#[verifier::opaque]
pub open spec fn optional_decl(
    b: Seq<u8>,
    p: int,
    keyword: Seq<u8>,
    decl: spec_fn(Seq<u8>, int) -> Scan<Span>,
) -> Scan<Option<Span>> {
    if test_at(b, skip_ws(b, p), keyword) {
        match decl(b, p) {
            Err(e) => Err(e),
            Ok((v, q)) => Ok((Some(v), q)),
        }
    } else {
        Ok((None, p))
    }
}

/// `XMLDecl`, from its `<?xml`.
#[verifier::opaque]
pub open spec fn xml_decl_at(b: Seq<u8>, p: int) -> Scan<TokenV> {
    match version_info_at(b, p + 5) {
        Err(e) => Err(e),
        Ok((v, q)) => match optional_decl(
            b,
            q,
            ENCODING@,
            |b: Seq<u8>, q: int| encoding_decl_at(b, q),
        ) {
            Err(e) => Err(e),
            Ok((enc, q2)) => match optional_decl(
                b,
                q2,
                STANDALONE@,
                |b: Seq<u8>, q: int| standalone_decl_at(b, q),
            ) {
                Err(e) => Err(e),
                Ok((sd, q3)) => match bytes_at(b, skip_ws(b, q3), PI_CLOSE@) {
                    Err(e) => Err(e),
                    Ok(q4) => Ok(
                        (TokenV::XmlDeclaration { version: v, encoding: enc, standalone: sd }, q4),
                    ),
                },
            },
        },
    }
}

/// `SystemLiteral`
#[verifier::opaque]
pub open spec fn system_literal_at(b: Seq<u8>, p: int) -> Scan<Span> {
    match quote_at(b, p) {
        Err(e) => Err(e),
        Ok((qc, q)) => match chars_until(b, q, seq![qc]) {
            Err(e) => Err(e),
            Ok(q2) => match byte_at(b, q2, qc) {
                Err(e) => Err(e),
                Ok(q3) => Ok((span(b, q, q2), q3)),
            },
        },
    }
}

pub open spec fn pubid_rest(b: Seq<u8>, p: int, qc: u8) -> Result<int, ErrV>
    decreases b.len() - p,
{
    if p >= b.len() {
        Err(ErrV::UnexpectedEndOfFile)
    } else if pubid_char(b[p]) && b[p] != qc {
        pubid_rest(b, p + 1, qc)
    } else {
        Ok(p)
    }
}

/// `PubidLiteral`
#[verifier::opaque]
pub open spec fn pubid_literal_at(b: Seq<u8>, p: int) -> Scan<Span> {
    match quote_at(b, p) {
        Err(e) => Err(e),
        Ok((qc, q)) => match pubid_rest(b, q, qc) {
            Err(e) => Err(e),
            Ok(q2) => match byte_at(b, q2, qc) {
                Err(e) => Err(e),
                Ok(q3) => Ok((span(b, q, q2), q3)),
            },
        },
    }
}

/// `ExternalID`: the system literal and, for `PUBLIC`, the public one.
#[verifier::opaque]
pub open spec fn external_id_at(b: Seq<u8>, p: int) -> Scan<(Option<Span>, Option<Span>)> {
    if test_at(b, p, SYSTEM@) {
        match spaces_at(b, p + 6) {
            Err(e) => Err(e),
            Ok(q) => match system_literal_at(b, q) {
                Err(e) => Err(e),
                Ok((s, q2)) => Ok(((Some(s), None), q2)),
            },
        }
    } else if test_at(b, p, PUBLIC@) {
        match spaces_at(b, p + 6) {
            Err(e) => Err(e),
            Ok(q) => match pubid_literal_at(b, q) {
                Err(e) => Err(e),
                Ok((pl, q2)) => match spaces_at(b, q2) {
                    Err(e) => Err(e),
                    Ok(q3) => match system_literal_at(b, q3) {
                        Err(e) => Err(e),
                        Ok((s, q4)) => Ok(((Some(s), Some(pl)), q4)),
                    },
                },
            },
        }
    } else {
        Err(illegal_at(b, p))
    }
}

/// `PEReference`: `%`, a name and `;`.
#[verifier::opaque]
pub open spec fn pe_reference_at(b: Seq<u8>, p: int) -> Scan<Span> {
    match byte_at(b, p, PERCENT) {
        Err(e) => Err(e),
        Ok(q) => match name_at(b, q) {
            Err(e) => Err(e),
            Ok((nm, q2)) => match byte_at(b, q2, SEMICOLON) {
                Err(e) => Err(e),
                Ok(q3) => Ok((nm, q3)),
            },
        },
    }
}

/// The internal subset up to its `]`: parameter-entity references between whitespace; any
/// other declaration is refused.
pub open spec fn internal_subset_at(b: Seq<u8>, p: int, acc: Seq<TokenV>) -> Scan<Seq<TokenV>>
    decreases b.len() - p,
{
    if p < b.len() && b[p] == RBRACKET {
        Ok((acc, p))
    } else {
        let q = skip_ws(b, p);
        if q < b.len() && b[q] == PERCENT {
            match pe_reference_at(b, q) {
                Err(e) => Err(e),
                Ok((nm, q2)) => if p < q2 <= b.len() {
                    internal_subset_at(b, q2, acc.push(TokenV::ParameterEntityReference(nm)))
                } else {
                    Err(ErrV::UnexpectedEndOfFile)
                },
            }
        } else if q < b.len() && b[q] == RBRACKET {
            Ok((acc, q))
        } else {
            Err(illegal_at(b, q))
        }
    }
}

/// The optional internal subset in brackets, after the tokens `acc`.
#[verifier::opaque]
pub open spec fn subset_part(b: Seq<u8>, p: int, acc: Seq<TokenV>) -> Scan<Seq<TokenV>> {
    if p < b.len() && b[p] == LBRACKET {
        match internal_subset_at(b, p + 1, acc) {
            Err(e) => Err(e),
            Ok((ts, q)) => match byte_at(b, q, RBRACKET) {
                Err(e) => Err(e),
                Ok(q2) => Ok((ts, q2)),
            },
        }
    } else {
        Ok((acc, p))
    }
}

/// The external identifier of a document type, present where `PUBLIC` or `SYSTEM` follows
/// whitespace.
#[verifier::opaque]
pub open spec fn external_part(b: Seq<u8>, p: int) -> Scan<(Option<Span>, Option<Span>)> {
    if test_at(b, skip_ws(b, p), PUBLIC@) || test_at(b, skip_ws(b, p), SYSTEM@) {
        match spaces_at(b, p) {
            Err(e) => Err(e),
            Ok(q) => external_id_at(b, q),
        }
    } else {
        Ok(((None, None), p))
    }
}

/// `doctypedecl`, from its `<!DOCTYPE`.
#[verifier::opaque]
pub open spec fn doctype_at(b: Seq<u8>, p: int) -> Scan<Seq<TokenV>> {
    match bytes_at(b, p, DOCTYPE_OPEN@) {
        Err(e) => Err(e),
        Ok(q) => match spaces_at(b, q) {
            Err(e) => Err(e),
            Ok(q2) => match name_at(b, q2) {
                Err(e) => Err(e),
                Ok((nm, q3)) => match external_part(b, q3) {
                    Err(e) => Err(e),
                    Ok(((sys, pubid), q4)) => match subset_part(
                        b,
                        skip_ws(b, q4),
                        seq![TokenV::DocTypeDeclaration { name: nm, system: sys, public: pubid }],
                    ) {
                        Err(e) => Err(e),
                        Ok((ts, q5)) => match byte_at(b, skip_ws(b, q5), GT) {
                            Err(e) => Err(e),
                            Ok(q6) => Ok((ts, q6)),
                        },
                    },
                },
            },
        },
    }
}

/// `prolog`: an optional XML declaration, `Misc`, and an optional document type followed by
/// more `Misc`.
#[verifier::opaque]
pub open spec fn prolog_at(b: Seq<u8>, p: int) -> Scan<Seq<TokenV>> {
    let first = if test_at(b, p, XML_DECL_OPEN@) {
        match xml_decl_at(b, p) {
            Err(e) => Err(e),
            Ok((t, q)) => Ok((seq![t], q)),
        }
    } else {
        Ok((seq![], p))
    };
    match first {
        Err(e) => Err(e),
        Ok((acc, q)) => match misc_run(b, q, acc) {
            Err(e) => Err(e),
            Ok((acc2, q2)) => if test_at(b, q2, DOCTYPE_OPEN@) {
                match doctype_at(b, q2) {
                    Err(e) => Err(e),
                    Ok((ts, q3)) => misc_run(b, q3, acc2 + ts),
                }
            } else {
                Ok((acc2, q2))
            },
        },
    }
}

/// `document`: the tokens of a whole text.
pub open spec fn tokenize_spec(b: Seq<u8>) -> Result<Seq<TokenV>, ErrV> {
    match prolog_at(b, 0) {
        Err(e) => Err(e),
        Ok((ts, p)) => match content_at(b, p, seq![]) {
            Err(e) => Err(e),
            Ok(cs) => Ok(ts + cs),
        },
    }
}

} // verus!
