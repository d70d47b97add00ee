//! Character classes of the XML grammar, over code points and bytes.

use vstd::prelude::*;

verus! {

/// `Char`: the characters that may appear anywhere in a document.
pub open spec fn xml_char(c: u32) -> bool {
    c == 0x9 || c == 0xA || c == 0xD || (0x20 <= c && c <= 0xD7FF) || (0xE000 <= c && c <= 0xFFFD)
        || (0x10000 <= c && c <= 0x10FFFF)
}

/// `NameStartChar`: the characters that may begin a name.
pub open spec fn name_start_char(c: u32) -> bool {
    c == 0x3A || (0x41 <= c && c <= 0x5A) || c == 0x5F || (0x61 <= c && c <= 0x7A) || (0xC0 <= c
        && c <= 0xD6) || (0xD8 <= c && c <= 0xF6) || (0xF8 <= c && c <= 0x2FF) || (0x370 <= c && c
        <= 0x37D) || (0x37F <= c && c <= 0x1FFF) || (0x200C <= c && c <= 0x200D) || (0x2070 <= c
        && c <= 0x218F) || (0x2C00 <= c && c <= 0x2FEF) || (0x3001 <= c && c <= 0xD7FF) || (0xF900
        <= c && c <= 0xFDCF) || (0xFDF0 <= c && c <= 0xFFFD) || (0x10000 <= c && c <= 0xEFFFF)
}

/// `NameChar`: the characters that may continue a name.
pub open spec fn name_char(c: u32) -> bool {
    name_start_char(c) || c == 0x2D || c == 0x2E || (0x30 <= c && c <= 0x39) || c == 0xB7 || (0x300
        <= c && c <= 0x36F) || (0x203F <= c && c <= 0x2040)
}

/// Characters that may stand literally in character data (all but `<` and `&`).
pub open spec fn char_data_char(c: u32) -> bool {
    c != 0x3C && c != 0x26
}

/// `S`: space, carriage return, line feed and tab.
pub open spec fn xml_whitespace(b: u8) -> bool {
    b == 0x20 || b == 0x0A || b == 0x09 || b == 0x0D
}

/// The two quote characters that delimit literals.
pub open spec fn xml_quote(b: u8) -> bool {
    b == 0x22 || b == 0x27
}

pub open spec fn ascii_digit(b: u8) -> bool {
    0x30 <= b && b <= 0x39
}

pub open spec fn ascii_alpha(b: u8) -> bool {
    (0x41 <= b && b <= 0x5A) || (0x61 <= b && b <= 0x7A)
}

pub open spec fn ascii_alnum(b: u8) -> bool {
    ascii_digit(b) || ascii_alpha(b)
}

/// `PubidChar`: the characters allowed in a public identifier literal.
pub open spec fn pubid_char(b: u8) -> bool {
    ascii_alnum(b) || b == 0x20 || b == 0x0A || b == 0x0D || b == 0x2D || b == 0x27 || b == 0x28
        || b == 0x29 || b == 0x2B || b == 0x2C || b == 0x2E || b == 0x2F || b == 0x3A || b == 0x3D
        || b == 0x3F || b == 0x3B || b == 0x21 || b == 0x2A || b == 0x23 || b == 0x40 || b == 0x24
        || b == 0x5F || b == 0x25
}

pub fn is_xml_char_code(c: u32) -> (r: bool)
    ensures
        r == xml_char(c),
{
    c == 0x9 || c == 0xA || c == 0xD || (0x20 <= c && c <= 0xD7FF) || (0xE000 <= c && c <= 0xFFFD)
        || (0x10000 <= c && c <= 0x10FFFF)
}

pub fn is_name_start_code(c: u32) -> (r: bool)
    ensures
        r == name_start_char(c),
{
    c == 0x3A || (0x41 <= c && c <= 0x5A) || c == 0x5F || (0x61 <= c && c <= 0x7A) || (0xC0 <= c
        && c <= 0xD6) || (0xD8 <= c && c <= 0xF6) || (0xF8 <= c && c <= 0x2FF) || (0x370 <= c && c
        <= 0x37D) || (0x37F <= c && c <= 0x1FFF) || (0x200C <= c && c <= 0x200D) || (0x2070 <= c
        && c <= 0x218F) || (0x2C00 <= c && c <= 0x2FEF) || (0x3001 <= c && c <= 0xD7FF) || (0xF900
        <= c && c <= 0xFDCF) || (0xFDF0 <= c && c <= 0xFFFD) || (0x10000 <= c && c <= 0xEFFFF)
}

pub fn is_name_code(c: u32) -> (r: bool)
    ensures
        r == name_char(c),
{
    is_name_start_code(c) || c == 0x2D || c == 0x2E || (0x30 <= c && c <= 0x39) || c == 0xB7 || (
    0x300 <= c && c <= 0x36F) || (0x203F <= c && c <= 0x2040)
}

/// Classification of a character by the XML character classes.
pub trait XmlChar {
    fn is_xml_char(&self) -> bool;

    fn is_xml_name_start_char(&self) -> bool;

    fn is_xml_name_char(&self) -> bool;

    fn is_xml_character_data_char(&self) -> bool;
}

/// Classification of a single byte by the XML byte classes.
pub trait XmlByte {
    fn is_xml_whitespace(&self) -> bool;

    fn is_xml_quote(&self) -> bool;

    fn is_xml_pubid_char(&self) -> bool;
}

impl XmlByte for u8 {
    fn is_xml_whitespace(&self) -> (r: bool)
        ensures
            r == xml_whitespace(*self),
    {
        *self == 0x20 || *self == 0x0A || *self == 0x09 || *self == 0x0D
    }

    fn is_xml_quote(&self) -> (r: bool)
        ensures
            r == xml_quote(*self),
    {
        *self == 0x22 || *self == 0x27
    }

    fn is_xml_pubid_char(&self) -> (r: bool)
        ensures
            r == pubid_char(*self),
    {
        let b = *self;
        (0x30 <= b && b <= 0x39) || (0x41 <= b && b <= 0x5A) || (0x61 <= b && b <= 0x7A) || b
            == 0x20 || b == 0x0A || b == 0x0D || b == 0x2D || b == 0x27 || b == 0x28 || b == 0x29
            || b == 0x2B || b == 0x2C || b == 0x2E || b == 0x2F || b == 0x3A || b == 0x3D || b
            == 0x3F || b == 0x3B || b == 0x21 || b == 0x2A || b == 0x23 || b == 0x40 || b == 0x24
            || b == 0x5F || b == 0x25
    }
}

impl XmlChar for char {
    fn is_xml_char(&self) -> (r: bool)
        ensures
            r == xml_char(*self as u32),
    {
        is_xml_char_code(*self as u32)
    }

    fn is_xml_name_start_char(&self) -> (r: bool)
        ensures
            r == name_start_char(*self as u32),
    {
        is_name_start_code(*self as u32)
    }

    fn is_xml_name_char(&self) -> (r: bool)
        ensures
            r == name_char(*self as u32),
    {
        is_name_code(*self as u32)
    }

    fn is_xml_character_data_char(&self) -> (r: bool)
        ensures
            r == char_data_char(*self as u32),
    {
        (*self as u32) != 0x3C && (*self as u32) != 0x26
    }
}

} // verus!
