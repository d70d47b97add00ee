//! Decoding of character references.

use vstd::prelude::*;
use vstd::string::StringSliceAdditionalSpecFns;

use crate::xmlchar::{is_xml_char_code, xml_char};

verus! {

pub open spec fn hex_digit(b: u8) -> bool {
    (0x30 <= b && b <= 0x39) || (0x41 <= b && b <= 0x46) || (0x61 <= b && b <= 0x66)
}

pub open spec fn hex_val(b: u8) -> int {
    if 0x30 <= b && b <= 0x39 {
        b - 0x30
    } else if 0x41 <= b && b <= 0x46 {
        b - 0x41 + 10
    } else {
        b - 0x61 + 10
    }
}

/// The value of the first `n` hex digits of `s`, read as a base-16 number.
pub open spec fn hex_prefix(s: Seq<u8>, n: int) -> int
    decreases n,
{
    if n <= 0 {
        0
    } else {
        hex_prefix(s, n - 1) * 16 + hex_val(s[n - 1])
    }
}

/// The value of the hex digits `s`, read as a base-16 number.
pub open spec fn hex_value(s: Seq<u8>) -> int {
    hex_prefix(s, s.len() as int)
}

/// A hexadecimal character reference: one to eight hex digits whose value is an XML
/// character.
pub open spec fn hex_reference_ok(s: Seq<u8>) -> bool {
    &&& 1 <= s.len() <= 8
    &&& forall|i: int| 0 <= i < s.len() ==> hex_digit(#[trigger] s[i])
    &&& xml_char(hex_value(s) as u32)
}

/// The value of the first `n` decimal digits of `s`.
pub open spec fn dec_prefix(s: Seq<u8>, n: int) -> int
    decreases n,
{
    if n <= 0 {
        0
    } else {
        dec_prefix(s, n - 1) * 10 + (s[n - 1] - 0x30)
    }
}

/// A decimal character reference: decimal digits giving an XML character.
pub open spec fn dec_reference_ok(s: Seq<u8>) -> bool {
    &&& 1 <= s.len()
    &&& forall|i: int| 0 <= i < s.len() ==> 0x30 <= #[trigger] s[i] <= 0x39
    &&& dec_prefix(s, s.len() as int) <= 0x10FFFF
    &&& xml_char(dec_prefix(s, s.len() as int) as u32)
}

pub const AMP_NAME: [u8; 3] = [0x61, 0x6D, 0x70];

pub const LT_NAME: [u8; 2] = [0x6C, 0x74];

pub const GT_NAME: [u8; 2] = [0x67, 0x74];

pub const APOS_NAME: [u8; 4] = [0x61, 0x70, 0x6F, 0x73];

pub const QUOT_NAME: [u8; 4] = [0x71, 0x75, 0x6F, 0x74];

/// The five entities that every document knows: `amp`, `lt`, `gt`, `apos` and `quot`.
pub open spec fn predefined_entity(s: Seq<u8>) -> bool {
    s == AMP_NAME@ || s == LT_NAME@ || s == GT_NAME@ || s == APOS_NAME@ || s == QUOT_NAME@
}

proof fn lemma_dec_prefix_grows(s: Seq<u8>, m: int, n: int)
    requires
        0 <= m <= n <= s.len(),
        forall|i: int| 0 <= i < n ==> 0x30 <= #[trigger] s[i] <= 0x39,
    ensures
        dec_prefix(s, m) <= dec_prefix(s, n),
        0 <= dec_prefix(s, m),
    decreases n,
{
    if m < n {
        lemma_dec_prefix_grows(s, m, n - 1);
        assert(0 <= dec_prefix(s, n - 1));
    } else if n > 0 {
        lemma_dec_prefix_grows(s, m - 1, n - 1);
    }
}

fn hex_digit_value(b: u8) -> (r: Option<u32>)
    ensures
        r is Some <==> hex_digit(b),
        r matches Some(v) ==> v == hex_val(b) && v < 16,
{
    if 0x30 <= b && b <= 0x39 {
        Some((b - 0x30) as u32)
    } else if 0x41 <= b && b <= 0x46 {
        Some((b - 0x41 + 10) as u32)
    } else if 0x61 <= b && b <= 0x66 {
        Some((b - 0x61 + 10) as u32)
    } else {
        None
    }
}

/// Decodes the hex digits of a character reference `&#x...;`: one to eight digits, read as
/// a base-16 number, which must name an XML character.
pub fn decode_hex(reference: &str) -> (r: Option<char>)
    ensures
        r is Some <==> hex_reference_ok(reference.spec_bytes()),
        r matches Some(c) ==> c as u32 == hex_value(reference.spec_bytes()),
{
    let b = reference.as_bytes();
    let ghost s = b@;
    let n = b.len();
    // a u32 holds at most eight hex digits
    if n == 0 || n > 8 {
        return None;
    }
    let mut res: u64 = 0;
    let mut i: usize = 0;
    while i < n
        invariant
            s == reference.spec_bytes(),
            s == b@,
            n == s.len(),
            1 <= n <= 8,
            i <= n,
            forall|j: int| 0 <= j < i ==> hex_digit(#[trigger] s[j]),
            res == hex_prefix(s, i as int),
            res < 0x100000000,
            i <= 7 ==> res < 0x10000000,
            i <= 6 ==> res < 0x1000000,
            i <= 5 ==> res < 0x100000,
            i <= 4 ==> res < 0x10000,
            i <= 3 ==> res < 0x1000,
            i <= 2 ==> res < 0x100,
            i <= 1 ==> res < 0x10,
            i == 0 ==> res == 0,
        decreases n - i,
    {
        let d = match hex_digit_value(b[i]) {
            Some(v) => v,
            None => return None,
        };
        res = res * 16 + d as u64;
        i = i + 1;
    }
    let code = res as u32;
    if !is_xml_char_code(code) {
        return None;
    }
    char::from_u32(code)
}

/// Decodes the digits of a decimal character reference `&#...;`.
pub fn decode_decimal(reference: &str) -> (r: Option<char>)
    ensures
        r is Some <==> dec_reference_ok(reference.spec_bytes()),
        r matches Some(c) ==> c as u32 == dec_prefix(
            reference.spec_bytes(),
            reference.spec_bytes().len() as int,
        ),
{
    let b = reference.as_bytes();
    let ghost s = b@;
    let n = b.len();
    if n == 0 {
        return None;
    }
    let mut acc: u32 = 0;
    let mut i: usize = 0;
    while i < n
        invariant
            s == reference.spec_bytes(),
            s == b@,
            n == s.len(),
            i <= n,
            forall|j: int| 0 <= j < i ==> 0x30 <= #[trigger] s[j] <= 0x39,
            acc == dec_prefix(s, i as int),
            acc <= 0x10FFFF,
        decreases n - i,
    {
        let d = b[i];
        if d < 0x30 || d > 0x39 {
            return None;
        }
        acc = acc * 10 + (d - 0x30) as u32;
        i = i + 1;
        if acc > 0x10FFFF {
            proof {
                if forall|j: int| 0 <= j < s.len() ==> 0x30 <= #[trigger] s[j] <= 0x39 {
                    lemma_dec_prefix_grows(s, i as int, s.len() as int);
                }
            }
            return None;
        }
    }
    if !is_xml_char_code(acc) {
        return None;
    }
    char::from_u32(acc)
}

pub(crate) fn bytes_equal(a: &[u8], b: &[u8]) -> (r: bool)
    ensures
        r == (a@ == b@),
{
    if a.len() != b.len() {
        return false;
    }
    let mut i: usize = 0;
    while i < a.len()
        invariant
            a@.len() == b@.len(),
            i <= a@.len(),
            forall|j: int| 0 <= j < i ==> a@[j] == b@[j],
        decreases a@.len() - i,
    {
        if a[i] != b[i] {
            return false;
        }
        i = i + 1;
    }
    assert(a@ =~= b@);
    true
}

/// Whether `name` is one of the five predefined entities.
pub fn is_predefined_entity(name: &str) -> (r: bool)
    ensures
        r == predefined_entity(name.spec_bytes()),
{
    let b = name.as_bytes();
    bytes_equal(b, &AMP_NAME) || bytes_equal(b, &LT_NAME) || bytes_equal(b, &GT_NAME)
        || bytes_equal(b, &APOS_NAME) || bytes_equal(b, &QUOT_NAME)
}

} // verus!
