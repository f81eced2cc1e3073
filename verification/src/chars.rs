//! Character classification: the Unicode character classes the lexer
//! dispatches on, and the ASCII predicates of the numeral grammar.

use vstd::prelude::*;

verus! {

/// Whether a character has the Unicode `White_Space` property.
pub uninterp spec fn unicode_ws(c: char) -> bool;

/// Whether a character is in the Unicode `XID_Start` class.
pub uninterp spec fn xid_start(c: char) -> bool;

/// Whether a character is in the Unicode `XID_Continue` class.
pub uninterp spec fn xid_continue(c: char) -> bool;

/// Relies on char::is_whitespace: a lookup of the Unicode `White_Space`
/// property, a function of the character alone.
#[verifier::external_body]
pub fn is_unicode_whitespace(c: char) -> (r: bool)
    ensures
        r == unicode_ws(c),
{
    c.is_whitespace()
}

/// Relies on unicode_xid's UnicodeXID::is_xid_start: a lookup of the Unicode
/// `XID_Start` property, a function of the character alone.
#[verifier::external_body]
pub fn is_xid_start_char(c: char) -> (r: bool)
    ensures
        r == xid_start(c),
{
    unicode_xid::UnicodeXID::is_xid_start(c)
}

/// Relies on unicode_xid's UnicodeXID::is_xid_continue: a lookup of the
/// Unicode `XID_Continue` property, a function of the character alone.
#[verifier::external_body]
pub fn is_xid_continue_char(c: char) -> (r: bool)
    ensures
        r == xid_continue(c),
{
    unicode_xid::UnicodeXID::is_xid_continue(c)
}

/// A decimal digit.
pub open spec fn is_digit_char(c: char) -> bool {
    48 <= c as u32 && c as u32 <= 57
}

/// A hexadecimal digit, either case.
pub open spec fn is_hex_digit_char(c: char) -> bool {
    is_digit_char(c) || (97 <= c as u32 && c as u32 <= 102) || (65 <= c as u32 && c as u32 <= 70)
}

/// The numeric value of a hexadecimal digit.
pub open spec fn hex_digit_val(c: char) -> nat {
    if is_digit_char(c) {
        (c as u32 - 48) as nat
    } else if 97 <= c as u32 && c as u32 <= 102 {
        (c as u32 - 87) as nat
    } else if 65 <= c as u32 && c as u32 <= 70 {
        (c as u32 - 55) as nat
    } else {
        0
    }
}

/// The fixed escape repertoire accepted after a backslash in a quoted
/// string. Decimal-digit escapes are not part of it: this lexer rejects
/// them as invalid escapes.
pub open spec fn is_escape_char(c: char) -> bool {
    c == 'a' || c == 'b' || c == 'f' || c == 'n' || c == 'r' || c == 't' || c == 'v' || c == '\\'
        || c == '"' || c == '\''
}

pub fn digit_char(c: char) -> (r: bool)
    ensures
        r == is_digit_char(c),
{
    let u = c as u32;
    48 <= u && u <= 57
}

pub fn hex_digit_char(c: char) -> (r: bool)
    ensures
        r == is_hex_digit_char(c),
{
    let u = c as u32;
    (48 <= u && u <= 57) || (97 <= u && u <= 102) || (65 <= u && u <= 70)
}

pub fn hex_digit_value(c: char) -> (v: u32)
    requires
        is_hex_digit_char(c),
    ensures
        v == hex_digit_val(c),
        v < 16,
{
    let u = c as u32;
    if u <= 57 {
        u - 48
    } else if u >= 97 {
        u - 87
    } else {
        u - 55
    }
}

/// The character a byte of the legacy code page stands for: the 0x80–0x9F
/// control range maps through the code page's printable-symbols table, and
/// every other byte maps to the code point of its own value.
pub open spec fn win1252(b: u8) -> char {
    if b == 0x80 {
        '\u{20ac}'
    } else if b == 0x82 {
        '\u{201a}'
    } else if b == 0x83 {
        '\u{0192}'
    } else if b == 0x84 {
        '\u{201e}'
    } else if b == 0x85 {
        '\u{2026}'
    } else if b == 0x86 {
        '\u{2020}'
    } else if b == 0x87 {
        '\u{2021}'
    } else if b == 0x88 {
        '\u{02c6}'
    } else if b == 0x89 {
        '\u{2030}'
    } else if b == 0x8a {
        '\u{0160}'
    } else if b == 0x8b {
        '\u{2039}'
    } else if b == 0x8c {
        '\u{0152}'
    } else if b == 0x8e {
        '\u{017d}'
    } else if b == 0x91 {
        '\u{2018}'
    } else if b == 0x92 {
        '\u{2019}'
    } else if b == 0x93 {
        '\u{201c}'
    } else if b == 0x94 {
        '\u{201d}'
    } else if b == 0x95 {
        '\u{2022}'
    } else if b == 0x96 {
        '\u{2013}'
    } else if b == 0x97 {
        '\u{2014}'
    } else if b == 0x98 {
        '\u{02dc}'
    } else if b == 0x99 {
        '\u{2122}'
    } else if b == 0x9a {
        '\u{0161}'
    } else if b == 0x9b {
        '\u{203a}'
    } else if b == 0x9c {
        '\u{0153}'
    } else if b == 0x9e {
        '\u{017e}'
    } else if b == 0x9f {
        '\u{0178}'
    } else {
        b as char
    }
}

/// Decode one byte of the legacy code page.
pub fn win1252_char_decode(b: u8) -> (c: char)
    ensures
        c == win1252(b),
{
    match b {
        0x80 => '\u{20ac}',
        0x82 => '\u{201a}',
        0x83 => '\u{0192}',
        0x84 => '\u{201e}',
        0x85 => '\u{2026}',
        0x86 => '\u{2020}',
        0x87 => '\u{2021}',
        0x88 => '\u{02c6}',
        0x89 => '\u{2030}',
        0x8a => '\u{0160}',
        0x8b => '\u{2039}',
        0x8c => '\u{0152}',
        0x8e => '\u{017d}',
        0x91 => '\u{2018}',
        0x92 => '\u{2019}',
        0x93 => '\u{201c}',
        0x94 => '\u{201d}',
        0x95 => '\u{2022}',
        0x96 => '\u{2013}',
        0x97 => '\u{2014}',
        0x98 => '\u{02dc}',
        0x99 => '\u{2122}',
        0x9a => '\u{0161}',
        0x9b => '\u{203a}',
        0x9c => '\u{0153}',
        0x9e => '\u{017e}',
        0x9f => '\u{0178}',
        _ => b as char,
    }
}

pub fn escape_char(c: char) -> (r: bool)
    ensures
        r == is_escape_char(c),
{
    c == 'a' || c == 'b' || c == 'f' || c == 'n' || c == 'r' || c == 't' || c == 'v' || c == '\\'
        || c == '"' || c == '\''
}

} // verus!
