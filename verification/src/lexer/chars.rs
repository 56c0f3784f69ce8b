use unicode_properties::UnicodeEmoji;
use vstd::prelude::*;

verus! {

/// Whether `c` is ASCII.
pub open spec fn is_ascii_char(c: char) -> bool {
    (c as u32) <= 0x7f
}

/// ASCII letters `A`-`Z` and `a`-`z`.
pub open spec fn is_ascii_letter(c: char) -> bool {
    ('A' <= c && c <= 'Z') || ('a' <= c && c <= 'z')
}

/// ASCII digits `0`-`9`.
pub open spec fn is_ascii_digit(c: char) -> bool {
    '0' <= c && c <= '9'
}

/// ASCII hexadecimal digits.
pub open spec fn is_ascii_hexdigit(c: char) -> bool {
    is_ascii_digit(c) || ('a' <= c && c <= 'f') || ('A' <= c && c <= 'F')
}

/// Whitespace as Lico reads it: the ASCII controls U+0009 to U+000D, NEL, the two direction
/// marks, and the Unicode space, line and paragraph separators.
pub open spec fn is_whitespace(c: char) -> bool {
    ||| ('\u{0009}' <= c && c <= '\u{000D}')
    ||| c == '\u{0085}'
    ||| c == '\u{200E}'
    ||| c == '\u{200F}'
    ||| c == '\u{0020}'
    ||| c == '\u{00A0}'
    ||| c == '\u{1680}'
    ||| ('\u{2000}' <= c && c <= '\u{200A}')
    ||| c == '\u{202F}'
    ||| c == '\u{205F}'
    ||| c == '\u{3000}'
    ||| c == '\u{2028}'
    ||| c == '\u{2029}'
}

/// Whether `c` has the Unicode property XID_Start, as `unicode_ident` computes it.
pub uninterp spec fn xid_start(c: char) -> bool;

/// Whether `c` has the Unicode property XID_Continue, as `unicode_ident` computes it.
pub uninterp spec fn xid_continue(c: char) -> bool;

/// Whether `c` has the Unicode property Emoji=Yes, as `unicode_properties` computes it.
pub uninterp spec fn emoji_char(c: char) -> bool;

/// A char that may begin an identifier: `_`, an ASCII letter, or a non-ASCII char with the
/// property XID_Start.
pub open spec fn is_ident_start(c: char) -> bool {
    ||| c == '_'
    ||| if is_ascii_char(c) {
        is_ascii_letter(c)
    } else {
        xid_start(c)
    }
}

/// A char that may continue an identifier: an ASCII letter, digit or `_`, or a non-ASCII char
/// with the property XID_Continue.
pub open spec fn is_ident_continue(c: char) -> bool {
    if is_ascii_char(c) {
        is_ascii_letter(c) || is_ascii_digit(c) || c == '_'
    } else {
        xid_continue(c)
    }
}

/// A non-ASCII emoji char: it begins an invalid identifier.
pub open spec fn is_emoji(c: char) -> bool {
    !is_ascii_char(c) && emoji_char(c)
}

/// A char that continues an invalid identifier.
pub open spec fn is_invalid_ident_continue(c: char) -> bool {
    is_ident_continue(c) || is_emoji(c) || c == '\u{200D}'
}

/// `unicode_ident::is_xid_start`. Its result is named `xid_start`; its source answers ASCII
/// chars from a table that holds exactly the ASCII letters. Nothing is stated of other chars.
#[verifier::external_body]
fn unicode_is_xid_start(c: char) -> (r: bool)
    ensures
        r == xid_start(c),
        is_ascii_char(c) ==> (r <==> is_ascii_letter(c)),
{
    unicode_ident::is_xid_start(c)
}

/// `unicode_ident::is_xid_continue`. Its result is named `xid_continue`; its source answers
/// ASCII chars from a table that holds exactly the ASCII letters, the digits and `_`.
/// Nothing is stated of other chars.
#[verifier::external_body]
fn unicode_is_xid_continue(c: char) -> (r: bool)
    ensures
        r == xid_continue(c),
        is_ascii_char(c) ==> (r <==> (is_ascii_letter(c) || is_ascii_digit(c) || c == '_')),
{
    unicode_ident::is_xid_continue(c)
}

/// `unicode_properties::UnicodeEmoji::is_emoji_char` on a `char`. Its result is named
/// `emoji_char`; nothing more is stated of it.
#[verifier::external_body]
fn unicode_is_emoji_char(c: char) -> (r: bool)
    ensures
        r == emoji_char(c),
{
    c.is_emoji_char()
}

pub fn is_whitespace_char(c: char) -> (r: bool)
    ensures
        r == is_whitespace(c),
{
    ('\u{0009}' <= c && c <= '\u{000D}') || c == '\u{0085}' || c == '\u{200E}' || c == '\u{200F}'
        || c == '\u{0020}' || c == '\u{00A0}' || c == '\u{1680}' || ('\u{2000}' <= c && c
        <= '\u{200A}') || c == '\u{202F}' || c == '\u{205F}' || c == '\u{3000}' || c == '\u{2028}'
        || c == '\u{2029}'
}

pub fn is_ident_start_char(c: char) -> (r: bool)
    ensures
        r == is_ident_start(c),
{
    c == '_' || unicode_is_xid_start(c)
}

pub fn is_ident_continue_char(c: char) -> (r: bool)
    ensures
        r == is_ident_continue(c),
{
    unicode_is_xid_continue(c)
}

pub fn is_emoji_char(c: char) -> (r: bool)
    ensures
        r == is_emoji(c),
{
    (c as u32) > 0x7f && unicode_is_emoji_char(c)
}

pub fn is_invalid_ident_continue_char(c: char) -> (r: bool)
    ensures
        r == is_invalid_ident_continue(c),
{
    is_ident_continue_char(c) || is_emoji_char(c) || c == '\u{200D}'
}

} // verus!
