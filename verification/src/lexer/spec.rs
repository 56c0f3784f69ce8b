use super::chars::{
    is_ascii_digit, is_ascii_hexdigit, is_emoji, is_ident_continue, is_ident_start,
    is_invalid_ident_continue, is_whitespace,
};
use crate::text::{
    byte_len, byte_offset, lemma_byte_len_subrange, lemma_byte_offset_full, lemma_byte_offset_mono,
    lemma_byte_offset_step,
};
use crate::token::{NumBase, QuoteKind, Token, TokenKind};
use vstd::prelude::*;

verus! {

/// Whether position `i` of `s` holds the char `c`.
pub open spec fn at(s: Seq<char>, i: int, c: char) -> bool {
    0 <= i < s.len() && s[i] == c
}

/// The end of the longest run of chars satisfying `p` that starts at `i`.
pub open spec fn run_end(s: Seq<char>, i: int, p: spec_fn(char) -> bool) -> int
    decreases s.len() - i,
{
    if 0 <= i < s.len() && p(s[i]) {
        run_end(s, i + 1, p)
    } else {
        i
    }
}

/// Whitespace chars.
pub open spec fn whitespace_pred() -> spec_fn(char) -> bool {
    |c: char| is_whitespace(c)
}

/// Chars that continue an identifier.
pub open spec fn ident_continue_pred() -> spec_fn(char) -> bool {
    |c: char| is_ident_continue(c)
}

/// Chars of a line comment: anything but a line feed.
pub open spec fn comment_pred() -> spec_fn(char) -> bool {
    |c: char| c != '\n'
}

/// Chars that continue an invalid identifier.
pub open spec fn invalid_ident_pred() -> spec_fn(char) -> bool {
    |c: char| is_invalid_ident_continue(c)
}

/// Chars of a digit run: underscores and (hexadecimal, if `hex`) digits.
pub open spec fn digit_run_char(hex: bool) -> spec_fn(char) -> bool {
    |c: char| c == '_' || (if hex { is_ascii_hexdigit(c) } else { is_ascii_digit(c) })
}

/// The end of the run of digits and underscores that starts at `i`.
pub open spec fn digits_end(s: Seq<char>, i: int, hex: bool) -> int {
    run_end(s, i, digit_run_char(hex))
}

/// Whether a (hexadecimal, if `hex`) digit lies between `i` and `j`.
pub open spec fn has_digit(s: Seq<char>, i: int, j: int, hex: bool) -> bool {
    exists|k: int|
        i <= k < j && 0 <= k < s.len() && #[trigger] s[k] != '_' && digit_run_char(hex)(s[k])
}

/// The exponent part of a float that begins with `e` or `E` at `i`: its end and whether it has
/// digits.
pub open spec fn exponent_end(s: Seq<char>, i: int) -> (int, bool) {
    let a = i + 1;
    let b = if at(s, a, '-') || at(s, a, '+') { a + 1 } else { a };
    let c = digits_end(s, b, false);
    (c, has_digit(s, b, c, false))
}

/// The tail of a number after its integer part, which ends at `pos`.
pub open spec fn number_tail(s: Seq<char>, base: NumBase, pos: int) -> (TokenKind, int) {
    if at(s, pos, '.') {
        let q = pos + 1;
        if 0 <= q < s.len() && is_ascii_digit(s[q]) {
            let r = digits_end(s, q, false);
            if at(s, r, 'e') || at(s, r, 'E') {
                let (e, has) = exponent_end(s, r);
                (TokenKind::Float { base, empty_exponent: !has }, e)
            } else {
                (TokenKind::Float { base, empty_exponent: false }, r)
            }
        } else {
            (TokenKind::Float { base, empty_exponent: true }, q)
        }
    } else if at(s, pos, 'e') || at(s, pos, 'E') {
        let (e, has) = exponent_end(s, pos);
        (TokenKind::Float { base, empty_exponent: !has }, e)
    } else {
        (TokenKind::Int { base, empty_int: false }, pos)
    }
}

/// A number literal whose first digit is at `i`.
///
/// A leading `0` may be followed by a base prefix `b`, `o` (decimal digits follow) or `x`
/// (hexadecimal digits follow); a prefix with no digit after it, or a lone `0` that is not
/// followed by a digit, `_`, `.`, `e` or `E`, gives an `Int` with `empty_int`.
pub open spec fn number_token(s: Seq<char>, i: int) -> (TokenKind, int) {
    let j = i + 1;
    if s[i] == '0' {
        if at(s, j, 'b') || at(s, j, 'o') || at(s, j, 'x') {
            let base = if at(s, j, 'b') {
                NumBase::Binary
            } else if at(s, j, 'o') {
                NumBase::Octal
            } else {
                NumBase::Hexadecimal
            };
            let hex = at(s, j, 'x');
            let e = digits_end(s, j + 1, hex);
            if !has_digit(s, j + 1, e, hex) {
                (TokenKind::Int { base, empty_int: true }, e)
            } else {
                number_tail(s, base, e)
            }
        } else if 0 <= j < s.len() && (is_ascii_digit(s[j]) || s[j] == '_') {
            number_tail(s, NumBase::Decimal, digits_end(s, j, false))
        } else if at(s, j, '.') || at(s, j, 'e') || at(s, j, 'E') {
            number_tail(s, NumBase::Decimal, j)
        } else {
            (TokenKind::Int { base: NumBase::Decimal, empty_int: true }, j)
        }
    } else {
        number_tail(s, NumBase::Decimal, digits_end(s, j, false))
    }
}

/// The body of a string literal quoted by `q`, from `i` on: its end and whether the closing
/// quote was found. A backslash escapes a following quote or backslash.
pub open spec fn string_scan(s: Seq<char>, i: int, q: char) -> (int, bool)
    decreases s.len() - i,
{
    if i < 0 || i >= s.len() {
        (i, false)
    } else if s[i] == '\\' {
        if i + 1 < s.len() && (s[i + 1] == q || s[i + 1] == '\\') {
            string_scan(s, i + 2, q)
        } else {
            string_scan(s, i + 1, q)
        }
    } else if s[i] == q {
        (i + 1, true)
    } else {
        string_scan(s, i + 1, q)
    }
}

/// The keyword spelled by `w`, if any.
pub open spec fn keyword_of(w: Seq<char>) -> Option<TokenKind> {
    if w =~= seq!['t', 'r', 'u', 'e'] {
        Some(TokenKind::True)
    } else if w =~= seq!['f', 'a', 'l', 's', 'e'] {
        Some(TokenKind::False)
    } else if w =~= seq!['n', 'i', 'l'] {
        Some(TokenKind::Nil)
    } else if w =~= seq!['v', 'a', 'r'] {
        Some(TokenKind::Var)
    } else if w =~= seq!['f', 'u', 'n', 'c'] {
        Some(TokenKind::Func)
    } else if w =~= seq!['i', 'f'] {
        Some(TokenKind::If)
    } else if w =~= seq!['t', 'h', 'e', 'n'] {
        Some(TokenKind::Then)
    } else if w =~= seq!['e', 'l', 'i', 'f'] {
        Some(TokenKind::Elif)
    } else if w =~= seq!['e', 'l', 's', 'e'] {
        Some(TokenKind::Else)
    } else if w =~= seq!['f', 'o', 'r'] {
        Some(TokenKind::For)
    } else if w =~= seq!['w', 'h', 'i', 'l', 'e'] {
        Some(TokenKind::While)
    } else if w =~= seq!['i', 'n'] {
        Some(TokenKind::In)
    } else if w =~= seq!['d', 'o'] {
        Some(TokenKind::Do)
    } else if w =~= seq!['e', 'n', 'd'] {
        Some(TokenKind::End)
    } else if w =~= seq!['r', 'e', 't', 'u', 'r', 'n'] {
        Some(TokenKind::Return)
    } else if w =~= seq!['b', 'r', 'e', 'a', 'k'] {
        Some(TokenKind::Break)
    } else if w =~= seq!['c', 'o', 'n', 't', 'i', 'n', 'u', 'e'] {
        Some(TokenKind::Continue)
    } else if w =~= seq!['a', 'n', 'd'] {
        Some(TokenKind::And)
    } else if w =~= seq!['o', 'r'] {
        Some(TokenKind::Or)
    } else if w =~= seq!['n', 'o', 't'] {
        Some(TokenKind::Not)
    } else {
        None
    }
}

/// The punctuation token that the char `c` at `i` begins, if any, with its end. Two-char
/// symbols take the second char when it follows.
pub open spec fn symbol_token(s: Seq<char>, i: int) -> Option<(TokenKind, int)> {
    let c = s[i];
    let j = i + 1;
    if c == '+' {
        Some((TokenKind::Plus, j))
    } else if c == '-' {
        Some(if at(s, j, '>') { (TokenKind::Arrow, j + 1) } else { (TokenKind::Minus, j) })
    } else if c == '*' {
        Some((TokenKind::Star, j))
    } else if c == '/' {
        Some((TokenKind::Slash, j))
    } else if c == '%' {
        Some((TokenKind::Percent, j))
    } else if c == '&' {
        Some((TokenKind::Amp, j))
    } else if c == '|' {
        Some((TokenKind::Pipe, j))
    } else if c == '^' {
        Some((TokenKind::Caret, j))
    } else if c == '~' {
        Some((TokenKind::Tilde, j))
    } else if c == '!' {
        Some(if at(s, j, '=') { (TokenKind::BangEq, j + 1) } else { (TokenKind::Bang, j) })
    } else if c == '=' {
        Some(if at(s, j, '=') { (TokenKind::Eq2, j + 1) } else { (TokenKind::Eq, j) })
    } else if c == '<' {
        Some(
            if at(s, j, '=') {
                (TokenKind::LtEq, j + 1)
            } else if at(s, j, '<') {
                (TokenKind::Lt2, j + 1)
            } else {
                (TokenKind::Lt, j)
            },
        )
    } else if c == '>' {
        Some(
            if at(s, j, '=') {
                (TokenKind::GtEq, j + 1)
            } else if at(s, j, '>') {
                (TokenKind::Gt2, j + 1)
            } else {
                (TokenKind::Gt, j)
            },
        )
    } else if c == '.' {
        Some(if at(s, j, '.') { (TokenKind::Dot2, j + 1) } else { (TokenKind::Dot, j) })
    } else if c == '@' {
        Some((TokenKind::At, j))
    } else if c == ',' {
        Some((TokenKind::Comma, j))
    } else if c == ':' {
        Some((TokenKind::Colon, j))
    } else if c == '(' {
        Some((TokenKind::OpenParen, j))
    } else if c == ')' {
        Some((TokenKind::CloseParen, j))
    } else if c == '{' {
        Some((TokenKind::OpenBrace, j))
    } else if c == '}' {
        Some((TokenKind::CloseBrace, j))
    } else if c == '[' {
        Some((TokenKind::OpenBracket, j))
    } else if c == ']' {
        Some((TokenKind::CloseBracket, j))
    } else {
        None
    }
}

/// The kind and the end (a char position) of the token that starts at position `i` of `s`.
pub open spec fn next_token(s: Seq<char>, i: int) -> (TokenKind, int)
    recommends
        0 <= i < s.len(),
{
    let c = s[i];
    let j = i + 1;
    if is_whitespace(c) {
        (TokenKind::Whitespace, run_end(s, j, whitespace_pred()))
    } else if is_ident_start(c) {
        let e = run_end(s, j, ident_continue_pred());
        match keyword_of(s.subrange(i, e)) {
            Some(k) => (k, e),
            None => (TokenKind::Ident, e),
        }
    } else if is_ascii_digit(c) {
        number_token(s, i)
    } else if c == '"' || c == '\'' {
        let (e, terminated) = string_scan(s, j, c);
        let quote_kind = if c == '"' { QuoteKind::Double } else { QuoteKind::Single };
        (TokenKind::String { terminated, quote_kind }, e)
    } else if c == '#' {
        (TokenKind::LineComment, run_end(s, j, comment_pred()))
    } else if symbol_token(s, i) is Some {
        symbol_token(s, i)->0
    } else if is_emoji(c) {
        (TokenKind::InvalidIdent, run_end(s, j, invalid_ident_pred()))
    } else {
        (TokenKind::Unknown, j)
    }
}

/// The tokens of `s` from char position `i` on. Each token's length is the number of bytes of
/// its text in UTF-8.
pub open spec fn lex_from(s: Seq<char>, i: int) -> Seq<Token>
    decreases s.len() - i,
{
    if 0 <= i < s.len() {
        let (kind, e) = next_token(s, i);
        if i < e <= s.len() {
            seq![Token { kind, len: byte_len(s.subrange(i, e)) as u32 }] + lex_from(s, e)
        } else {
            Seq::empty()
        }
    } else {
        Seq::empty()
    }
}

/// The tokens of the whole of `s`.
pub open spec fn lex(s: Seq<char>) -> Seq<Token> {
    lex_from(s, 0)
}

/// The sum of the lengths of `ts`.
pub open spec fn total_len(ts: Seq<Token>) -> nat
    decreases ts.len(),
{
    if ts.len() == 0 {
        0
    } else {
        ts[0].len as nat + total_len(ts.drop_first())
    }
}

} // verus!

verus! {

pub proof fn lemma_run_end_bounds(s: Seq<char>, i: int, p: spec_fn(char) -> bool)
    requires
        0 <= i <= s.len(),
    ensures
        i <= run_end(s, i, p) <= s.len(),
    decreases s.len() - i,
{
    if i < s.len() && p(s[i]) {
        lemma_run_end_bounds(s, i + 1, p);
    }
}

pub proof fn lemma_string_scan_bounds(s: Seq<char>, i: int, q: char)
    requires
        0 <= i <= s.len(),
    ensures
        i <= string_scan(s, i, q).0 <= s.len(),
    decreases s.len() - i,
{
    if i < s.len() {
        if s[i] == '\\' {
            if i + 1 < s.len() && (s[i + 1] == q || s[i + 1] == '\\') {
                lemma_string_scan_bounds(s, i + 2, q);
            } else {
                lemma_string_scan_bounds(s, i + 1, q);
            }
        } else if s[i] != q {
            lemma_string_scan_bounds(s, i + 1, q);
        }
    }
}

proof fn lemma_number_tail_bounds(s: Seq<char>, base: NumBase, pos: int)
    requires
        0 <= pos <= s.len(),
    ensures
        pos <= number_tail(s, base, pos).1 <= s.len(),
{
    if at(s, pos, '.') {
        let q = pos + 1;
        if 0 <= q < s.len() && is_ascii_digit(s[q]) {
            let r = digits_end(s, q, false);
            lemma_run_end_bounds(s, q, digit_run_char(false));
            if at(s, r, 'e') || at(s, r, 'E') {
                let a = r + 1;
                let b = if at(s, a, '-') || at(s, a, '+') { a + 1 } else { a };
                lemma_run_end_bounds(s, b, digit_run_char(false));
            }
        }
    } else if at(s, pos, 'e') || at(s, pos, 'E') {
        let a = pos + 1;
        let b = if at(s, a, '-') || at(s, a, '+') { a + 1 } else { a };
        lemma_run_end_bounds(s, b, digit_run_char(false));
    }
}

proof fn lemma_number_bounds(s: Seq<char>, i: int)
    requires
        0 <= i < s.len(),
    ensures
        i < number_token(s, i).1 <= s.len(),
{
    let j = i + 1;
    if s[i] == '0' {
        if at(s, j, 'b') || at(s, j, 'o') || at(s, j, 'x') {
            let hex = at(s, j, 'x');
            lemma_run_end_bounds(s, j + 1, digit_run_char(hex));
            let e = digits_end(s, j + 1, hex);
            let base = if at(s, j, 'b') {
                NumBase::Binary
            } else if at(s, j, 'o') {
                NumBase::Octal
            } else {
                NumBase::Hexadecimal
            };
            lemma_number_tail_bounds(s, base, e);
        } else if 0 <= j < s.len() && (is_ascii_digit(s[j]) || s[j] == '_') {
            lemma_run_end_bounds(s, j, digit_run_char(false));
            lemma_number_tail_bounds(s, NumBase::Decimal, digits_end(s, j, false));
        } else if at(s, j, '.') || at(s, j, 'e') || at(s, j, 'E') {
            lemma_number_tail_bounds(s, NumBase::Decimal, j);
        }
    } else {
        lemma_run_end_bounds(s, j, digit_run_char(false));
        lemma_number_tail_bounds(s, NumBase::Decimal, digits_end(s, j, false));
    }
}

/// Every token is made of at least one char, and ends within the source.
pub proof fn lemma_next_token_bounds(s: Seq<char>, i: int)
    requires
        0 <= i < s.len(),
    ensures
        i < next_token(s, i).1 <= s.len(),
{
    let c = s[i];
    let j = i + 1;
    lemma_run_end_bounds(s, j, whitespace_pred());
    lemma_run_end_bounds(s, j, ident_continue_pred());
    lemma_run_end_bounds(s, j, comment_pred());
    lemma_run_end_bounds(s, j, invalid_ident_pred());
    lemma_string_scan_bounds(s, j, c);
    if !is_whitespace(c) && !is_ident_start(c) && is_ascii_digit(c) {
        lemma_number_bounds(s, i);
    }
}

} // verus!

verus! {

/// The kind of the first rule of `rule` whose char is `c`.
pub open spec fn rule_lookup(rule: Seq<(char, TokenKind)>, c: char) -> Option<TokenKind>
    decreases rule.len(),
{
    if rule.len() == 0 {
        None
    } else if rule[0].0 == c {
        Some(rule[0].1)
    } else {
        rule_lookup(rule.drop_first(), c)
    }
}

} // verus!

verus! {

proof fn lemma_lex_from_covers(s: Seq<char>, i: int)
    requires
        0 <= i <= s.len(),
        byte_len(s) <= u32::MAX,
    ensures
        total_len(lex_from(s, i)) + byte_offset(s, i) == byte_len(s),
        forall|k: int| 0 <= k < lex_from(s, i).len() ==> #[trigger] lex_from(s, i)[k].len > 0,
    decreases s.len() - i,
{
    lemma_byte_offset_full(s);
    if i < s.len() {
        lemma_next_token_bounds(s, i);
        let (kind, e) = next_token(s, i);
        lemma_lex_from_covers(s, e);
        lemma_byte_len_subrange(s, i, e);
        lemma_byte_offset_mono(s, e, s.len() as int);
        lemma_byte_offset_mono(s, i + 1, e);
        lemma_byte_offset_step(s, i);
        let t = Token { kind, len: byte_len(s.subrange(i, e)) as u32 };
        let rest = lex_from(s, e);
        assert(lex_from(s, i) == seq![t] + rest);
        assert((seq![t] + rest).drop_first() =~= rest);
        assert forall|k: int| 0 <= k < lex_from(s, i).len() implies #[trigger] lex_from(
            s,
            i,
        )[k].len > 0 by {
            if k > 0 {
                assert(lex_from(s, i)[k] == rest[k - 1]);
            }
        }
    } else {
        assert(s.take(s.len() as int) =~= s);
    }
}

/// The tokens of a source tile it: their lengths add up to the source's length in bytes, and
/// no token is empty.
pub proof fn lemma_tokens_cover_source(s: Seq<char>)
    requires
        byte_len(s) <= u32::MAX,
    ensures
        total_len(lex(s)) == byte_len(s),
        forall|k: int| 0 <= k < lex(s).len() ==> #[trigger] lex(s)[k].len > 0,
{
    lemma_lex_from_covers(s, 0);
    assert(s.take(0) =~= Seq::<char>::empty());
}

} // verus!

verus! {

/// `b` is a byte offset of `s` where a char begins or the text ends.
pub open spec fn is_char_offset(s: Seq<char>, b: int) -> bool {
    exists|p: int| 0 <= p <= s.len() && #[trigger] byte_offset(s, p) == b
}

proof fn lemma_lex_from_boundaries(s: Seq<char>, i: int, k: int)
    requires
        0 <= i <= s.len(),
        0 <= k <= lex_from(s, i).len(),
        byte_len(s) <= u32::MAX,
    ensures
        is_char_offset(s, (byte_offset(s, i) + total_len(lex_from(s, i).take(k))) as int),
    decreases s.len() - i,
{
    if k == 0 {
        assert(lex_from(s, i).take(0) =~= Seq::<Token>::empty());
        assert(byte_offset(s, i) + total_len(lex_from(s, i).take(k)) == byte_offset(s, i));
    } else {
        lemma_byte_offset_full(s);
        lemma_next_token_bounds(s, i);
        let (kind, e) = next_token(s, i);
        lemma_byte_len_subrange(s, i, e);
        let t = Token { kind, len: byte_len(s.subrange(i, e)) as u32 };
        let rest = lex_from(s, e);
        assert(lex_from(s, i) == seq![t] + rest);
        lemma_byte_offset_mono(s, e, s.len() as int);
        lemma_lex_from_covers(s, i);
        lemma_lex_from_boundaries(s, e, k - 1);
        let pre = lex_from(s, i).take(k);
        assert(pre.drop_first() =~= rest.take(k - 1));
        assert(total_len(pre) == t.len + total_len(rest.take(k - 1)));
        lemma_byte_offset_mono(s, i, e);
        assert(t.len as int == byte_offset(s, e) - byte_offset(s, i));
    }
}

/// Every boundary between tokens falls between chars: the sum of the lengths of the first `k`
/// tokens of a source is the byte offset of a char of it, or its end.
pub proof fn lemma_token_boundaries_are_char_boundaries(s: Seq<char>, k: int)
    requires
        byte_len(s) <= u32::MAX,
        0 <= k <= lex(s).len(),
    ensures
        is_char_offset(s, total_len(lex(s).take(k)) as int),
{
    lemma_lex_from_boundaries(s, 0, k);
    assert(s.take(0) =~= Seq::<char>::empty());
}

} // verus!

verus! {

/// The run that `run_end` finds is the longest: every char in it satisfies `p`, and the char
/// after it, if any, does not.
pub proof fn lemma_run_end_longest(s: Seq<char>, i: int, p: spec_fn(char) -> bool)
    requires
        0 <= i <= s.len(),
    ensures
        i <= run_end(s, i, p) <= s.len(),
        forall|k: int| i <= k < run_end(s, i, p) ==> p(#[trigger] s[k]),
        run_end(s, i, p) < s.len() ==> !p(s[run_end(s, i, p)]),
    decreases s.len() - i,
{
    if i < s.len() && p(s[i]) {
        lemma_run_end_longest(s, i + 1, p);
    }
}

/// A token that begins with a char that may begin an identifier (and is no whitespace) is the
/// longest run of identifier chars from there: all of it continues an identifier, and the char
/// after it does not. It is the keyword that its text spells, if any, and else an identifier.
/// Lexing from there gives that one token, over exactly that run, and goes on right after it.
pub proof fn law_identifier_is_longest_run(s: Seq<char>, i: int)
    requires
        0 <= i < s.len(),
        is_ident_start(s[i]),
        !is_whitespace(s[i]),
    ensures
        ({
            let (kind, e) = next_token(s, i);
            &&& i < e <= s.len()
            &&& forall|k: int| i < k < e ==> is_ident_continue(#[trigger] s[k])
            &&& (e < s.len() ==> !is_ident_continue(s[e]))
            &&& kind == match keyword_of(s.subrange(i, e)) {
                Some(k) => k,
                None => TokenKind::Ident,
            }
            &&& lex_from(s, i) == seq![Token { kind, len: byte_len(s.subrange(i, e)) as u32 }]
                + lex_from(s, e)
        }),
{
    lemma_run_end_longest(s, i + 1, ident_continue_pred());
    let e = run_end(s, i + 1, ident_continue_pred());
    assert forall|k: int| i < k < e implies is_ident_continue(#[trigger] s[k]) by {
        assert(ident_continue_pred()(s[k]));
    }
    if e < s.len() {
        assert(!ident_continue_pred()(s[e]));
    }
}

} // verus!

verus! {

/// Over a stretch of string body with no quote `q` and no backslash, the scan just moves on.
proof fn lemma_string_scan_plain(s: Seq<char>, i: int, n: int, q: char)
    requires
        0 <= i,
        0 <= n,
        i + n <= s.len(),
        forall|k: int| i <= k < i + n ==> #[trigger] s[k] != q && s[k] != '\\',
    ensures
        string_scan(s, i, q) == string_scan(s, i + n, q),
    decreases n,
{
    if n > 0 {
        assert(s[i] != q && s[i] != '\\');
        lemma_string_scan_plain(s, i + 1, n - 1, q);
    }
}

/// A backslash before the quote char escapes it: the literal goes on past it. For a body text
/// `t` with no quote `q` and no backslash, `q t \q t q` lexes as one string literal, closed,
/// over the whole text, of the kind of quote it opens with.
pub proof fn law_escaped_quote_stays_in_string(t: Seq<char>, q: char)
    requires
        q == '"' || q == '\'',
        forall|k: int| 0 <= k < t.len() ==> #[trigger] t[k] != q && t[k] != '\\',
    ensures
        ({
            let s = seq![q] + t + seq!['\\', q] + t + seq![q];
            lex(s) == seq![
                Token {
                    kind: TokenKind::String {
                        terminated: true,
                        quote_kind: if q == '"' { QuoteKind::Double } else { QuoteKind::Single },
                    },
                    len: byte_len(s) as u32,
                },
            ]
        }),
{
    let s = seq![q] + t + seq!['\\', q] + t + seq![q];
    let n = t.len() as int;
    assert(s.len() == 2 * n + 4);
    assert(s[0] == q);
    assert forall|k: int| 1 <= k < 1 + n implies #[trigger] s[k] != q && s[k] != '\\' by {
        assert(s[k] == t[k - 1]);
    }
    lemma_string_scan_plain(s, 1, n, q);
    assert(s[1 + n] == '\\');
    assert(s[2 + n] == q);
    assert forall|k: int| 3 + n <= k < 3 + 2 * n implies #[trigger] s[k] != q && s[k] != '\\' by {
        assert(s[k] == t[k - 3 - n]);
    }
    lemma_string_scan_plain(s, 3 + n, n, q);
    assert(s[3 + 2 * n] == q);
    assert(string_scan(s, 3 + 2 * n, q) == (4 + 2 * n, true));
    assert(string_scan(s, 1 + n, q) == string_scan(s, 3 + n, q));
    assert(string_scan(s, 1, q) == (s.len() as int, true));
    assert(!is_whitespace(q));
    assert(!is_ident_start(q));
    assert(!is_ascii_digit(q));
    assert(s.subrange(0, s.len() as int) =~= s);
    assert(lex_from(s, s.len() as int) == Seq::<Token>::empty());
    assert(lex(s) =~= seq![
        Token {
            kind: TokenKind::String {
                terminated: true,
                quote_kind: if q == '"' { QuoteKind::Double } else { QuoteKind::Single },
            },
            len: byte_len(s) as u32,
        },
    ]);
}

} // verus!

verus! {

/// A backslash before a backslash escapes it, so the quote after them closes the literal: for
/// a body text `t` with no quote `q` and no backslash, `q t \\ q` lexes as one string literal,
/// closed, over the whole text.
pub proof fn law_escaped_backslash_then_quote_closes(t: Seq<char>, q: char)
    requires
        q == '"' || q == '\'',
        forall|k: int| 0 <= k < t.len() ==> #[trigger] t[k] != q && t[k] != '\\',
    ensures
        ({
            let s = seq![q] + t + seq!['\\', '\\', q];
            lex(s) == seq![
                Token {
                    kind: TokenKind::String {
                        terminated: true,
                        quote_kind: if q == '"' { QuoteKind::Double } else { QuoteKind::Single },
                    },
                    len: byte_len(s) as u32,
                },
            ]
        }),
{
    let s = seq![q] + t + seq!['\\', '\\', q];
    let n = t.len() as int;
    assert(s.len() == n + 4);
    assert(s[0] == q);
    assert forall|k: int| 1 <= k < 1 + n implies #[trigger] s[k] != q && s[k] != '\\' by {
        assert(s[k] == t[k - 1]);
    }
    lemma_string_scan_plain(s, 1, n, q);
    assert(s[1 + n] == '\\');
    assert(s[2 + n] == '\\');
    assert(s[3 + n] == q);
    assert(string_scan(s, 3 + n, q) == (4 + n, true));
    assert(string_scan(s, 1 + n, q) == string_scan(s, 3 + n, q));
    assert(!is_whitespace(q));
    assert(!is_ident_start(q));
    assert(!is_ascii_digit(q));
    assert(s.subrange(0, s.len() as int) =~= s);
    assert(lex_from(s, s.len() as int) == Seq::<Token>::empty());
    assert(lex(s) =~= seq![
        Token {
            kind: TokenKind::String {
                terminated: true,
                quote_kind: if q == '"' { QuoteKind::Double } else { QuoteKind::Single },
            },
            len: byte_len(s) as u32,
        },
    ]);
}

/// A literal that no quote closes runs to the end of the text: for a body text `t` with no
/// quote `q` and no backslash, `q t` lexes as one string literal, not closed, over the whole
/// text.
pub proof fn law_unclosed_string_runs_to_end(t: Seq<char>, q: char)
    requires
        q == '"' || q == '\'',
        forall|k: int| 0 <= k < t.len() ==> #[trigger] t[k] != q && t[k] != '\\',
    ensures
        ({
            let s = seq![q] + t;
            lex(s) == seq![
                Token {
                    kind: TokenKind::String {
                        terminated: false,
                        quote_kind: if q == '"' { QuoteKind::Double } else { QuoteKind::Single },
                    },
                    len: byte_len(s) as u32,
                },
            ]
        }),
{
    let s = seq![q] + t;
    let n = t.len() as int;
    assert(s.len() == n + 1);
    assert(s[0] == q);
    assert forall|k: int| 1 <= k < 1 + n implies #[trigger] s[k] != q && s[k] != '\\' by {
        assert(s[k] == t[k - 1]);
    }
    lemma_string_scan_plain(s, 1, n, q);
    assert(string_scan(s, 1 + n, q) == (1 + n, false));
    assert(!is_whitespace(q));
    assert(!is_ident_start(q));
    assert(!is_ascii_digit(q));
    assert(s.subrange(0, s.len() as int) =~= s);
    assert(lex_from(s, s.len() as int) == Seq::<Token>::empty());
    assert(lex(s) =~= seq![
        Token {
            kind: TokenKind::String {
                terminated: false,
                quote_kind: if q == '"' { QuoteKind::Double } else { QuoteKind::Single },
            },
            len: byte_len(s) as u32,
        },
    ]);
}

} // verus!

verus! {

/// How each punctuation token is written.
pub open spec fn symbol_spelling(k: TokenKind) -> Option<Seq<char>> {
    match k {
        TokenKind::Plus => Some(seq!['+']),
        TokenKind::Minus => Some(seq!['-']),
        TokenKind::Arrow => Some(seq!['-', '>']),
        TokenKind::Star => Some(seq!['*']),
        TokenKind::Slash => Some(seq!['/']),
        TokenKind::Percent => Some(seq!['%']),
        TokenKind::Amp => Some(seq!['&']),
        TokenKind::Pipe => Some(seq!['|']),
        TokenKind::Caret => Some(seq!['^']),
        TokenKind::Tilde => Some(seq!['~']),
        TokenKind::Bang => Some(seq!['!']),
        TokenKind::BangEq => Some(seq!['!', '=']),
        TokenKind::Eq => Some(seq!['=']),
        TokenKind::Eq2 => Some(seq!['=', '=']),
        TokenKind::Lt => Some(seq!['<']),
        TokenKind::LtEq => Some(seq!['<', '=']),
        TokenKind::Lt2 => Some(seq!['<', '<']),
        TokenKind::Gt => Some(seq!['>']),
        TokenKind::GtEq => Some(seq!['>', '=']),
        TokenKind::Gt2 => Some(seq!['>', '>']),
        TokenKind::Dot => Some(seq!['.']),
        TokenKind::Dot2 => Some(seq!['.', '.']),
        TokenKind::At => Some(seq!['@']),
        TokenKind::Comma => Some(seq![',']),
        TokenKind::Colon => Some(seq![':']),
        TokenKind::OpenParen => Some(seq!['(']),
        TokenKind::CloseParen => Some(seq![')']),
        TokenKind::OpenBrace => Some(seq!['{']),
        TokenKind::CloseBrace => Some(seq!['}']),
        TokenKind::OpenBracket => Some(seq!['[']),
        TokenKind::CloseBracket => Some(seq![']']),
        _ => None,
    }
}

/// A punctuation token is what its text spells: the kind that the lexer gives a punctuation
/// token is the one written exactly as the chars it covers, one or two.
pub proof fn law_symbol_kind_is_its_spelling(s: Seq<char>, i: int)
    requires
        0 <= i < s.len(),
        symbol_token(s, i) is Some,
    ensures
        ({
            let (k, e) = symbol_token(s, i)->0;
            &&& i < e <= s.len()
            &&& symbol_spelling(k) == Some(s.subrange(i, e))
        }),
{
    let (k, e) = symbol_token(s, i)->0;
    assert(i < e <= s.len());
    assert(s.subrange(i, e) =~= symbol_spelling(k)->0);
}

/// Each punctuation token's spelling, alone, is read as that token, over all of it.
pub proof fn law_symbol_spelling_reads_back(k: TokenKind)
    requires
        symbol_spelling(k) is Some,
    ensures
        symbol_token(symbol_spelling(k)->0, 0) == Some((k, (symbol_spelling(k)->0).len() as int)),
{
}

/// How each keyword is written.
pub open spec fn keyword_spelling(k: TokenKind) -> Option<Seq<char>> {
    match k {
        TokenKind::True => Some(seq!['t', 'r', 'u', 'e']),
        TokenKind::False => Some(seq!['f', 'a', 'l', 's', 'e']),
        TokenKind::Nil => Some(seq!['n', 'i', 'l']),
        TokenKind::Var => Some(seq!['v', 'a', 'r']),
        TokenKind::Func => Some(seq!['f', 'u', 'n', 'c']),
        TokenKind::If => Some(seq!['i', 'f']),
        TokenKind::Then => Some(seq!['t', 'h', 'e', 'n']),
        TokenKind::Elif => Some(seq!['e', 'l', 'i', 'f']),
        TokenKind::Else => Some(seq!['e', 'l', 's', 'e']),
        TokenKind::For => Some(seq!['f', 'o', 'r']),
        TokenKind::While => Some(seq!['w', 'h', 'i', 'l', 'e']),
        TokenKind::In => Some(seq!['i', 'n']),
        TokenKind::Do => Some(seq!['d', 'o']),
        TokenKind::End => Some(seq!['e', 'n', 'd']),
        TokenKind::Return => Some(seq!['r', 'e', 't', 'u', 'r', 'n']),
        TokenKind::Break => Some(seq!['b', 'r', 'e', 'a', 'k']),
        TokenKind::Continue => Some(seq!['c', 'o', 'n', 't', 'i', 'n', 'u', 'e']),
        TokenKind::And => Some(seq!['a', 'n', 'd']),
        TokenKind::Or => Some(seq!['o', 'r']),
        TokenKind::Not => Some(seq!['n', 'o', 't']),
        _ => None,
    }
}

/// A word is a keyword exactly when it is how that keyword is written: the keyword a word
/// is written as is that keyword, and each keyword's spelling is read as that keyword.
pub proof fn law_keyword_is_its_spelling(w: Seq<char>, k: TokenKind)
    ensures
        keyword_of(w) is Some ==> keyword_spelling(keyword_of(w)->0) == Some(w),
        keyword_spelling(k) is Some ==> keyword_of(keyword_spelling(k)->0) == Some(k),
{
    if keyword_of(w) is Some {
        assert(w =~= keyword_spelling(keyword_of(w)->0)->0);
    }
    if keyword_spelling(k) is Some {
        let v = keyword_spelling(k)->0;
        assert(v.len() >= 2);
        assert(v[0] == (keyword_spelling(k)->0)[0]);
    }
}

} // verus!

verus! {

/// A run of chars that all satisfy `p` up to the end of the text runs to the end.
proof fn lemma_run_to_end(s: Seq<char>, i: int, p: spec_fn(char) -> bool)
    requires
        0 <= i <= s.len(),
        forall|k: int| i <= k < s.len() ==> p(#[trigger] s[k]),
    ensures
        run_end(s, i, p) == s.len(),
    decreases s.len() - i,
{
    if i < s.len() {
        lemma_run_to_end(s, i + 1, p);
    }
}

/// A single token over the whole of `s`.
proof fn lemma_one_token(s: Seq<char>)
    requires
        s.len() > 0,
        next_token(s, 0).1 == s.len(),
    ensures
        lex(s) == seq![Token { kind: next_token(s, 0).0, len: byte_len(s) as u32 }],
{
    assert(s.subrange(0, s.len() as int) =~= s);
    assert(lex_from(s, s.len() as int) == Seq::<Token>::empty());
    assert(lex(s) =~= seq![Token { kind: next_token(s, 0).0, len: byte_len(s) as u32 }]);
}

/// Decimal digits that do not begin with `0` are one decimal integer literal, over all of
/// them.
pub proof fn law_decimal_digits_are_one_int(d: Seq<char>)
    requires
        d.len() > 0,
        d[0] != '0',
        forall|k: int| 0 <= k < d.len() ==> is_ascii_digit(#[trigger] d[k]),
    ensures
        lex(d) == seq![
            Token {
                kind: TokenKind::Int { base: NumBase::Decimal, empty_int: false },
                len: byte_len(d) as u32,
            },
        ],
{
    assert(is_ascii_digit(d[0]));
    lemma_run_to_end(d, 1, digit_run_char(false));
    assert(next_token(d, 0) == (TokenKind::Int { base: NumBase::Decimal, empty_int: false }, d.len() as int));
    lemma_one_token(d);
}

/// `0b`, `0o` or `0x`, then digits (hexadecimal digits after `0x`), is one integer literal
/// of that base (binary, octal, hexadecimal), over all of it.
pub proof fn law_prefixed_digits_are_one_int(p: char, h: Seq<char>)
    requires
        p == 'b' || p == 'o' || p == 'x',
        h.len() > 0,
        forall|k: int| 0 <= k < h.len() ==> (if p == 'x' {
            is_ascii_hexdigit(#[trigger] h[k])
        } else {
            is_ascii_digit(h[k])
        }),
    ensures
        lex(seq!['0', p] + h) == seq![
            Token {
                kind: TokenKind::Int {
                    base: if p == 'b' {
                        NumBase::Binary
                    } else if p == 'o' {
                        NumBase::Octal
                    } else {
                        NumBase::Hexadecimal
                    },
                    empty_int: false,
                },
                len: byte_len(seq!['0', p] + h) as u32,
            },
        ],
{
    let s = seq!['0', p] + h;
    let hex = p == 'x';
    assert forall|k: int| 2 <= k < s.len() implies digit_run_char(hex)(#[trigger] s[k]) by {
        assert(s[k] == h[k - 2]);
    }
    lemma_run_to_end(s, 2, digit_run_char(hex));
    assert(s[2] == h[0]);
    assert(s[2] != '_' && digit_run_char(hex)(s[2]));
    assert(has_digit(s, 2, s.len() as int, hex));
    lemma_one_token(s);
}

/// Decimal digits not beginning with `0`, a `.`, and decimal digits are one float literal,
/// over all of it.
pub proof fn law_digits_dot_digits_are_one_float(a: Seq<char>, b: Seq<char>)
    requires
        a.len() > 0,
        a[0] != '0',
        b.len() > 0,
        forall|k: int| 0 <= k < a.len() ==> is_ascii_digit(#[trigger] a[k]),
        forall|k: int| 0 <= k < b.len() ==> is_ascii_digit(#[trigger] b[k]),
    ensures
        lex(a + seq!['.'] + b) == seq![
            Token {
                kind: TokenKind::Float { base: NumBase::Decimal, empty_exponent: false },
                len: byte_len(a + seq!['.'] + b) as u32,
            },
        ],
{
    let s = a + seq!['.'] + b;
    let n = a.len() as int;
    assert(s[0] == a[0]);
    assert(is_ascii_digit(s[0]));
    assert forall|k: int| 1 <= k < n implies digit_run_char(false)(#[trigger] s[k]) by {
        assert(s[k] == a[k]);
    }
    assert(s[n] == '.');
    assert(!digit_run_char(false)(s[n]));
    lemma_run_end_stops(s, 1, n, digit_run_char(false));
    assert forall|k: int| n + 1 <= k < s.len() implies digit_run_char(false)(#[trigger] s[k]) by {
        assert(s[k] == b[k - n - 1]);
    }
    lemma_run_to_end(s, n + 1, digit_run_char(false));
    assert(s[n + 1] == b[0]);
    lemma_one_token(s);
}

/// A run of chars satisfying `p` from `i` that stops at `j`, where `p` fails, ends at `j`.
proof fn lemma_run_end_stops(s: Seq<char>, i: int, j: int, p: spec_fn(char) -> bool)
    requires
        0 <= i <= j < s.len(),
        forall|k: int| i <= k < j ==> p(#[trigger] s[k]),
        !p(s[j]),
    ensures
        run_end(s, i, p) == j,
    decreases j - i,
{
    if i < j {
        lemma_run_end_stops(s, i + 1, j, p);
    }
}

} // verus!

verus! {

/// A `#` begins a line comment that runs up to the end of its line, the line feed left out:
/// for a text `t` with no line feed, `# t` is one comment token over all of it, and `# t` then
/// a line feed is that comment, then the line feed as whitespace.
pub proof fn law_comment_runs_to_end_of_line(t: Seq<char>)
    requires
        forall|k: int| 0 <= k < t.len() ==> #[trigger] t[k] != '\n',
    ensures
        lex(seq!['#'] + t) == seq![
            Token { kind: TokenKind::LineComment, len: byte_len(seq!['#'] + t) as u32 },
        ],
        lex(seq!['#'] + t + seq!['\n']) == seq![
            Token { kind: TokenKind::LineComment, len: byte_len(seq!['#'] + t) as u32 },
            Token { kind: TokenKind::Whitespace, len: byte_len(seq!['\n']) as u32 },
        ],
{
    let s = seq!['#'] + t;
    assert forall|k: int| 1 <= k < s.len() implies comment_pred()(#[trigger] s[k]) by {
        assert(s[k] == t[k - 1]);
    }
    lemma_run_to_end(s, 1, comment_pred());
    assert(!is_whitespace('#'));
    assert(!is_ident_start('#'));
    lemma_one_token(s);
    let u = s + seq!['\n'];
    let n = s.len() as int;
    assert forall|k: int| 1 <= k < n implies comment_pred()(#[trigger] u[k]) by {
        assert(u[k] == t[k - 1]);
    }
    assert(u[n] == '\n');
    lemma_run_end_stops(u, 1, n, comment_pred());
    assert(u.subrange(0, n) =~= s);
    assert(is_whitespace('\n'));
    assert(run_end(u, n + 1, whitespace_pred()) == n + 1);
    assert(u.subrange(n, n + 1) =~= seq!['\n']);
    assert(lex_from(u, n + 1) == Seq::<Token>::empty());
    assert(lex_from(u, n) =~= seq![Token { kind: TokenKind::Whitespace, len: byte_len(seq!['\n']) as u32 }]);
    assert(lex(u) =~= seq![
        Token { kind: TokenKind::LineComment, len: byte_len(s) as u32 },
        Token { kind: TokenKind::Whitespace, len: byte_len(seq!['\n']) as u32 },
    ]);
}

} // verus!
