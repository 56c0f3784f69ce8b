use vstd::prelude::*;
use vstd::string::StringSliceAdditionalSpecFns;

pub mod chars;
pub mod cursor;
pub mod spec;

use crate::text::{byte_len, byte_offset, lemma_byte_len_subrange};
use crate::token::{NumBase, QuoteKind, Token, TokenKind};
use chars::{
    is_ascii_digit, is_ascii_hexdigit, is_emoji, is_emoji_char, is_ident_continue,
    is_ident_continue_char, is_ident_start, is_ident_start_char, is_invalid_ident_continue,
    is_invalid_ident_continue_char, is_whitespace, is_whitespace_char,
};
use cursor::Cursor;
use spec::{
    at, comment_pred, digit_run_char, digits_end, exponent_end, has_digit, ident_continue_pred,
    invalid_ident_pred, keyword_of, lex, lex_from, next_token, number_token,
    run_end, string_scan, symbol_token, whitespace_pred,
};

verus! {

/// Splits `source` into tokens. The tokens are exactly `lex(source@)`: every char of the source
/// belongs to one token, in order.
///
/// The source must not be longer than `u32::MAX` bytes.
pub fn tokenize(source: &str) -> (tokens: Vec<Token>)
    requires
        source.spec_bytes().len() <= u32::MAX,
    ensures
        tokens@ == lex(source@),
{
    let mut cursor = Cursor::new(source);
    let mut tokens: Vec<Token> = Vec::new();
    let ghost s = source@;
    loop
        invariant
            cursor.wf(),
            cursor.src() == s,
            cursor.start == cursor.pos,
            tokens@ + lex_from(s, cursor.pos as int) == lex(s),
        ensures
            tokens@ == lex(s),
        decreases s.len() - cursor.pos,
    {
        let ghost before = cursor.pos as int;
        match advance_token(&mut cursor) {
            Some(token) => {
                proof {
                    assert(tokens@.push(token) + lex_from(s, cursor.pos as int) =~= tokens@ + (seq![
                        token,
                    ] + lex_from(s, cursor.pos as int)));
                }
                tokens.push(token);
            },
            None => {
                proof {
                    assert(lex_from(s, cursor.pos as int) =~= Seq::<Token>::empty());
                    assert(tokens@ + Seq::<Token>::empty() =~= tokens@);
                }
                break;
            },
        }
    }
    tokens
}

/// Reads the token that starts at the cursor, if any chars are left.
fn advance_token(cursor: &mut Cursor) -> (r: Option<Token>)
    requires
        old(cursor).wf(),
        old(cursor).start == old(cursor).pos,
    ensures
        final(cursor).wf(),
        final(cursor).src() == old(cursor).src(),
        final(cursor).start == final(cursor).pos,
        old(cursor).pos < old(cursor).src().len() ==> {
            &&& r is Some
            &&& final(cursor).pos > old(cursor).pos
            &&& lex_from(old(cursor).src(), old(cursor).pos as int) == seq![r->0] + lex_from(
                old(cursor).src(),
                final(cursor).pos as int,
            )
        },
        old(cursor).pos >= old(cursor).src().len() ==> r is None && final(cursor).pos == old(
            cursor,
        ).pos,
{
    let ghost s = cursor.src();
    let ghost i = cursor.pos as int;
    let c = match cursor.next() {
        Some(c) => c,
        None => return None,
    };
    proof {
        spec::lemma_next_token_bounds(s, i);
    }
    let kind = if is_whitespace_char(c) {
        whitespace(cursor)
    } else if is_ident_start_char(c) {
        ident_or_keyword(cursor, c)
    } else if '0' <= c && c <= '9' {
        number(cursor, c)
    } else if c == '"' || c == '\'' {
        string(cursor, c)
    } else if c == '#' {
        comment(cursor)
    } else if c == '+' {
        TokenKind::Plus
    } else if c == '-' {
        let rule = [('>', TokenKind::Arrow)];
        assert(rule@ =~= seq![('>', TokenKind::Arrow)]);
        symbol2(TokenKind::Minus, cursor, rule)
    } else if c == '*' {
        TokenKind::Star
    } else if c == '/' {
        TokenKind::Slash
    } else if c == '%' {
        TokenKind::Percent
    } else if c == '&' {
        TokenKind::Amp
    } else if c == '|' {
        TokenKind::Pipe
    } else if c == '^' {
        TokenKind::Caret
    } else if c == '~' {
        TokenKind::Tilde
    } else if c == '!' {
        let rule = [('=', TokenKind::BangEq)];
        assert(rule@ =~= seq![('=', TokenKind::BangEq)]);
        symbol2(TokenKind::Bang, cursor, rule)
    } else if c == '=' {
        let rule = [('=', TokenKind::Eq2)];
        assert(rule@ =~= seq![('=', TokenKind::Eq2)]);
        symbol2(TokenKind::Eq, cursor, rule)
    } else if c == '<' {
        let rule = [('=', TokenKind::LtEq), ('<', TokenKind::Lt2)];
        assert(rule@ =~= seq![('=', TokenKind::LtEq), ('<', TokenKind::Lt2)]);
        symbol2(TokenKind::Lt, cursor, rule)
    } else if c == '>' {
        let rule = [('=', TokenKind::GtEq), ('>', TokenKind::Gt2)];
        assert(rule@ =~= seq![('=', TokenKind::GtEq), ('>', TokenKind::Gt2)]);
        symbol2(TokenKind::Gt, cursor, rule)
    } else if c == '.' {
        let rule = [('.', TokenKind::Dot2)];
        assert(rule@ =~= seq![('.', TokenKind::Dot2)]);
        symbol2(TokenKind::Dot, cursor, rule)
    } else if c == '@' {
        TokenKind::At
    } else if c == ',' {
        TokenKind::Comma
    } else if c == ':' {
        TokenKind::Colon
    } else if c == '(' {
        TokenKind::OpenParen
    } else if c == ')' {
        TokenKind::CloseParen
    } else if c == '{' {
        TokenKind::OpenBrace
    } else if c == '}' {
        TokenKind::CloseBrace
    } else if c == '[' {
        TokenKind::OpenBracket
    } else if c == ']' {
        TokenKind::CloseBracket
    } else if is_emoji_char(c) {
        invalid_ident(cursor)
    } else {
        TokenKind::Unknown
    };
    proof {
        reveal_with_fuel(spec::rule_lookup, 3);
    }
    assert((kind, cursor.pos as int) == next_token(s, i));
    let ghost e = cursor.pos as int;
    let token = cursor.bump(kind);
    proof {
        lemma_byte_len_subrange(s, i, e);
        assert(lex_from(s, i) == seq![token] + lex_from(s, e));
    }
    Some(token)
}


fn ident_or_keyword(cursor: &mut Cursor, first_char: char) -> (k: TokenKind)
    requires
        old(cursor).wf(),
        old(cursor).pos == old(cursor).start + 1,
        first_char == old(cursor).src()[old(cursor).start as int],
        is_ident_start(first_char),
    ensures
        final(cursor).advanced_from(old(cursor)),
        final(cursor).pos == run_end(old(cursor).src(), old(cursor).pos as int, ident_continue_pred()),
        k == match keyword_of(old(cursor).src().subrange(old(cursor).start as int, final(cursor).pos as int)) {
            Some(kw) => kw,
            None => TokenKind::Ident,
        },
{
    cursor.eat_while(is_ident_continue_char, Ghost(ident_continue_pred()));
    match keyword_kind(&cursor.chars, cursor.start, cursor.pos) {
        Some(kw) => kw,
        None => TokenKind::Ident,
    }
}

/// The keyword spelled by the chars of `chars` from `start` to `end`, if any.
fn keyword_kind(chars: &Vec<char>, start: usize, end: usize) -> (r: Option<TokenKind>)
    requires
        start <= end <= chars@.len(),
    ensures
        r == keyword_of(chars@.subrange(start as int, end as int)),
{
    let ghost w = chars@.subrange(start as int, end as int);
    let n = end - start;
    if n == 4 && chars[start] == 't' && chars[start + 1] == 'r' && chars[start + 2] == 'u' && chars[start + 3] == 'e' {
        assert(w =~= seq!['t', 'r', 'u', 'e']);
        Some(TokenKind::True)
    } else if n == 5 && chars[start] == 'f' && chars[start + 1] == 'a' && chars[start + 2] == 'l' && chars[start + 3] == 's' && chars[start + 4] == 'e' {
        assert(w =~= seq!['f', 'a', 'l', 's', 'e']);
        Some(TokenKind::False)
    } else if n == 3 && chars[start] == 'n' && chars[start + 1] == 'i' && chars[start + 2] == 'l' {
        assert(w =~= seq!['n', 'i', 'l']);
        Some(TokenKind::Nil)
    } else if n == 3 && chars[start] == 'v' && chars[start + 1] == 'a' && chars[start + 2] == 'r' {
        assert(w =~= seq!['v', 'a', 'r']);
        Some(TokenKind::Var)
    } else if n == 4 && chars[start] == 'f' && chars[start + 1] == 'u' && chars[start + 2] == 'n' && chars[start + 3] == 'c' {
        assert(w =~= seq!['f', 'u', 'n', 'c']);
        Some(TokenKind::Func)
    } else if n == 2 && chars[start] == 'i' && chars[start + 1] == 'f' {
        assert(w =~= seq!['i', 'f']);
        Some(TokenKind::If)
    } else if n == 4 && chars[start] == 't' && chars[start + 1] == 'h' && chars[start + 2] == 'e' && chars[start + 3] == 'n' {
        assert(w =~= seq!['t', 'h', 'e', 'n']);
        Some(TokenKind::Then)
    } else if n == 4 && chars[start] == 'e' && chars[start + 1] == 'l' && chars[start + 2] == 'i' && chars[start + 3] == 'f' {
        assert(w =~= seq!['e', 'l', 'i', 'f']);
        Some(TokenKind::Elif)
    } else if n == 4 && chars[start] == 'e' && chars[start + 1] == 'l' && chars[start + 2] == 's' && chars[start + 3] == 'e' {
        assert(w =~= seq!['e', 'l', 's', 'e']);
        Some(TokenKind::Else)
    } else if n == 3 && chars[start] == 'f' && chars[start + 1] == 'o' && chars[start + 2] == 'r' {
        assert(w =~= seq!['f', 'o', 'r']);
        Some(TokenKind::For)
    } else if n == 5 && chars[start] == 'w' && chars[start + 1] == 'h' && chars[start + 2] == 'i' && chars[start + 3] == 'l' && chars[start + 4] == 'e' {
        assert(w =~= seq!['w', 'h', 'i', 'l', 'e']);
        Some(TokenKind::While)
    } else if n == 2 && chars[start] == 'i' && chars[start + 1] == 'n' {
        assert(w =~= seq!['i', 'n']);
        Some(TokenKind::In)
    } else if n == 2 && chars[start] == 'd' && chars[start + 1] == 'o' {
        assert(w =~= seq!['d', 'o']);
        Some(TokenKind::Do)
    } else if n == 3 && chars[start] == 'e' && chars[start + 1] == 'n' && chars[start + 2] == 'd' {
        assert(w =~= seq!['e', 'n', 'd']);
        Some(TokenKind::End)
    } else if n == 6 && chars[start] == 'r' && chars[start + 1] == 'e' && chars[start + 2] == 't' && chars[start + 3] == 'u' && chars[start + 4] == 'r' && chars[start + 5] == 'n' {
        assert(w =~= seq!['r', 'e', 't', 'u', 'r', 'n']);
        Some(TokenKind::Return)
    } else if n == 5 && chars[start] == 'b' && chars[start + 1] == 'r' && chars[start + 2] == 'e' && chars[start + 3] == 'a' && chars[start + 4] == 'k' {
        assert(w =~= seq!['b', 'r', 'e', 'a', 'k']);
        Some(TokenKind::Break)
    } else if n == 8 && chars[start] == 'c' && chars[start + 1] == 'o' && chars[start + 2] == 'n' && chars[start + 3] == 't' && chars[start + 4] == 'i' && chars[start + 5] == 'n' && chars[start + 6] == 'u' && chars[start + 7] == 'e' {
        assert(w =~= seq!['c', 'o', 'n', 't', 'i', 'n', 'u', 'e']);
        Some(TokenKind::Continue)
    } else if n == 3 && chars[start] == 'a' && chars[start + 1] == 'n' && chars[start + 2] == 'd' {
        assert(w =~= seq!['a', 'n', 'd']);
        Some(TokenKind::And)
    } else if n == 2 && chars[start] == 'o' && chars[start + 1] == 'r' {
        assert(w =~= seq!['o', 'r']);
        Some(TokenKind::Or)
    } else if n == 3 && chars[start] == 'n' && chars[start + 1] == 'o' && chars[start + 2] == 't' {
        assert(w =~= seq!['n', 'o', 't']);
        Some(TokenKind::Not)
    } else {
        None
    }
}

/// Reads a run of digits (hexadecimal ones if `hex`) and underscores. Returns whether it held a
/// digit.
fn eat_digits(cursor: &mut Cursor, hex: bool) -> (has_digits: bool)
    requires
        old(cursor).wf(),
    ensures
        final(cursor).advanced_from(old(cursor)),
        final(cursor).pos == digits_end(old(cursor).src(), old(cursor).pos as int, hex),
        has_digits == has_digit(old(cursor).src(), old(cursor).pos as int, final(cursor).pos as int, hex),
{
    let ghost s = cursor.src();
    let ghost first = cursor.pos as int;
    let mut has_digits = false;
    loop
        invariant_except_break
            cursor.advanced_from(old(cursor)),
            s == cursor.src(),
            first == old(cursor).pos,
            digits_end(s, first, hex) == digits_end(s, cursor.pos as int, hex),
            has_digits == has_digit(s, first, cursor.pos as int, hex),
        ensures
            cursor.advanced_from(old(cursor)),
            cursor.pos == digits_end(s, first, hex),
            has_digits == has_digit(s, first, cursor.pos as int, hex),
        decreases s.len() - cursor.pos,
    {
        match cursor.peek() {
            Some(c) => {
                let is_digit = if hex {
                    ('0' <= c && c <= '9') || ('a' <= c && c <= 'f') || ('A' <= c && c <= 'F')
                } else {
                    '0' <= c && c <= '9'
                };
                if c == '_' || is_digit {
                    let ghost p = cursor.pos as int;
                    cursor.next();
                    if is_digit {
                        has_digits = true;
                    }
                    proof {
                        assert(s[p] == c);
                        if is_digit {
                            assert(has_digit(s, first, cursor.pos as int, hex));
                        } else {
                            assert forall|k: int| first <= k < cursor.pos && 0 <= k < s.len()
                                && #[trigger] s[k] != '_' && digit_run_char(hex)(s[k]) implies first <= k < p by {}
                        }
                    }
                } else {
                    break;
                }
            },
            None => break,
        }
    }
    has_digits
}

fn eat_decimal_digits(cursor: &mut Cursor) -> (has_digits: bool)
    requires
        old(cursor).wf(),
    ensures
        final(cursor).advanced_from(old(cursor)),
        final(cursor).pos == digits_end(old(cursor).src(), old(cursor).pos as int, false),
        has_digits == has_digit(old(cursor).src(), old(cursor).pos as int, final(cursor).pos as int, false),
{
    eat_digits(cursor, false)
}

fn eat_hexadecimal_digits(cursor: &mut Cursor) -> (has_digits: bool)
    requires
        old(cursor).wf(),
    ensures
        final(cursor).advanced_from(old(cursor)),
        final(cursor).pos == digits_end(old(cursor).src(), old(cursor).pos as int, true),
        has_digits == has_digit(old(cursor).src(), old(cursor).pos as int, final(cursor).pos as int, true),
{
    eat_digits(cursor, true)
}

/// Reads the exponent of a float, beginning with its `e` or `E`. Returns whether it has digits.
fn eat_float_exponent(cursor: &mut Cursor) -> (has_digits: bool)
    requires
        old(cursor).wf(),
        at(old(cursor).src(), old(cursor).pos as int, 'e') || at(old(cursor).src(), old(cursor).pos as int, 'E'),
    ensures
        final(cursor).advanced_from(old(cursor)),
        (final(cursor).pos as int, has_digits) == exponent_end(old(cursor).src(), old(cursor).pos as int),
{
    cursor.next();
    match cursor.peek() {
        Some(c) => {
            if c == '-' || c == '+' {
                cursor.next();
            }
        },
        None => {},
    }
    eat_decimal_digits(cursor)
}

/// Reads what follows the integer part of a number: a fraction and an exponent, if any.
fn number_tail(cursor: &mut Cursor, base: NumBase) -> (k: TokenKind)
    requires
        old(cursor).wf(),
    ensures
        final(cursor).advanced_from(old(cursor)),
        (k, final(cursor).pos as int) == spec::number_tail(old(cursor).src(), base, old(cursor).pos as int),
{
    let ghost s = cursor.src();
    match cursor.peek() {
        Some('.') => {
            cursor.next();
            let empty_exponent = match cursor.peek() {
                Some(c) => {
                    if '0' <= c && c <= '9' {
                        eat_decimal_digits(cursor);
                        match cursor.peek() {
                            Some(e) => {
                                if e == 'e' || e == 'E' {
                                    !eat_float_exponent(cursor)
                                } else {
                                    false
                                }
                            },
                            None => false,
                        }
                    } else {
                        true
                    }
                },
                None => true,
            };
            TokenKind::Float { base, empty_exponent }
        },
        Some(e) => {
            if e == 'e' || e == 'E' {
                TokenKind::Float { base, empty_exponent: !eat_float_exponent(cursor) }
            } else {
                TokenKind::Int { base, empty_int: false }
            }
        },
        None => TokenKind::Int { base, empty_int: false },
    }
}

fn number(cursor: &mut Cursor, first_digit: char) -> (k: TokenKind)
    requires
        old(cursor).wf(),
        old(cursor).pos == old(cursor).start + 1,
        first_digit == old(cursor).src()[old(cursor).start as int],
        is_ascii_digit(first_digit),
    ensures
        final(cursor).advanced_from(old(cursor)),
        (k, final(cursor).pos as int) == number_token(old(cursor).src(), old(cursor).start as int),
{
    let mut base = NumBase::Decimal;
    if first_digit == '0' {
        match cursor.peek() {
            Some(c) => {
                if c == 'b' || c == 'o' {
                    base = if c == 'b' { NumBase::Binary } else { NumBase::Octal };
                    cursor.next();
                    if !eat_decimal_digits(cursor) {
                        return TokenKind::Int { base, empty_int: true };
                    }
                } else if c == 'x' {
                    base = NumBase::Hexadecimal;
                    cursor.next();
                    if !eat_hexadecimal_digits(cursor) {
                        return TokenKind::Int { base, empty_int: true };
                    }
                } else if ('0' <= c && c <= '9') || c == '_' {
                    eat_decimal_digits(cursor);
                } else if c == '.' || c == 'e' || c == 'E' {
                } else {
                    return TokenKind::Int { base, empty_int: true };
                }
            },
            None => {
                return TokenKind::Int { base, empty_int: true };
            },
        }
    } else {
        eat_decimal_digits(cursor);
    }
    number_tail(cursor, base)
}

fn string(cursor: &mut Cursor, quote: char) -> (k: TokenKind)
    requires
        old(cursor).wf(),
        old(cursor).pos == old(cursor).start + 1,
        quote == old(cursor).src()[old(cursor).start as int],
        quote == '"' || quote == '\'',
    ensures
        final(cursor).advanced_from(old(cursor)),
        ({
            let (e, terminated) = string_scan(old(cursor).src(), old(cursor).pos as int, quote);
            &&& final(cursor).pos == e
            &&& k == TokenKind::String {
                terminated,
                quote_kind: if quote == '"' { QuoteKind::Double } else { QuoteKind::Single },
            }
        }),
{
    let ghost s = cursor.src();
    let ghost first = cursor.pos as int;
    let mut terminated = false;
    loop
        invariant_except_break
            cursor.advanced_from(old(cursor)),
            s == cursor.src(),
            first == old(cursor).pos,
            !terminated,
            string_scan(s, first, quote) == string_scan(s, cursor.pos as int, quote),
        ensures
            cursor.advanced_from(old(cursor)),
            string_scan(s, first, quote) == (cursor.pos as int, terminated),
        decreases s.len() - cursor.pos,
    {
        match cursor.next() {
            Some(c) => {
                if c == '\\' {
                    match cursor.peek() {
                        Some(p) => {
                            if p == quote || p == '\\' {
                                cursor.next();
                            }
                        },
                        None => {},
                    }
                } else if c == quote {
                    terminated = true;
                    break;
                }
            },
            None => break,
        }
    }
    let quote_kind = if quote == '"' {
        QuoteKind::Double
    } else {
        QuoteKind::Single
    };
    TokenKind::String { terminated, quote_kind }
}

/// A one-char symbol `default`, or the two-char symbol of the first rule whose char comes next.
fn symbol2<const N: usize>(default: TokenKind, cursor: &mut Cursor, rule: [(char, TokenKind); N]) -> (k: TokenKind)
    requires
        old(cursor).wf(),
    ensures
        final(cursor).advanced_from(old(cursor)),
        ({
            let s = old(cursor).src();
            let p = old(cursor).pos as int;
            if p < s.len() && spec::rule_lookup(rule@, s[p]) is Some {
                k == spec::rule_lookup(rule@, s[p])->0 && final(cursor).pos == p + 1
            } else {
                k == default && final(cursor).pos == p
            }
        }),
{
    let ghost s = cursor.src();
    match cursor.peek() {
        Some(peek) => {
            let mut i: usize = 0;
            assert(rule@.skip(0) =~= rule@);
            while i < N
                invariant
                    0 <= i <= N,
                    rule@.len() == N,
                    cursor.wf(),
                    *cursor == *old(cursor),
                    s == cursor.src(),
                    cursor.pos < s.len(),
                    peek == s[cursor.pos as int],
                    spec::rule_lookup(rule@, peek) == spec::rule_lookup(rule@.skip(i as int), peek),
                decreases N - i,
            {
                let (c, kind) = rule[i];
                proof {
                    assert(rule@.skip(i as int)[0] == rule@[i as int]);
                    assert(rule@.skip(i as int).drop_first() =~= rule@.skip(i + 1));
                }
                if c == peek {
                    cursor.next();
                    return kind;
                }
                i = i + 1;
            }
            assert(rule@.skip(N as int).len() == 0);
            default
        },
        None => default,
    }
}

fn whitespace(cursor: &mut Cursor) -> (k: TokenKind)
    requires
        old(cursor).wf(),
        old(cursor).pos == old(cursor).start + 1,
        is_whitespace(old(cursor).src()[old(cursor).start as int]),
    ensures
        final(cursor).advanced_from(old(cursor)),
        k == TokenKind::Whitespace,
        final(cursor).pos == run_end(old(cursor).src(), old(cursor).pos as int, whitespace_pred()),
{
    cursor.eat_while(
        is_whitespace_char,
        Ghost(whitespace_pred()),
    );
    TokenKind::Whitespace
}

/// Whether `c` is not a line feed.
fn is_not_newline(c: char) -> (r: bool)
    ensures
        r == (c != '\n'),
{
    c != '\n'
}

fn comment(cursor: &mut Cursor) -> (k: TokenKind)
    requires
        old(cursor).wf(),
        old(cursor).pos == old(cursor).start + 1,
        old(cursor).src()[old(cursor).start as int] == '#',
    ensures
        final(cursor).advanced_from(old(cursor)),
        k == TokenKind::LineComment,
        final(cursor).pos == run_end(old(cursor).src(), old(cursor).pos as int, comment_pred()),
{
    cursor.eat_while(
        is_not_newline,
        Ghost(comment_pred()),
    );
    TokenKind::LineComment
}

fn invalid_ident(cursor: &mut Cursor) -> (k: TokenKind)
    requires
        old(cursor).wf(),
        old(cursor).pos == old(cursor).start + 1,
        is_emoji(old(cursor).src()[old(cursor).start as int]),
    ensures
        final(cursor).advanced_from(old(cursor)),
        k == TokenKind::InvalidIdent,
        final(cursor).pos == run_end(
            old(cursor).src(),
            old(cursor).pos as int,
            invalid_ident_pred(),
        ),
{
    cursor.eat_while(
        is_invalid_ident_continue_char,
        Ghost(invalid_ident_pred()),
    );
    TokenKind::InvalidIdent
}

} // verus!
