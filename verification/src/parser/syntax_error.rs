use super::state::Message;
use crate::syntax_kind::SyntaxKind;
use crate::token::{QuoteKind, TokenKind};
use crate::lexer::spec::{keyword_spelling, symbol_spelling};
use vstd::prelude::*;

verus! {

/// The syntax kind of a token of kind `kind`, and the message of the error that the token
/// reports, if it reports one.
pub open spec fn converted(kind: TokenKind) -> (SyntaxKind, Option<&'static str>) {
    match kind {
        TokenKind::LineComment => (SyntaxKind::COMMENT, None),
        TokenKind::Whitespace => (SyntaxKind::WHITESPACE, None),
        TokenKind::Int { base: _, empty_int } => (
            SyntaxKind::INT,
            if empty_int { Some("Missing digits after the integer base prefix") } else { None },
        ),
        TokenKind::Float { base: _, empty_exponent } => (
            SyntaxKind::FLOAT,
            if empty_exponent { Some("Missing digits after the exponent symbol") } else { None },
        ),
        TokenKind::String { terminated, quote_kind } => (
            SyntaxKind::STRING,
            if terminated {
                None
            } else {
                match quote_kind {
                    QuoteKind::Single => Some("Missing trailing `'` symbol to terminate the string literal"),
                    QuoteKind::Double => Some("Missing trailing `\"` symbol to terminate the string literal"),
                }
            },
        ),
        TokenKind::True => (SyntaxKind::TRUE, None),
        TokenKind::False => (SyntaxKind::FALSE, None),
        TokenKind::Nil => (SyntaxKind::NIL, None),
        TokenKind::Var => (SyntaxKind::VAR_KW, None),
        TokenKind::Func => (SyntaxKind::FUNC_KW, None),
        TokenKind::If => (SyntaxKind::IF_KW, None),
        TokenKind::Then => (SyntaxKind::THEN_KW, None),
        TokenKind::Elif => (SyntaxKind::ELIF_KW, None),
        TokenKind::Else => (SyntaxKind::ELSE_KW, None),
        TokenKind::For => (SyntaxKind::FOR_KW, None),
        TokenKind::While => (SyntaxKind::WHILE_KW, None),
        TokenKind::In => (SyntaxKind::IN_KW, None),
        TokenKind::Do => (SyntaxKind::DO_KW, None),
        TokenKind::End => (SyntaxKind::END_KW, None),
        TokenKind::Return => (SyntaxKind::RETURN_KW, None),
        TokenKind::Break => (SyntaxKind::BREAK_KW, None),
        TokenKind::Continue => (SyntaxKind::CONTINUE_KW, None),
        TokenKind::And => (SyntaxKind::AND_KW, None),
        TokenKind::Or => (SyntaxKind::OR_KW, None),
        TokenKind::Not => (SyntaxKind::NOT_KW, None),
        TokenKind::Plus => (SyntaxKind::PLUS, None),
        TokenKind::Minus => (SyntaxKind::MINUS, None),
        TokenKind::Star => (SyntaxKind::STAR, None),
        TokenKind::Slash => (SyntaxKind::SLASH, None),
        TokenKind::Percent => (SyntaxKind::PERCENT, None),
        TokenKind::Amp => (SyntaxKind::AMP, None),
        TokenKind::Pipe => (SyntaxKind::PIPE, None),
        TokenKind::Caret => (SyntaxKind::CARET, None),
        TokenKind::Tilde => (SyntaxKind::TILDE, None),
        TokenKind::Bang => (SyntaxKind::BANG, None),
        TokenKind::Eq => (SyntaxKind::EQ, None),
        TokenKind::Lt => (SyntaxKind::LT, None),
        TokenKind::Gt => (SyntaxKind::GT, None),
        TokenKind::Dot => (SyntaxKind::DOT, None),
        TokenKind::At => (SyntaxKind::AT, None),
        TokenKind::Comma => (SyntaxKind::COMMA, None),
        TokenKind::Colon => (SyntaxKind::COLON, None),
        TokenKind::OpenParen => (SyntaxKind::OPENPAREN, None),
        TokenKind::CloseParen => (SyntaxKind::CLOSEPAREN, None),
        TokenKind::OpenBrace => (SyntaxKind::OPENBRACE, None),
        TokenKind::CloseBrace => (SyntaxKind::CLOSEBRACE, None),
        TokenKind::OpenBracket => (SyntaxKind::OPENBRACKET, None),
        TokenKind::CloseBracket => (SyntaxKind::CLOSEBRACKET, None),
        TokenKind::Arrow => (SyntaxKind::ARROW, None),
        TokenKind::BangEq => (SyntaxKind::BANGEQ, None),
        TokenKind::Eq2 => (SyntaxKind::EQ2, None),
        TokenKind::Lt2 => (SyntaxKind::LT2, None),
        TokenKind::LtEq => (SyntaxKind::LTEQ, None),
        TokenKind::Gt2 => (SyntaxKind::GT2, None),
        TokenKind::GtEq => (SyntaxKind::GTEQ, None),
        TokenKind::Dot2 => (SyntaxKind::DOT2, None),
        TokenKind::Ident => (SyntaxKind::IDENT, None),
        TokenKind::InvalidIdent => (SyntaxKind::IDENT, Some("Identifiers contains invalid characters")),
        TokenKind::Unknown => (SyntaxKind::ERROR, None),
    }
}

/// The syntax kind of a token, and the message of the error that the token reports if it is
/// malformed (an empty number, an unterminated string, an invalid identifier).
pub fn convert_kind(kind: TokenKind) -> (r: (SyntaxKind, Option<&'static str>))
    ensures
        r == converted(kind),
{
    match kind {
        TokenKind::LineComment => (SyntaxKind::COMMENT, None),
        TokenKind::Whitespace => (SyntaxKind::WHITESPACE, None),
        TokenKind::Int { base: _, empty_int } => (
            SyntaxKind::INT,
            if empty_int { Some("Missing digits after the integer base prefix") } else { None },
        ),
        TokenKind::Float { base: _, empty_exponent } => (
            SyntaxKind::FLOAT,
            if empty_exponent { Some("Missing digits after the exponent symbol") } else { None },
        ),
        TokenKind::String { terminated, quote_kind } => (
            SyntaxKind::STRING,
            if terminated {
                None
            } else {
                match quote_kind {
                    QuoteKind::Single => Some("Missing trailing `'` symbol to terminate the string literal"),
                    QuoteKind::Double => Some("Missing trailing `\"` symbol to terminate the string literal"),
                }
            },
        ),
        TokenKind::True => (SyntaxKind::TRUE, None),
        TokenKind::False => (SyntaxKind::FALSE, None),
        TokenKind::Nil => (SyntaxKind::NIL, None),
        TokenKind::Var => (SyntaxKind::VAR_KW, None),
        TokenKind::Func => (SyntaxKind::FUNC_KW, None),
        TokenKind::If => (SyntaxKind::IF_KW, None),
        TokenKind::Then => (SyntaxKind::THEN_KW, None),
        TokenKind::Elif => (SyntaxKind::ELIF_KW, None),
        TokenKind::Else => (SyntaxKind::ELSE_KW, None),
        TokenKind::For => (SyntaxKind::FOR_KW, None),
        TokenKind::While => (SyntaxKind::WHILE_KW, None),
        TokenKind::In => (SyntaxKind::IN_KW, None),
        TokenKind::Do => (SyntaxKind::DO_KW, None),
        TokenKind::End => (SyntaxKind::END_KW, None),
        TokenKind::Return => (SyntaxKind::RETURN_KW, None),
        TokenKind::Break => (SyntaxKind::BREAK_KW, None),
        TokenKind::Continue => (SyntaxKind::CONTINUE_KW, None),
        TokenKind::And => (SyntaxKind::AND_KW, None),
        TokenKind::Or => (SyntaxKind::OR_KW, None),
        TokenKind::Not => (SyntaxKind::NOT_KW, None),
        TokenKind::Plus => (SyntaxKind::PLUS, None),
        TokenKind::Minus => (SyntaxKind::MINUS, None),
        TokenKind::Star => (SyntaxKind::STAR, None),
        TokenKind::Slash => (SyntaxKind::SLASH, None),
        TokenKind::Percent => (SyntaxKind::PERCENT, None),
        TokenKind::Amp => (SyntaxKind::AMP, None),
        TokenKind::Pipe => (SyntaxKind::PIPE, None),
        TokenKind::Caret => (SyntaxKind::CARET, None),
        TokenKind::Tilde => (SyntaxKind::TILDE, None),
        TokenKind::Bang => (SyntaxKind::BANG, None),
        TokenKind::Eq => (SyntaxKind::EQ, None),
        TokenKind::Lt => (SyntaxKind::LT, None),
        TokenKind::Gt => (SyntaxKind::GT, None),
        TokenKind::Dot => (SyntaxKind::DOT, None),
        TokenKind::At => (SyntaxKind::AT, None),
        TokenKind::Comma => (SyntaxKind::COMMA, None),
        TokenKind::Colon => (SyntaxKind::COLON, None),
        TokenKind::OpenParen => (SyntaxKind::OPENPAREN, None),
        TokenKind::CloseParen => (SyntaxKind::CLOSEPAREN, None),
        TokenKind::OpenBrace => (SyntaxKind::OPENBRACE, None),
        TokenKind::CloseBrace => (SyntaxKind::CLOSEBRACE, None),
        TokenKind::OpenBracket => (SyntaxKind::OPENBRACKET, None),
        TokenKind::CloseBracket => (SyntaxKind::CLOSEBRACKET, None),
        TokenKind::Arrow => (SyntaxKind::ARROW, None),
        TokenKind::BangEq => (SyntaxKind::BANGEQ, None),
        TokenKind::Eq2 => (SyntaxKind::EQ2, None),
        TokenKind::Lt2 => (SyntaxKind::LT2, None),
        TokenKind::LtEq => (SyntaxKind::LTEQ, None),
        TokenKind::Gt2 => (SyntaxKind::GT2, None),
        TokenKind::GtEq => (SyntaxKind::GTEQ, None),
        TokenKind::Dot2 => (SyntaxKind::DOT2, None),
        TokenKind::Ident => (SyntaxKind::IDENT, None),
        TokenKind::InvalidIdent => (SyntaxKind::IDENT, Some("Identifiers contains invalid characters")),
        TokenKind::Unknown => (SyntaxKind::ERROR, None),
    }
}

/// A syntax error: its message and the range of the source it covers, in bytes.
#[derive(Clone, Copy, Debug, PartialEq, Eq)]
pub struct SyntaxError {
    message: Message,
    start: u32,
    end: u32,
}

impl View for SyntaxError {
    type V = (Message, u32, u32);

    closed spec fn view(&self) -> (Message, u32, u32) {
        (self.message, self.start, self.end)
    }
}

impl SyntaxError {
    pub fn new(message: Message, start: u32, end: u32) -> (r: SyntaxError)
        ensures
            r@ == (message, start, end),
    {
        SyntaxError { message, start, end }
    }

    pub fn message(&self) -> (r: Message)
        ensures
            r == self@.0,
    {
        self.message
    }

    /// The range of the source that the error covers: its first byte and the byte past its end.
    pub fn range(&self) -> (r: (u32, u32))
        ensures
            r == (self@.1, self@.2),
    {
        (self.start, self.end)
    }
}

} // verus!

verus! {

/// How the token of each punctuation and keyword syntax kind is written.
pub open spec fn syntax_spelling(k: SyntaxKind) -> Option<Seq<char>> {
    match k {
        SyntaxKind::PLUS => Some(seq!['+']),
        SyntaxKind::MINUS => Some(seq!['-']),
        SyntaxKind::ARROW => Some(seq!['-', '>']),
        SyntaxKind::STAR => Some(seq!['*']),
        SyntaxKind::SLASH => Some(seq!['/']),
        SyntaxKind::PERCENT => Some(seq!['%']),
        SyntaxKind::AMP => Some(seq!['&']),
        SyntaxKind::PIPE => Some(seq!['|']),
        SyntaxKind::CARET => Some(seq!['^']),
        SyntaxKind::TILDE => Some(seq!['~']),
        SyntaxKind::BANG => Some(seq!['!']),
        SyntaxKind::BANGEQ => Some(seq!['!', '=']),
        SyntaxKind::EQ => Some(seq!['=']),
        SyntaxKind::EQ2 => Some(seq!['=', '=']),
        SyntaxKind::LT => Some(seq!['<']),
        SyntaxKind::LTEQ => Some(seq!['<', '=']),
        SyntaxKind::LT2 => Some(seq!['<', '<']),
        SyntaxKind::GT => Some(seq!['>']),
        SyntaxKind::GTEQ => Some(seq!['>', '=']),
        SyntaxKind::GT2 => Some(seq!['>', '>']),
        SyntaxKind::DOT => Some(seq!['.']),
        SyntaxKind::DOT2 => Some(seq!['.', '.']),
        SyntaxKind::AT => Some(seq!['@']),
        SyntaxKind::COMMA => Some(seq![',']),
        SyntaxKind::COLON => Some(seq![':']),
        SyntaxKind::OPENPAREN => Some(seq!['(']),
        SyntaxKind::CLOSEPAREN => Some(seq![')']),
        SyntaxKind::OPENBRACE => Some(seq!['{']),
        SyntaxKind::CLOSEBRACE => Some(seq!['}']),
        SyntaxKind::OPENBRACKET => Some(seq!['[']),
        SyntaxKind::CLOSEBRACKET => Some(seq![']']),
        SyntaxKind::TRUE => Some(seq!['t', 'r', 'u', 'e']),
        SyntaxKind::FALSE => Some(seq!['f', 'a', 'l', 's', 'e']),
        SyntaxKind::NIL => Some(seq!['n', 'i', 'l']),
        SyntaxKind::VAR_KW => Some(seq!['v', 'a', 'r']),
        SyntaxKind::FUNC_KW => Some(seq!['f', 'u', 'n', 'c']),
        SyntaxKind::IF_KW => Some(seq!['i', 'f']),
        SyntaxKind::THEN_KW => Some(seq!['t', 'h', 'e', 'n']),
        SyntaxKind::ELIF_KW => Some(seq!['e', 'l', 'i', 'f']),
        SyntaxKind::ELSE_KW => Some(seq!['e', 'l', 's', 'e']),
        SyntaxKind::FOR_KW => Some(seq!['f', 'o', 'r']),
        SyntaxKind::WHILE_KW => Some(seq!['w', 'h', 'i', 'l', 'e']),
        SyntaxKind::IN_KW => Some(seq!['i', 'n']),
        SyntaxKind::DO_KW => Some(seq!['d', 'o']),
        SyntaxKind::END_KW => Some(seq!['e', 'n', 'd']),
        SyntaxKind::RETURN_KW => Some(seq!['r', 'e', 't', 'u', 'r', 'n']),
        SyntaxKind::BREAK_KW => Some(seq!['b', 'r', 'e', 'a', 'k']),
        SyntaxKind::CONTINUE_KW => Some(seq!['c', 'o', 'n', 't', 'i', 'n', 'u', 'e']),
        SyntaxKind::AND_KW => Some(seq!['a', 'n', 'd']),
        SyntaxKind::OR_KW => Some(seq!['o', 'r']),
        SyntaxKind::NOT_KW => Some(seq!['n', 'o', 't']),
        _ => None,
    }
}

/// A punctuation token or a keyword keeps what it is in the syntax tree: its syntax kind is the
/// one written the same way, and it reports no error.
pub proof fn law_converted_kind_is_spelled_alike(k: TokenKind)
    ensures
        symbol_spelling(k) is Some ==> syntax_spelling(converted(k).0) == symbol_spelling(k)
            && converted(k).1 is None,
        keyword_spelling(k) is Some ==> syntax_spelling(converted(k).0) == keyword_spelling(k)
            && converted(k).1 is None,
{
}

} // verus!
