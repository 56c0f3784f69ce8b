use vstd::prelude::*;

verus! {

/// A lexical token: its kind and its length in bytes of UTF-8 source text.
#[derive(Clone, Copy, Debug, PartialEq, Eq, Hash, Structural)]
pub struct Token {
    pub kind: TokenKind,
    pub len: u32,
}

#[derive(Clone, Copy, Debug, PartialEq, Eq, Hash, Structural)]
pub enum TokenKind {
    /// "# comment"
    LineComment,
    /// Any whitespace character sequence.
    Whitespace,
    /// Integer literal. e.g. "42"
    Int { base: NumBase, empty_int: bool },
    /// Float literal. e.g. "3.14"
    Float { base: NumBase, empty_exponent: bool },
    /// String literal. e.g. "\"foo\""
    String { terminated: bool, quote_kind: QuoteKind },
    /// "true"
    True,
    /// "false"
    False,
    /// "nil"
    Nil,
    /// "var"
    Var,
    /// "func"
    Func,
    /// "if"
    If,
    /// "then"
    Then,
    /// "elif"
    Elif,
    /// "else"
    Else,
    /// "for"
    For,
    /// "while"
    While,
    /// "in"
    In,
    /// "do"
    Do,
    /// "end"
    End,
    /// "return"
    Return,
    /// "break"
    Break,
    /// "continue"
    Continue,
    /// "and"
    And,
    /// "or"
    Or,
    /// "not"
    Not,
    /// "+"
    Plus,
    /// "-"
    Minus,
    /// "*"
    Star,
    /// "/"
    Slash,
    /// "%"
    Percent,
    /// "&"
    Amp,
    /// "|"
    Pipe,
    /// "^"
    Caret,
    /// "~"
    Tilde,
    /// "!"
    Bang,
    /// "="
    Eq,
    /// "<"
    Lt,
    /// ">"
    Gt,
    /// "."
    Dot,
    /// "@"
    At,
    /// ","
    Comma,
    /// ":"
    Colon,
    /// "("
    OpenParen,
    /// ")"
    CloseParen,
    /// "{"
    OpenBrace,
    /// "}"
    CloseBrace,
    /// "["
    OpenBracket,
    /// "]"
    CloseBracket,
    /// "->"
    Arrow,
    /// "!="
    BangEq,
    /// "=="
    Eq2,
    /// "<<"
    Lt2,
    /// "<="
    LtEq,
    /// ">>"
    Gt2,
    /// ">="
    GtEq,
    /// ".."
    Dot2,
    /// Identifier that is not classified as a keyword or literal. e.g. "foo"
    Ident,
    /// Like the `Ident`, but containing invalid unicode codepoints.
    InvalidIdent,
    /// Unknown character, not expected by the lexer.
    Unknown,
}

#[derive(Clone, Copy, Debug, PartialEq, Eq, Hash, PartialOrd, Ord, Structural)]
pub enum NumBase {
    /// Binary integer literal that starts with "0b".
    Binary,
    /// Octal integer literal that starts with "0o".
    Octal,
    /// Decimal integer literal.
    Decimal,
    /// Hexadecimal integer literal that starts with "0x".
    Hexadecimal,
}

impl NumBase {
    /// The radix of the base: 2, 8, 10 or 16.
    pub fn radix(self) -> (r: u32)
        ensures
            r == match self {
                NumBase::Binary => 2u32,
                NumBase::Octal => 8u32,
                NumBase::Decimal => 10u32,
                NumBase::Hexadecimal => 16u32,
            },
    {
        match self {
            NumBase::Binary => 2,
            NumBase::Octal => 8,
            NumBase::Decimal => 10,
            NumBase::Hexadecimal => 16,
        }
    }
}

#[derive(Clone, Copy, Debug, PartialEq, Eq, Hash, Structural)]
pub enum QuoteKind {
    /// Single quote string literal.
    Single,
    /// Double quote string literal.
    Double,
}

} // verus!
