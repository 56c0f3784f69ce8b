use lico::lexer::tokenize;
use lico::token::{NumBase, QuoteKind, Token, TokenKind};

/// The tokens of `src` are exactly `expected`.
fn assert_tokens(src: &str, expected: &[Token]) {
    let tokens = tokenize(src);
    assert_eq!(tokens.as_slice(), expected, "tokens of {:?}", src);
}

fn t(kind: TokenKind, len: u32) -> Token {
    Token { kind, len }
}


#[test]
fn line_comment() {
    assert_tokens("# comment", &[t(TokenKind::LineComment, 9)]);
}

#[test]
fn whitespace() {
    assert_tokens(" \t\n", &[t(TokenKind::Whitespace, 3)]);
}

#[test]
fn int_token() {
    assert_tokens("42", &[t(TokenKind::Int { base: NumBase::Decimal, empty_int: false }, 2)]);
}

#[test]
fn float() {
    assert_tokens("3.14", &[t(TokenKind::Float { base: NumBase::Decimal, empty_exponent: false }, 4)]);
}

#[test]
fn string() {
    assert_tokens(
        r#""foo""#,
        &[t(TokenKind::String { terminated: true, quote_kind: QuoteKind::Double }, 5)],
    );
    assert_tokens(
        r#"'piyo piyo'"#,
        &[t(TokenKind::String { terminated: true, quote_kind: QuoteKind::Single }, 11)],
    );
}

#[test]
fn bool() {
    assert_tokens("true", &[t(TokenKind::True, 4)]);
    assert_tokens("false", &[t(TokenKind::False, 5)]);
}

#[test]
fn nil() {
    assert_tokens("nil", &[t(TokenKind::Nil, 3)]);
}

#[test]
fn keyword() {
    assert_tokens("var", &[t(TokenKind::Var, 3)]);
    assert_tokens("func", &[t(TokenKind::Func, 4)]);
    assert_tokens("if", &[t(TokenKind::If, 2)]);
    assert_tokens("then", &[t(TokenKind::Then, 4)]);
    assert_tokens("elif", &[t(TokenKind::Elif, 4)]);
    assert_tokens("else", &[t(TokenKind::Else, 4)]);
    assert_tokens("for", &[t(TokenKind::For, 3)]);
    assert_tokens("while", &[t(TokenKind::While, 5)]);
    assert_tokens("in", &[t(TokenKind::In, 2)]);
    assert_tokens("do", &[t(TokenKind::Do, 2)]);
    assert_tokens("end", &[t(TokenKind::End, 3)]);
    assert_tokens("return", &[t(TokenKind::Return, 6)]);
    assert_tokens("break", &[t(TokenKind::Break, 5)]);
    assert_tokens("continue", &[t(TokenKind::Continue, 8)]);
    assert_tokens("and", &[t(TokenKind::And, 3)]);
    assert_tokens("or", &[t(TokenKind::Or, 2)]);
    assert_tokens("not", &[t(TokenKind::Not, 3)]);
}

#[test]
fn symbol() {
    assert_tokens("+", &[t(TokenKind::Plus, 1)]);
    assert_tokens("-", &[t(TokenKind::Minus, 1)]);
    assert_tokens("*", &[t(TokenKind::Star, 1)]);
    assert_tokens("/", &[t(TokenKind::Slash, 1)]);
    assert_tokens("%", &[t(TokenKind::Percent, 1)]);
    assert_tokens("&", &[t(TokenKind::Amp, 1)]);
    assert_tokens("|", &[t(TokenKind::Pipe, 1)]);
    assert_tokens("^", &[t(TokenKind::Caret, 1)]);
    assert_tokens("~", &[t(TokenKind::Tilde, 1)]);
    assert_tokens("!", &[t(TokenKind::Bang, 1)]);
    assert_tokens("=", &[t(TokenKind::Eq, 1)]);
    assert_tokens("<", &[t(TokenKind::Lt, 1)]);
    assert_tokens(">", &[t(TokenKind::Gt, 1)]);
    assert_tokens(".", &[t(TokenKind::Dot, 1)]);
    assert_tokens("@", &[t(TokenKind::At, 1)]);
    assert_tokens(",", &[t(TokenKind::Comma, 1)]);
    assert_tokens(":", &[t(TokenKind::Colon, 1)]);
    assert_tokens("(", &[t(TokenKind::OpenParen, 1)]);
    assert_tokens(")", &[t(TokenKind::CloseParen, 1)]);
    assert_tokens("{", &[t(TokenKind::OpenBrace, 1)]);
    assert_tokens("}", &[t(TokenKind::CloseBrace, 1)]);
    assert_tokens("[", &[t(TokenKind::OpenBracket, 1)]);
    assert_tokens("]", &[t(TokenKind::CloseBracket, 1)]);
    assert_tokens("->", &[t(TokenKind::Arrow, 2)]);
    assert_tokens("!=", &[t(TokenKind::BangEq, 2)]);
    assert_tokens("==", &[t(TokenKind::Eq2, 2)]);
    assert_tokens("<<", &[t(TokenKind::Lt2, 2)]);
    assert_tokens("<=", &[t(TokenKind::LtEq, 2)]);
    assert_tokens(">>", &[t(TokenKind::Gt2, 2)]);
    assert_tokens(">=", &[t(TokenKind::GtEq, 2)]);
    assert_tokens("..", &[t(TokenKind::Dot2, 2)]);
}

#[test]
fn ident() {
    assert_tokens("foo", &[t(TokenKind::Ident, 3)]);
    assert_tokens("varl", &[t(TokenKind::Ident, 4)]);
}

#[test]
fn invalid_ident() {
    assert_tokens("🦀", &[t(TokenKind::InvalidIdent, 4)]);
}

#[test]
fn spaced_one_ident() {
    assert_tokens("a ", &[t(TokenKind::Ident, 1), t(TokenKind::Whitespace, 1)]);
    assert_tokens(" b", &[t(TokenKind::Whitespace, 1), t(TokenKind::Ident, 1)]);
    assert_tokens(" c ", &[t(TokenKind::Whitespace, 1), t(TokenKind::Ident, 1), t(TokenKind::Whitespace, 1)]);
    assert_tokens("あ ", &[t(TokenKind::Ident, 3), t(TokenKind::Whitespace, 1)]);
    assert_tokens("\nい", &[t(TokenKind::Whitespace, 1), t(TokenKind::Ident, 3)]);
    assert_tokens(" う\n", &[t(TokenKind::Whitespace, 1), t(TokenKind::Ident, 3), t(TokenKind::Whitespace, 1)]);
}

#[test]
fn spaced_multi_ident() {
    assert_tokens("foo ", &[t(TokenKind::Ident, 3), t(TokenKind::Whitespace, 1)]);
    assert_tokens("　bar", &[t(TokenKind::Whitespace, 3), t(TokenKind::Ident, 3)]);
    assert_tokens("　baz ", &[t(TokenKind::Whitespace, 3), t(TokenKind::Ident, 3), t(TokenKind::Whitespace, 1)]);
    assert_tokens("あ ", &[t(TokenKind::Ident, 3), t(TokenKind::Whitespace, 1)]);
    assert_tokens("\nい", &[t(TokenKind::Whitespace, 1), t(TokenKind::Ident, 3)]);
    assert_tokens(" う\n", &[t(TokenKind::Whitespace, 1), t(TokenKind::Ident, 3), t(TokenKind::Whitespace, 1)]);
}

#[test]
fn spaced_keyword() {
    assert_tokens("var ", &[t(TokenKind::Var, 3), t(TokenKind::Whitespace, 1)]);
}

#[test]
fn keyword_like() {
    // "true"
    assert_tokens("tru ", &[t(TokenKind::Ident, 3), t(TokenKind::Whitespace, 1)]);
    assert_tokens("tr@", &[t(TokenKind::Ident, 2), t(TokenKind::At, 1)]);
    // "false"
    assert_tokens("fals ", &[t(TokenKind::Ident, 4), t(TokenKind::Whitespace, 1)]);
    assert_tokens("fal@", &[t(TokenKind::Ident, 3), t(TokenKind::At, 1)]);
    // "nil"
    assert_tokens("ni ", &[t(TokenKind::Ident, 2), t(TokenKind::Whitespace, 1)]);
    assert_tokens("n@", &[t(TokenKind::Ident, 1), t(TokenKind::At, 1)]);
    // "var"
    assert_tokens("va ", &[t(TokenKind::Ident, 2), t(TokenKind::Whitespace, 1)]);
    assert_tokens("v@", &[t(TokenKind::Ident, 1), t(TokenKind::At, 1)]);
    // "func"
    assert_tokens("fun ", &[t(TokenKind::Ident, 3), t(TokenKind::Whitespace, 1)]);
    assert_tokens("fu@", &[t(TokenKind::Ident, 2), t(TokenKind::At, 1)]);
    // "if"
    assert_tokens("i ", &[t(TokenKind::Ident, 1), t(TokenKind::Whitespace, 1)]);
    // "then"
    assert_tokens("the ", &[t(TokenKind::Ident, 3), t(TokenKind::Whitespace, 1)]);
    assert_tokens("th@", &[t(TokenKind::Ident, 2), t(TokenKind::At, 1)]);
    // "elif"
    assert_tokens("eli ", &[t(TokenKind::Ident, 3), t(TokenKind::Whitespace, 1)]);
    assert_tokens("el@", &[t(TokenKind::Ident, 2), t(TokenKind::At, 1)]);
    // "else"
    assert_tokens("els ", &[t(TokenKind::Ident, 3), t(TokenKind::Whitespace, 1)]);
    assert_tokens("el@", &[t(TokenKind::Ident, 2), t(TokenKind::At, 1)]);
    // "for"
    assert_tokens("fo ", &[t(TokenKind::Ident, 2), t(TokenKind::Whitespace, 1)]);
    assert_tokens("f@", &[t(TokenKind::Ident, 1), t(TokenKind::At, 1)]);
    // "while"
    assert_tokens("whil ", &[t(TokenKind::Ident, 4), t(TokenKind::Whitespace, 1)]);
    assert_tokens("wh@", &[t(TokenKind::Ident, 2), t(TokenKind::At, 1)]);
    // "in"
    assert_tokens("i ", &[t(TokenKind::Ident, 1), t(TokenKind::Whitespace, 1)]);
    assert_tokens("i@", &[t(TokenKind::Ident, 1), t(TokenKind::At, 1)]);
    // "do"
    assert_tokens("d ", &[t(TokenKind::Ident, 1), t(TokenKind::Whitespace, 1)]);
    // "end"
    assert_tokens("en ", &[t(TokenKind::Ident, 2), t(TokenKind::Whitespace, 1)]);
    assert_tokens("e@", &[t(TokenKind::Ident, 1), t(TokenKind::At, 1)]);
    // "return"
    assert_tokens("retur ", &[t(TokenKind::Ident, 5), t(TokenKind::Whitespace, 1)]);
    assert_tokens("ret@", &[t(TokenKind::Ident, 3), t(TokenKind::At, 1)]);
    // "break"
    assert_tokens("brea ", &[t(TokenKind::Ident, 4), t(TokenKind::Whitespace, 1)]);
    assert_tokens("bre@", &[t(TokenKind::Ident, 3), t(TokenKind::At, 1)]);
    // "continue"
    assert_tokens("continu ", &[t(TokenKind::Ident, 7), t(TokenKind::Whitespace, 1)]);
    assert_tokens("cont@", &[t(TokenKind::Ident, 4), t(TokenKind::At, 1)]);
    // "and"
    assert_tokens("an ", &[t(TokenKind::Ident, 2), t(TokenKind::Whitespace, 1)]);
    assert_tokens("a@", &[t(TokenKind::Ident, 1), t(TokenKind::At, 1)]);
    // "or"
    assert_tokens("o ", &[t(TokenKind::Ident, 1), t(TokenKind::Whitespace, 1)]);
    // "not"
    assert_tokens("no ", &[t(TokenKind::Ident, 2), t(TokenKind::Whitespace, 1)]);
    assert_tokens("n@", &[t(TokenKind::Ident, 1), t(TokenKind::At, 1)]);
}
