use core::mem::size_of;
use lico::syntax_kind::SyntaxKind;
use lico::token::Token;

#[test]
fn size_check() {
    assert_eq!(size_of::<SyntaxKind>(), 1);
    assert_eq!(size_of::<Token>(), 8);
}

#[test]
fn syntax_kind_classes() {
    assert!(SyntaxKind::INT.is_literal());
    assert!(SyntaxKind::NIL.is_literal());
    assert!(!SyntaxKind::VAR_KW.is_literal());
    assert!(SyntaxKind::VAR_KW.is_keyword());
    assert!(SyntaxKind::NOT_KW.is_keyword());
    assert!(!SyntaxKind::PLUS.is_keyword());
    assert!(SyntaxKind::PLUS.is_punct());
    assert!(SyntaxKind::DOT2.is_punct());
    assert!(!SyntaxKind::IDENT.is_punct());
    assert!(SyntaxKind::WHITESPACE.is_trivia());
    assert!(SyntaxKind::COMMENT.is_trivia());
    assert!(!SyntaxKind::ERROR.is_trivia());
}

#[test]
fn syntax_kind_raw_numbers() {
    assert_eq!(SyntaxKind::ERROR.as_u8(), 0);
    assert_eq!(SyntaxKind::IDENT.as_u8(), 57);
    assert_eq!(SyntaxKind::from_raw(57), SyntaxKind::IDENT);
    assert_eq!(SyntaxKind::from_raw(90), SyntaxKind::TABLE_FIELD_NAME_EXPR);
    for raw in 0..91u16 {
        assert_eq!(SyntaxKind::from_raw(raw).as_u8() as u16, raw);
    }
}
