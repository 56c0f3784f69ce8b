use lico::lexer::tokenize;
use lico::parser::grammar::expression::{expr_bp, infix_op_binding_power};
use lico::parser::grammar::{entry, expr_first, stmt_first};
use lico::parser::parse;
use lico::parser::tree::build_tree;
use lico::parser::state::{EventRaw, Message, Parser};
use lico::parser::syntax_error::{convert_kind, SyntaxError};
use lico::parser::token_set::TokenSet;
use lico::syntax_kind::SyntaxKind;
use lico::token::{NumBase, QuoteKind, TokenKind};

fn kind_name(k: rowan::SyntaxKind) -> String {
    format!("{:?}", SyntaxKind::from_raw(k.0))
}

fn dump(node: &rowan::GreenNodeData, out: &mut String) {
    out.push_str(&kind_name(node.kind()));
    out.push('(');
    for (i, child) in node.children().enumerate() {
        if i > 0 {
            out.push(' ');
        }
        match child {
            rowan::NodeOrToken::Node(n) => dump(n, out),
            rowan::NodeOrToken::Token(t) => out.push_str(&kind_name(t.kind())),
        }
    }
    out.push(')');
}

/// The tree of `src` written as kinds, and the tree's text.
fn tree_of(src: &str) -> Option<(String, String, Vec<SyntaxError>)> {
    let tokens = tokenize(src);
    let (tree, errors) = parse(src, &tokens)?;
    let mut out = String::new();
    dump(&tree, &mut out);
    Some((out, tree.to_string(), errors))
}

#[test]
fn parse_var_stmt() {
    let (tree, text, errors) = tree_of("var x = 1").unwrap();
    assert_eq!(
        tree,
        "PROGRAM(VAR_STMT(VAR_KW WHITESPACE NAME(IDENT) WHITESPACE EQ WHITESPACE LITERAL(INT)))"
    );
    assert_eq!(text, "var x = 1");
    assert!(errors.is_empty());
}

#[test]
fn parse_binary_precedence() {
    let (tree, text, _) = tree_of("1 + 2 * 3").unwrap();
    assert_eq!(
        tree,
        "PROGRAM(EXPR_STMT(BINARY_EXPR(LITERAL(INT) WHITESPACE PLUS WHITESPACE \
         BINARY_EXPR(LITERAL(INT) WHITESPACE STAR WHITESPACE LITERAL(INT)))))"
    );
    assert_eq!(text, "1 + 2 * 3");
}

#[test]
fn parse_left_associative() {
    let (tree, _, _) = tree_of("1-2-3").unwrap();
    assert_eq!(
        tree,
        "PROGRAM(EXPR_STMT(BINARY_EXPR(BINARY_EXPR(LITERAL(INT) MINUS LITERAL(INT)) MINUS \
         LITERAL(INT))))"
    );
}

#[test]
fn parse_right_associative() {
    let (tree, _, _) = tree_of("a = b = c").unwrap();
    assert_eq!(
        tree,
        "PROGRAM(EXPR_STMT(BINARY_EXPR(LOCAL_VAR(IDENT) WHITESPACE EQ WHITESPACE \
         BINARY_EXPR(LOCAL_VAR(IDENT) WHITESPACE EQ WHITESPACE LOCAL_VAR(IDENT)))))"
    );
}

#[test]
fn parse_call() {
    let (tree, text, _) = tree_of("f(1, 2)").unwrap();
    assert_eq!(
        tree,
        "PROGRAM(EXPR_STMT(CALL_EXPR(LOCAL_VAR(IDENT) ARG_LIST(OPENPAREN LITERAL(INT) COMMA \
         WHITESPACE LITERAL(INT) CLOSEPAREN))))"
    );
    assert_eq!(text, "f(1, 2)");
}

#[test]
fn parse_if_else() {
    let (tree, _, _) = tree_of("if a then b else c end").unwrap();
    assert_eq!(
        tree,
        "PROGRAM(EXPR_STMT(IF_EXPR(IF_KW WHITESPACE LOCAL_VAR(IDENT) WHITESPACE THEN_KW \
         PROGRAM(WHITESPACE EXPR_STMT(LOCAL_VAR(IDENT) WHITESPACE)) ELSE_BRANCH(ELSE_KW \
         PROGRAM(WHITESPACE EXPR_STMT(LOCAL_VAR(IDENT) WHITESPACE))) END_KW)))"
    );
}

#[test]
fn parse_func_stmt_and_prefix() {
    let (tree, text, _) = tree_of("func f.g(x) return -x end").unwrap();
    assert_eq!(
        tree,
        "PROGRAM(FUNC_STMT(FUNC_KW WHITESPACE NAME_PATH(NAME(IDENT) DOT NAME(IDENT)) \
         PARAM_LIST(OPENPAREN NAME(IDENT) CLOSEPAREN) PROGRAM(WHITESPACE RETURN_STMT(RETURN_KW \
         WHITESPACE PREFIX_EXPR(MINUS LOCAL_VAR(IDENT) WHITESPACE))) END_KW))"
    );
    assert_eq!(text, "func f.g(x) return -x end");
}

#[test]
fn parse_keeps_unicode_text() {
    let src = "var é = 'ü' # ça\nwhile é do break end";
    let (_, text, errors) = tree_of(src).unwrap();
    assert_eq!(text, src);
    assert!(errors.is_empty());
}

#[test]
fn parse_reports_lexical_errors() {
    let (tree, text, errors) = tree_of("\"abc").unwrap();
    assert_eq!(tree, "PROGRAM(EXPR_STMT(LITERAL(STRING)))");
    assert_eq!(text, "\"abc");
    assert_eq!(errors.len(), 1);
    assert_eq!(
        errors[0].message(),
        Message::Text("Missing trailing `\"` symbol to terminate the string literal")
    );
    assert_eq!(errors[0].range(), (0, 4));

    let (_, _, errors) = tree_of("x = 0x").unwrap();
    assert_eq!(errors.len(), 1);
    assert_eq!(errors[0].message(), Message::Text("Missing digits after the integer base prefix"));
    assert_eq!(errors[0].range(), (4, 6));
}

#[test]
fn parse_reports_syntax_errors() {
    // A missing initializer: an empty error where the next token would start.
    let (tree, text, errors) = tree_of("var x").unwrap();
    assert_eq!(tree, "PROGRAM(VAR_STMT(VAR_KW WHITESPACE NAME(IDENT)))");
    assert_eq!(text, "var x");
    assert_eq!(errors.len(), 1);
    assert_eq!(
        errors[0].message(),
        Message::Text("Missing '= <expr>': Variables must be initialized")
    );
    assert_eq!(errors[0].range(), (5, 5));

    // The index expression leaves its `]` unread; the `]` then begins no statement.
    let (tree, _, errors) = tree_of("a[1]").unwrap();
    assert_eq!(
        tree,
        "PROGRAM(EXPR_STMT(INDEX_EXPR(LOCAL_VAR(IDENT) OPENBRACKET LITERAL(INT))) \
         ERROR(CLOSEBRACKET))"
    );
    assert_eq!(errors.len(), 1);
    assert_eq!(errors[0].message(), Message::UnexpectedToken(SyntaxKind::CLOSEBRACKET));
    assert_eq!(errors[0].range(), (3, 4));

    // An index expression that does not close: an empty error where the next token starts.
    let (_, _, errors) = tree_of("a[1 x").unwrap();
    assert_eq!(errors[0].message(), Message::Text("Expected `]` to close index expression"));
    assert_eq!(errors[0].range(), (4, 4));

    // A token that begins no statement: an error that covers it.
    let (tree, _, errors) = tree_of(")").unwrap();
    assert_eq!(tree, "PROGRAM(ERROR(CLOSEPAREN))");
    assert_eq!(errors.len(), 1);
    assert_eq!(errors[0].message(), Message::UnexpectedToken(SyntaxKind::CLOSEPAREN));
    assert_eq!(errors[0].range(), (0, 1));

    // Lexical errors come first, then syntax errors.
    let (_, _, errors) = tree_of("var \"a").unwrap();
    assert_eq!(errors.len(), 3);
    assert_eq!(
        errors[0].message(),
        Message::Text("Missing trailing `\"` symbol to terminate the string literal")
    );
    assert_eq!(errors[0].range(), (4, 6));
    assert_eq!(errors[1].message(), Message::ExpectedNameFound(None));
    assert_eq!(errors[1].range(), (4, 6));
    assert_eq!(
        errors[2].message(),
        Message::Text("Missing '= <expr>': Variables must be initialized")
    );
    assert_eq!(errors[2].range(), (6, 6));
}

#[test]
fn parse_without_tree_where_recovery_is_missing() {
    // Constructs whose error recovery does not exist.
    assert!(tree_of("for").is_none());
    assert!(tree_of("while x").is_none());
    assert!(tree_of("if x end").is_none());
}

#[test]
fn expr_bp_binds_by_precedence() {
    // The kinds of "1-2-3*4".
    let kinds = vec![
        SyntaxKind::INT,
        SyntaxKind::MINUS,
        SyntaxKind::INT,
        SyntaxKind::MINUS,
        SyntaxKind::INT,
        SyntaxKind::STAR,
        SyntaxKind::INT,
    ];
    let mut p = Parser::new(kinds);
    assert!(expr_bp(&mut p, 0).is_some());
    let output = p.finish();
    let (tree, errors) = build_tree("1-2-3*4", output, vec![0, 1, 2, 3, 4, 5, 6, 7]).unwrap();
    assert!(errors.is_empty());
    let mut out = String::new();
    dump(&tree, &mut out);
    assert_eq!(
        out,
        "BINARY_EXPR(BINARY_EXPR(LITERAL(INT) MINUS LITERAL(INT)) MINUS \
         BINARY_EXPR(LITERAL(INT) STAR LITERAL(INT)))"
    );
    assert_eq!(tree.to_string(), "1-2-3*4");

    // A right-associative operator nests to the right; a weaker one stops the operand.
    let kinds = vec![
        SyntaxKind::IDENT,
        SyntaxKind::EQ,
        SyntaxKind::IDENT,
        SyntaxKind::EQ,
        SyntaxKind::INT,
        SyntaxKind::OR_KW,
        SyntaxKind::INT,
    ];
    let mut p = Parser::new(kinds);
    assert!(expr_bp(&mut p, 0).is_some());
    let output = p.finish();
    let (tree, _) = build_tree("a=b=1or2", output, vec![0, 1, 2, 3, 4, 5, 7, 8]).unwrap();
    let mut out = String::new();
    dump(&tree, &mut out);
    assert_eq!(
        out,
        "BINARY_EXPR(LOCAL_VAR(IDENT) EQ BINARY_EXPR(LOCAL_VAR(IDENT) EQ \
         BINARY_EXPR(LITERAL(INT) OR_KW LITERAL(INT))))"
    );
}

#[test]
fn parse_statements_of_operator_chains() {
    // Trivia after an operand stays in the node that encloses it.
    let (tree, text, errors) = tree_of("x = 1\ny = x + 2").unwrap();
    assert_eq!(
        tree,
        "PROGRAM(EXPR_STMT(BINARY_EXPR(LOCAL_VAR(IDENT) WHITESPACE EQ WHITESPACE LITERAL(INT) \
         WHITESPACE)) EXPR_STMT(BINARY_EXPR(LOCAL_VAR(IDENT) WHITESPACE EQ WHITESPACE \
         BINARY_EXPR(LOCAL_VAR(IDENT) WHITESPACE PLUS WHITESPACE LITERAL(INT)))))"
    );
    assert_eq!(text, "x = 1\ny = x + 2");
    assert!(errors.is_empty());

    let (tree, _, errors) = tree_of("var x = 1 + 2\nx * 3").unwrap();
    assert_eq!(
        tree,
        "PROGRAM(VAR_STMT(VAR_KW WHITESPACE NAME(IDENT) WHITESPACE EQ WHITESPACE \
         BINARY_EXPR(LITERAL(INT) WHITESPACE PLUS WHITESPACE LITERAL(INT) WHITESPACE)) \
         EXPR_STMT(BINARY_EXPR(LOCAL_VAR(IDENT) WHITESPACE STAR WHITESPACE LITERAL(INT))))"
    );
    assert!(errors.is_empty());

    // Prefix operators bind tighter than every infix operator.
    let (tree, _, errors) = tree_of("x = -1 + not y").unwrap();
    assert_eq!(
        tree,
        "PROGRAM(EXPR_STMT(BINARY_EXPR(LOCAL_VAR(IDENT) WHITESPACE EQ WHITESPACE \
         BINARY_EXPR(PREFIX_EXPR(MINUS LITERAL(INT) WHITESPACE) PLUS WHITESPACE \
         PREFIX_EXPR(NOT_KW WHITESPACE LOCAL_VAR(IDENT))))))"
    );
    assert!(errors.is_empty());
    let (tree, _, _) = tree_of("-x*2").unwrap();
    assert_eq!(
        tree,
        "PROGRAM(EXPR_STMT(BINARY_EXPR(PREFIX_EXPR(MINUS LOCAL_VAR(IDENT)) STAR LITERAL(INT))))"
    );

    let (tree, _, errors) = tree_of("return x + 1").unwrap();
    assert_eq!(
        tree,
        "PROGRAM(RETURN_STMT(RETURN_KW WHITESPACE BINARY_EXPR(LOCAL_VAR(IDENT) WHITESPACE PLUS \
         WHITESPACE LITERAL(INT))))"
    );
    assert!(errors.is_empty());
    let (tree, _, errors) = tree_of("return\nbreak\ncontinue").unwrap();
    assert_eq!(
        tree,
        "PROGRAM(RETURN_STMT(RETURN_KW WHITESPACE) BREAK_STMT(BREAK_KW) WHITESPACE \
         CONTINUE_STMT(CONTINUE_KW))"
    );
    assert!(errors.is_empty());

    // A parenthesised chain is one operand.
    let (tree, _, errors) = tree_of("(1 + 2) * -(x)").unwrap();
    assert_eq!(
        tree,
        "PROGRAM(EXPR_STMT(BINARY_EXPR(PAREN_EXPR(OPENPAREN BINARY_EXPR(LITERAL(INT) WHITESPACE \
         PLUS WHITESPACE LITERAL(INT)) CLOSEPAREN) WHITESPACE STAR WHITESPACE \
         PREFIX_EXPR(MINUS PAREN_EXPR(OPENPAREN LOCAL_VAR(IDENT) CLOSEPAREN)))))"
    );
    assert!(errors.is_empty());

    let (tree, _, errors) = tree_of("1\n2").unwrap();
    assert_eq!(
        tree,
        "PROGRAM(EXPR_STMT(LITERAL(INT) WHITESPACE) EXPR_STMT(LITERAL(INT)))"
    );
    assert!(errors.is_empty());
}

#[test]
fn parse_precedence_and_associativity_together() {
    // '*' binds tighter than '-', and '-' associates to the left.
    let (tree, _, errors) = tree_of("1-2-3*4").unwrap();
    assert_eq!(
        tree,
        "PROGRAM(EXPR_STMT(BINARY_EXPR(BINARY_EXPR(LITERAL(INT) MINUS LITERAL(INT)) MINUS \
         BINARY_EXPR(LITERAL(INT) STAR LITERAL(INT)))))"
    );
    assert!(errors.is_empty());
}

#[test]
fn parse_empty_source() {
    let (tree, text, errors) = tree_of("").unwrap();
    assert_eq!(tree, "PROGRAM()");
    assert_eq!(text, "");
    assert!(errors.is_empty());
    let (tree, _, _) = tree_of("  ").unwrap();
    assert_eq!(tree, "PROGRAM(WHITESPACE)");
    // Only trivia: one node that holds each token.
    let (tree, text, errors) = tree_of(" # note\n\t").unwrap();
    assert_eq!(tree, "PROGRAM(WHITESPACE COMMENT WHITESPACE)");
    assert_eq!(text, " # note\n\t");
    assert!(errors.is_empty());
}

#[test]
fn entry_reads_every_token() {
    let kinds = vec![
        SyntaxKind::CLOSEPAREN,
        SyntaxKind::WHITESPACE,
        SyntaxKind::IDENT,
        SyntaxKind::AT,
    ];
    let mut p = Parser::new(kinds);
    entry(&mut p);
    assert!(!p.unfinished());
    let output = p.finish();
    let mut tokens = 0;
    let mut errors = Vec::new();
    for i in 0..output.event_count() {
        let (e, m) = output.event(i);
        match e {
            EventRaw::Token { .. } => tokens += 1,
            EventRaw::FinishError { .. } | EventRaw::EmptyError { .. } => errors.push(m.unwrap()),
            _ => {}
        }
    }
    assert_eq!(tokens, 4);
    assert_eq!(
        errors,
        vec![
            Message::UnexpectedToken(SyntaxKind::CLOSEPAREN),
            Message::UnexpectedToken(SyntaxKind::AT),
        ]
    );
}

#[test]
fn var_stmt_error_messages() {
    let kinds = vec![SyntaxKind::VAR_KW, SyntaxKind::INT, SyntaxKind::EQ, SyntaxKind::INT];
    let mut p = Parser::new(kinds);
    entry(&mut p);
    let output = p.finish();
    let messages: Vec<Message> = (0..output.event_count()).filter_map(|i| output.event(i).1).collect();
    assert_eq!(messages, vec![Message::ExpectedNameFound(Some(SyntaxKind::EQ))]);
}

#[test]
fn convert_token_kinds() {
    assert_eq!(convert_kind(TokenKind::Whitespace), (SyntaxKind::WHITESPACE, None));
    assert_eq!(convert_kind(TokenKind::LineComment), (SyntaxKind::COMMENT, None));
    assert_eq!(
        convert_kind(TokenKind::Int { base: NumBase::Hexadecimal, empty_int: false }),
        (SyntaxKind::INT, None)
    );
    assert_eq!(
        convert_kind(TokenKind::Float { base: NumBase::Decimal, empty_exponent: true }),
        (SyntaxKind::FLOAT, Some("Missing digits after the exponent symbol"))
    );
    assert_eq!(
        convert_kind(TokenKind::String { terminated: false, quote_kind: QuoteKind::Single }),
        (SyntaxKind::STRING, Some("Missing trailing `'` symbol to terminate the string literal"))
    );
    assert_eq!(convert_kind(TokenKind::Elif), (SyntaxKind::ELIF_KW, None));
    assert_eq!(convert_kind(TokenKind::Dot2), (SyntaxKind::DOT2, None));
    assert_eq!(
        convert_kind(TokenKind::InvalidIdent),
        (SyntaxKind::IDENT, Some("Identifiers contains invalid characters"))
    );
    assert_eq!(convert_kind(TokenKind::Unknown), (SyntaxKind::ERROR, None));
}

#[test]
fn binding_powers() {
    assert_eq!(infix_op_binding_power(SyntaxKind::STAR), Some((23, 24)));
    assert_eq!(infix_op_binding_power(SyntaxKind::PLUS), Some((21, 22)));
    assert_eq!(infix_op_binding_power(SyntaxKind::DOT2), Some((20, 19)));
    assert_eq!(infix_op_binding_power(SyntaxKind::OR_KW), Some((3, 4)));
    assert_eq!(infix_op_binding_power(SyntaxKind::EQ), Some((2, 1)));
    assert_eq!(infix_op_binding_power(SyntaxKind::DOT), None);
    assert_eq!(infix_op_binding_power(SyntaxKind::IDENT), None);
}

#[test]
fn token_sets() {
    let e = expr_first();
    assert!(e.contains(SyntaxKind::BANG));
    assert!(e.contains(SyntaxKind::IDENT));
    assert!(!e.contains(SyntaxKind::VAR_KW));
    let s = stmt_first();
    assert!(s.contains(SyntaxKind::VAR_KW));
    assert!(s.contains(SyntaxKind::INT));
    assert!(!s.contains(SyntaxKind::END_KW));
    let t = TokenSet::new(vec![SyntaxKind::END_KW]).union(TokenSet::new(vec![SyntaxKind::TABLE_FIELD_NAME_EXPR]));
    assert!(t.contains(SyntaxKind::END_KW));
    assert!(t.contains(SyntaxKind::TABLE_FIELD_NAME_EXPR));
    assert!(!t.contains(SyntaxKind::ERROR));
    assert!(!TokenSet::new(Vec::new()).contains(SyntaxKind::ERROR));
}

#[test]
fn syntax_error_parts() {
    let e = SyntaxError::new(Message::Text("m"), 3, 7);
    assert_eq!(e.message(), Message::Text("m"));
    assert_eq!(e.range(), (3, 7));
}


#[test]
fn parse_if_elif_else_nesting() {
    let src = "if a then b elif c then d else e end";
    let (tree, text, errors) = tree_of(src).unwrap();
    assert!(tree.starts_with("PROGRAM(EXPR_STMT(IF_EXPR(IF_KW"));
    assert_eq!(tree.matches("ELIF_BRANCH(ELIF_KW").count(), 1);
    assert_eq!(tree.matches("ELSE_BRANCH(ELSE_KW").count(), 1);
    assert!(tree.contains("END_KW"));
    assert_eq!(text, src);
    assert!(errors.is_empty());
}

#[test]
fn parse_call_index_and_table() {
    let src = "f(x, [1, 2])\nvar t = {a = 1}";
    let tokens = tokenize(src);
    let (tree, errors) = parse(src, &tokens).unwrap();
    let mut out = String::new();
    dump(&tree, &mut out);
    assert!(out.contains("CALL_EXPR(LOCAL_VAR(IDENT) ARG_LIST(OPENPAREN"));
    assert!(out.contains("ARRAY_CONST(OPENBRACKET"));
    assert!(out.contains("TABLE_CONST(OPENBRACE"));
    assert_eq!(tree.to_string(), src);
    let _ = errors;
}

#[test]
fn parse_mixed_precedence_chain() {
    let (tree, text, errors) = tree_of("1-2-3*4").unwrap();
    assert_eq!(
        tree,
        "PROGRAM(EXPR_STMT(BINARY_EXPR(BINARY_EXPR(LITERAL(INT) MINUS LITERAL(INT)) MINUS \
         BINARY_EXPR(LITERAL(INT) STAR LITERAL(INT)))))"
    );
    assert_eq!(text, "1-2-3*4");
    assert!(errors.is_empty());
}
