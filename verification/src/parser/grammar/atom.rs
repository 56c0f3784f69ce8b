use super::super::state::{CompletedMarker, EventRaw, Message, Parser};
use super::super::token_set::TokenSet;
use super::{
    opens_node, consumed, expr_first, expression, is_expr_first, is_literal_first, missing_close,
    node_kind_is, open_with, param_list, program,
};
use super::events::{
    expr_start, field_start, ps_after_item, ps_array, ps_expr_items, ps_field, ps_field_items,
    ps_field_name, ps_func_const, ps_table, ps_token_node,
};
use super::super::state::{sp_abandon, sp_bump, sp_error, sp_finish_error, sp_start, sp_start_error, sp_trivia};
use crate::syntax_kind::SyntaxKind;
use vstd::prelude::*;

verus! {

/// A literal. Precondition: the current token is one.
#[verifier::spinoff_prover]
pub fn literal(p: &mut Parser) -> (cm: CompletedMarker)
    requires
        old(p).wf(),
        old(p).current_spec() is Some,
        is_literal_first(old(p).current_spec()->0),
    ensures
        final(p).st() == ps_token_node(old(p).input(), old(p).st(), SyntaxKind::LITERAL),
        consumed(final(p), old(p)),
        node_kind_is(final(p), &cm, SyntaxKind::LITERAL),
        final(p).events() == old(p).events().push(
            EventRaw::StartNode { kind: SyntaxKind::LITERAL, forward_parent: None },
        ).push(EventRaw::Token { kind: old(p).current_spec()->0 }).push(EventRaw::FinishNode),
        final(p).position() == old(p).position() + 1,
        cm.pos() == old(p).events().len(),
        final(p).errors() == old(p).errors(),
        final(p).is_unfinished() == old(p).is_unfinished(),
{
    let m = p.start();
    p.bump_any();
    let cm = m.complete(p, SyntaxKind::LITERAL);
    proof {
        assert(p.events() =~= old(p).events().push(
            EventRaw::StartNode { kind: SyntaxKind::LITERAL, forward_parent: None },
        ).push(EventRaw::Token { kind: old(p).current_spec()->0 }).push(EventRaw::FinishNode));
    }
    cm
}

/// `[ <expr>, ... ]`. Precondition: the current token is `[`.
#[verifier::spinoff_prover]
pub fn array_const(p: &mut Parser) -> (cm: CompletedMarker)
    requires
        old(p).wf(),
        old(p).current_spec() == Some(SyntaxKind::OPENBRACKET),
    ensures
        final(p).st() == ps_array(old(p).input(), old(p).st()),
        cm.pos() == old(p).events().len(),
        consumed(final(p), old(p)),
        node_kind_is(final(p), &cm, SyntaxKind::ARRAY_CONST),
    decreases old(p).remaining(), 14nat,
{
    let ghost inp = old(p).input();
    let m = p.start();
    p.bump(SyntaxKind::OPENBRACKET);
    p.eat_trivia();
    let ghost items = ps_expr_items(inp, p.st(), SyntaxKind::CLOSEBRACKET);
    let ef = expr_first();
    assert((|k: SyntaxKind| ef.has(k)) =~= expr_start());
    loop
        invariant_except_break
            ps_expr_items(inp, p.st(), SyntaxKind::CLOSEBRACKET) == items,
        invariant
            open_with(p, old(p), &m),
            p.input() == inp,
            p.position() > old(p).position(),
            forall|k: SyntaxKind| ef.has(k) <==> is_expr_first(k),
        ensures
            open_with(p, old(p), &m),
            p.position() > old(p).position(),
            p.st() == items,
        decreases p.remaining(),
    {
        let ghost s = p.st();
        let go = match p.current() {
            Some(t) => t != SyntaxKind::CLOSEBRACKET,
            None => false,
        };
        if !go {
            break;
        }
        if p.at(SyntaxKind::COMMA) {
            p.error(Message::Text("Missing <expr>"));
            p.bump(SyntaxKind::COMMA);
            p.eat_trivia();
            assert(ps_expr_items(inp, s, SyntaxKind::CLOSEBRACKET) == ps_expr_items(inp, p.st(), SyntaxKind::CLOSEBRACKET));
            continue;
        }
        if p.at_ts(ef) {
            expression::expr(p);
        } else {
            break;
        }
        p.eat_trivia();
        let ghost s1 = p.st();
        if !p.eat(SyntaxKind::COMMA) {
            if p.at_ts(ef) {
                p.error(Message::Text("Missing ','"));
            } else {
                assert(ps_after_item(inp, s1, expr_start()) is None);
                assert(ps_expr_items(inp, s, SyntaxKind::CLOSEBRACKET) == s1);
                break;
            }
        }
        p.eat_trivia();
        assert(ps_after_item(inp, s1, expr_start()) == Some(p.st()));
        assert(ps_expr_items(inp, s, SyntaxKind::CLOSEBRACKET) == ps_expr_items(inp, p.st(), SyntaxKind::CLOSEBRACKET));
    }
    p.eat_trivia();
    if !p.eat(SyntaxKind::CLOSEBRACKET) {
        missing_close(p, SyntaxKind::CLOSEBRACKET, "Missing closing ']'", "Expected closing ']'");
    }
    m.complete(p, SyntaxKind::ARRAY_CONST)
}

/// Kinds that begin a table field.
pub open spec fn is_field_first(k: SyntaxKind) -> bool {
    k == SyntaxKind::FUNC_KW || k == SyntaxKind::IDENT || k == SyntaxKind::EQ || is_expr_first(k)
}

/// The set of the kinds that begin a table field.
fn field_first() -> (r: TokenSet)
    ensures
        forall|k: SyntaxKind| r.has(k) <==> is_field_first(k),
{
    let v = vec![SyntaxKind::FUNC_KW, SyntaxKind::IDENT, SyntaxKind::EQ];
    let r = TokenSet::new(v).union(expr_first());
    assert forall|k: SyntaxKind| r.has(k) <==> is_field_first(k) by {
        if is_field_first(k) && !is_expr_first(k) {
            assert(v@.contains(k)) by {
                if k == SyntaxKind::FUNC_KW { assert(v@[0] == k); }
                else if k == SyntaxKind::IDENT { assert(v@[1] == k); }
                else { assert(v@[2] == k); }
            }
        }
    }
    r
}

/// `{ <field>, ... `: the fields of a table. The closing `}` is left to the caller.
/// Precondition: the current token is `{`.
#[verifier::spinoff_prover]
pub fn table_const(p: &mut Parser) -> (cm: CompletedMarker)
    requires
        old(p).wf(),
        old(p).current_spec() == Some(SyntaxKind::OPENBRACE),
    ensures
        final(p).st() == ps_table(old(p).input(), old(p).st()),
        cm.pos() == old(p).events().len(),
        consumed(final(p), old(p)),
        node_kind_is(final(p), &cm, SyntaxKind::TABLE_CONST),
    decreases old(p).remaining(), 14nat,
{
    let ghost inp = old(p).input();
    let m = p.start();
    p.bump(SyntaxKind::OPENBRACE);
    p.eat_trivia();
    let ghost items = ps_field_items(inp, p.st());
    let ff = field_first();
    assert((|k: SyntaxKind| ff.has(k)) =~= field_start());
    loop
        invariant_except_break
            ps_field_items(inp, p.st()) == items,
        invariant
            open_with(p, old(p), &m),
            p.input() == inp,
            p.position() > old(p).position(),
            forall|k: SyntaxKind| ff.has(k) <==> is_field_first(k),
        ensures
            open_with(p, old(p), &m),
            p.position() > old(p).position(),
            p.st() == items,
        decreases p.remaining(),
    {
        let ghost s = p.st();
        let go = match p.current() {
            Some(t) => t != SyntaxKind::CLOSEBRACE,
            None => false,
        };
        if !go {
            break;
        }
        if p.at(SyntaxKind::COMMA) {
            p.error(Message::Text("Missing <field>"));
            p.bump(SyntaxKind::COMMA);
            p.eat_trivia();
            assert(ps_field_items(inp, s) == ps_field_items(inp, p.st()));
            continue;
        }
        if p.at_ts(ff) {
            table_field(p);
        } else {
            break;
        }
        p.eat_trivia();
        let ghost s1 = p.st();
        if !p.eat(SyntaxKind::COMMA) {
            if p.at_ts(ff) {
                p.error(Message::Text("Missing ','"));
            } else {
                assert(ps_after_item(inp, s1, field_start()) is None);
                assert(ps_field_items(inp, s) == s1);
                break;
            }
        }
        p.eat_trivia();
        assert(ps_after_item(inp, s1, field_start()) == Some(p.st()));
        assert(ps_field_items(inp, s) == ps_field_items(inp, p.st()));
    }
    p.eat_trivia();
    m.complete(p, SyntaxKind::TABLE_CONST)
}

/// `[func] <field-name> = <expr>`. Precondition: the current token begins a field.
#[verifier::spinoff_prover]
#[verifier::rlimit(80)]
fn table_field(p: &mut Parser)
    requires
        old(p).wf(),
        old(p).current_spec() is Some,
        is_field_first(old(p).current_spec()->0),
    ensures
        opens_node(final(p), old(p), SyntaxKind::TABLE_FIELD),
        final(p).st() == ps_field(old(p).input(), old(p).st()),
        consumed(final(p), old(p)),
    decreases old(p).remaining(), 13nat,
{
    let ghost inp = old(p).input();
    let ghost s0 = old(p).st();
    let m = p.start();
    let ghost s1 = p.st();
    if p.eat(SyntaxKind::FUNC_KW) {
        p.eat_trivia();
        assert(p.st() == sp_trivia(inp, sp_bump(inp, s1)));
    }
    let ghost s2 = p.st();
    table_filed_name(p);
    p.eat_trivia();
    let ghost s3 = p.st();
    assert(s3 == sp_trivia(inp, ps_field_name(inp, s2)));
    let ef = expr_first();
    match p.current() {
        Some(SyntaxKind::EQ) => {
            p.bump(SyntaxKind::EQ);
            assert(p.st() == sp_bump(inp, s3));
        },
        Some(SyntaxKind::COLON) => {
            p.start_error();
            p.bump(SyntaxKind::COLON);
            p.finish_error(Message::Text("Should use '=' instead of ':'"));
            assert(p.st() == sp_finish_error(
                sp_bump(inp, sp_start_error(s3)),
                Message::Text("Should use '=' instead of ':'"),
            ));
        },
        Some(t) => {
            if ef.contains(t) {
                p.error(Message::Text("Missing '='"));
            } else {
                p.abandon();
                assert(p.st() == sp_abandon(inp, s3));
            }
        },
        None => {
            p.abandon();
            assert(p.st() == sp_abandon(inp, s3));
        },
    }
    let ghost s4 = p.st();
    p.eat_trivia();
    let ghost s5 = p.st();
    assert(s5 == sp_trivia(inp, s4));
    if p.at_ts(ef) {
        expression::expr(p);
    } else {
        p.error(Message::Text("Missing <expr>"));
    }
    m.complete(p, SyntaxKind::TABLE_FIELD);
}
/// The name of a field: an identifier, or `[ <expr> ]`. Where neither begins, the parse is
/// abandoned.
#[verifier::spinoff_prover]
fn table_filed_name(p: &mut Parser)
    requires
        old(p).wf(),
    ensures
        opens_node(
            final(p),
            old(p),
            match old(p).current_spec() {
                Some(SyntaxKind::IDENT) => SyntaxKind::TABLE_FIELD_NAME_IDENT,
                Some(SyntaxKind::OPENBRACKET) => SyntaxKind::TABLE_FIELD_NAME_EXPR,
                _ => SyntaxKind::ERROR,
            },
        ),
        final(p).st() == ps_field_name(old(p).input(), old(p).st()),
        final(p).advanced_from(old(p)),
        old(p).current_spec() is Some ==> final(p).position() > old(p).position(),
    decreases old(p).remaining(), 12nat,
{
    let m = p.start();
    match p.current() {
        Some(SyntaxKind::IDENT) => {
            p.bump(SyntaxKind::IDENT);
            m.complete(p, SyntaxKind::TABLE_FIELD_NAME_IDENT);
        },
        Some(SyntaxKind::OPENBRACKET) => {
            p.bump(SyntaxKind::OPENBRACKET);
            p.eat_trivia();
            if p.at_ts(expr_first()) {
                expression::expr(p);
            } else {
                p.error(Message::Text("Missing <expr>"));
            }
            p.eat_trivia();
            if !p.eat(SyntaxKind::CLOSEBRACKET) {
                p.error(Message::Text("Missing closing ']'"));
            }
            m.complete(p, SyntaxKind::TABLE_FIELD_NAME_EXPR);
        },
        _ => {
            p.error(Message::Text("Missing <field-name>"));
            m.complete(p, SyntaxKind::ERROR);
            p.abandon();
        },
    }
}

/// `func ( <params> ) <program> end`. Precondition: the current token is `func`.
#[verifier::spinoff_prover]
pub fn func_const(p: &mut Parser) -> (cm: CompletedMarker)
    requires
        old(p).wf(),
        old(p).current_spec() == Some(SyntaxKind::FUNC_KW),
    ensures
        final(p).st() == ps_func_const(old(p).input(), old(p).st()),
        cm.pos() == old(p).events().len(),
        consumed(final(p), old(p)),
        node_kind_is(final(p), &cm, SyntaxKind::FUNC_CONST),
    decreases old(p).remaining(), 14nat,
{
    let m = p.start();
    p.bump(SyntaxKind::FUNC_KW);
    p.eat_trivia();
    if p.at(SyntaxKind::OPENPAREN) {
        param_list(p);
    } else {
        p.abandon();
    }
    program(p);
    if !p.eat(SyntaxKind::END_KW) {
        p.error(Message::Text("Missing 'end'"));
    }
    m.complete(p, SyntaxKind::FUNC_CONST)
}

/// A variable. Precondition: the current token is an identifier.
#[verifier::spinoff_prover]
pub fn local_var(p: &mut Parser) -> (cm: CompletedMarker)
    requires
        old(p).wf(),
        old(p).current_spec() == Some(SyntaxKind::IDENT),
    ensures
        final(p).st() == ps_token_node(old(p).input(), old(p).st(), SyntaxKind::LOCAL_VAR),
        consumed(final(p), old(p)),
        node_kind_is(final(p), &cm, SyntaxKind::LOCAL_VAR),
        final(p).events() == old(p).events().push(
            EventRaw::StartNode { kind: SyntaxKind::LOCAL_VAR, forward_parent: None },
        ).push(EventRaw::Token { kind: SyntaxKind::IDENT }).push(EventRaw::FinishNode),
        final(p).position() == old(p).position() + 1,
        cm.pos() == old(p).events().len(),
        final(p).errors() == old(p).errors(),
        final(p).is_unfinished() == old(p).is_unfinished(),
{
    let m = p.start();
    p.bump(SyntaxKind::IDENT);
    let cm = m.complete(p, SyntaxKind::LOCAL_VAR);
    proof {
        assert(p.events() =~= old(p).events().push(
            EventRaw::StartNode { kind: SyntaxKind::LOCAL_VAR, forward_parent: None },
        ).push(EventRaw::Token { kind: SyntaxKind::IDENT }).push(EventRaw::FinishNode));
    }
    cm
}

} // verus!
