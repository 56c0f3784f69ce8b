use super::super::state::{EventRaw, Message, Parser};
use super::expression::{
    chain_end, chain_stop, is_operand, is_prefix_op, is_simple_operand, lemma_operand_end,
    lemma_pratt_end, lemma_pratt_no_errors,
    no_error_events, operator_chain, pratt,
};
use super::super::state::{lemma_trivia_end, token_events, trivia_end};
use super::events::{
    ps_for, ps_func_return, ps_func_stmt, ps_name_path, ps_param_list, ps_program, ps_return, ps_skip, ps_stmt,
    ps_token_node, ps_var, ps_while, return_name_stop,
};
use super::super::state::{sp_abandon, sp_bump, sp_complete, sp_error, sp_finish_error, sp_start, sp_start_error, sp_trivia};
use super::{
    opens_node, consumed, expr_first, expression, is_expr_first, is_stmt_first, name, name_path, param_list,
    program, stmt_first, util,
};
use crate::syntax_kind::SyntaxKind;
use vstd::prelude::*;

verus! {

/// The events of an expression statement that is an operator chain from `pos` to the end,
/// after the events `ev`.
pub open spec fn expr_stmt_events(inp: Seq<SyntaxKind>, pos: int, ev: Seq<EventRaw>) -> Seq<
    EventRaw,
> {
    pratt(inp, pos, 0, ev.push(EventRaw::Tombstone)).0.update(
        ev.len() as int,
        EventRaw::StartNode { kind: SyntaxKind::EXPR_STMT, forward_parent: None },
    ).push(EventRaw::FinishNode)
}

/// Where the parts of `var <name> = <chain>` at `pos` begin: the name, the `=`, and the
/// chain, each after the trivia that follows what comes before it.
pub open spec fn var_parts(inp: Seq<SyntaxKind>, pos: int) -> (int, int, int) {
    let t1 = trivia_end(inp, pos + 1);
    let t2 = trivia_end(inp, t1 + 1);
    let t3 = trivia_end(inp, t2 + 1);
    (t1, t2, t3)
}

/// At `pos`, `inp` holds `var <name> = <chain>`, the value an operator chain.
pub open spec fn var_chain(inp: Seq<SyntaxKind>, pos: int) -> bool {
    let (t1, t2, t3) = var_parts(inp, pos);
    &&& 0 <= pos < inp.len()
    &&& inp[pos] == SyntaxKind::VAR_KW
    &&& 0 <= t1 < inp.len()
    &&& inp[t1] == SyntaxKind::IDENT
    &&& 0 <= t2 < inp.len()
    &&& inp[t2] == SyntaxKind::EQ
    &&& operator_chain(inp, t3)
}

/// The events of `var <name> = ` at `pos`, with its trivia, after the events `ev`: the
/// statement's start is kept for its node, and the name makes a `NAME` node.
pub open spec fn var_value_prefix(inp: Seq<SyntaxKind>, pos: int, ev: Seq<EventRaw>) -> Seq<
    EventRaw,
> {
    let (t1, t2, t3) = var_parts(inp, pos);
    ((ev.push(EventRaw::Tombstone).push(EventRaw::Token { kind: SyntaxKind::VAR_KW })
        + token_events(inp.subrange(pos + 1, t1))).push(
        EventRaw::StartNode { kind: SyntaxKind::NAME, forward_parent: None },
    ).push(EventRaw::Token { kind: SyntaxKind::IDENT }).push(EventRaw::FinishNode)
        + token_events(inp.subrange(t1 + 1, t2))).push(EventRaw::Token { kind: SyntaxKind::EQ })
        + token_events(inp.subrange(t2 + 1, t3))
}

/// The events of the statement `var_chain` at `pos`, after the events `ev`.
pub open spec fn var_stmt_events(inp: Seq<SyntaxKind>, pos: int, ev: Seq<EventRaw>) -> Seq<
    EventRaw,
> {
    let (t1, t2, t3) = var_parts(inp, pos);
    let before_value = var_value_prefix(inp, pos, ev);
    pratt(inp, t3, 0, before_value).0.update(
        ev.len() as int,
        EventRaw::StartNode { kind: SyntaxKind::VAR_STMT, forward_parent: None },
    ).push(EventRaw::FinishNode)
}

/// At `pos`, `inp` holds `return`, then trivia, then an operator chain if an expression
/// begins there.
pub open spec fn return_chain(inp: Seq<SyntaxKind>, pos: int) -> bool {
    let t1 = trivia_end(inp, pos + 1);
    &&& 0 <= pos < inp.len()
    &&& inp[pos] == SyntaxKind::RETURN_KW
    &&& (t1 < inp.len() && is_expr_first(inp[t1])) ==> operator_chain(inp, t1)
}

/// Whether the `return` at `pos` has a value.
pub open spec fn return_has_value(inp: Seq<SyntaxKind>, pos: int) -> bool {
    let t1 = trivia_end(inp, pos + 1);
    0 <= t1 < inp.len() && is_expr_first(inp[t1])
}

/// A statement whose events the specs here give: an operator chain, `var <name> = <chain>`,
/// `return` with or without a chain, `break` or `continue`.
pub open spec fn plain_stmt(inp: Seq<SyntaxKind>, pos: int) -> bool {
    ||| operator_chain(inp, pos)
    ||| var_chain(inp, pos)
    ||| return_chain(inp, pos)
    ||| (0 <= pos < inp.len() && (inp[pos] == SyntaxKind::BREAK_KW || inp[pos]
        == SyntaxKind::CONTINUE_KW))
}

/// Where the plain statement at `pos` ends.
pub open spec fn plain_stmt_end(inp: Seq<SyntaxKind>, pos: int) -> int {
    if var_chain(inp, pos) {
        chain_end(inp, var_parts(inp, pos).2)
    } else if return_chain(inp, pos) {
        if return_has_value(inp, pos) {
            chain_end(inp, trivia_end(inp, pos + 1))
        } else {
            trivia_end(inp, pos + 1)
        }
    } else if 0 <= pos < inp.len() && (inp[pos] == SyntaxKind::BREAK_KW || inp[pos]
        == SyntaxKind::CONTINUE_KW) {
        pos + 1
    } else {
        chain_end(inp, pos)
    }
}

/// The events of the plain statement at `pos`, after the events `ev`.
pub open spec fn plain_stmt_events(inp: Seq<SyntaxKind>, pos: int, ev: Seq<EventRaw>) -> Seq<
    EventRaw,
> {
    if var_chain(inp, pos) {
        var_stmt_events(inp, pos, ev)
    } else if return_chain(inp, pos) {
        let t1 = trivia_end(inp, pos + 1);
        let base = ev.push(EventRaw::Tombstone).push(EventRaw::Token { kind: SyntaxKind::RETURN_KW })
            + token_events(inp.subrange(pos + 1, t1));
        let value = if return_has_value(inp, pos) {
            pratt(inp, t1, 0, base).0
        } else {
            base
        };
        value.update(
            ev.len() as int,
            EventRaw::StartNode { kind: SyntaxKind::RETURN_STMT, forward_parent: None },
        ).push(EventRaw::FinishNode)
    } else if 0 <= pos < inp.len() && inp[pos] == SyntaxKind::BREAK_KW {
        ev.push(EventRaw::StartNode { kind: SyntaxKind::BREAK_STMT, forward_parent: None }).push(
            EventRaw::Token { kind: SyntaxKind::BREAK_KW },
        ).push(EventRaw::FinishNode)
    } else if 0 <= pos < inp.len() && inp[pos] == SyntaxKind::CONTINUE_KW {
        ev.push(EventRaw::StartNode { kind: SyntaxKind::CONTINUE_STMT, forward_parent: None }).push(
            EventRaw::Token { kind: SyntaxKind::CONTINUE_KW },
        ).push(EventRaw::FinishNode)
    } else {
        expr_stmt_events(inp, pos, ev)
    }
}

/// From `pos` on, `inp` is trivia and plain statements, each beginning where the one before
/// it ends (after trivia).
pub open spec fn chain_statements(inp: Seq<SyntaxKind>, pos: int) -> bool
    decreases inp.len() - pos,
{
    let t = trivia_end(inp, pos);
    if !(0 <= pos <= t <= inp.len()) {
        false
    } else if t == inp.len() {
        true
    } else if !plain_stmt(inp, t) {
        false
    } else {
        let end = plain_stmt_end(inp, t);
        if !(t < end <= inp.len()) {
            false
        } else {
            chain_statements(inp, end)
        }
    }
}

/// The events of `chain_statements` from `pos` on, after the events `ev`: the trivia, then
/// each statement.
pub open spec fn chain_statement_events(inp: Seq<SyntaxKind>, pos: int, ev: Seq<EventRaw>) -> Seq<
    EventRaw,
>
    decreases inp.len() - pos,
{
    let t = trivia_end(inp, pos);
    if !(0 <= pos <= t <= inp.len()) {
        ev
    } else {
        let ev1 = ev + token_events(inp.subrange(pos, t));
        if t == inp.len() {
            ev1
        } else {
            let end = plain_stmt_end(inp, t);
            if !(t < end <= inp.len()) {
                ev1
            } else {
                chain_statement_events(inp, end, plain_stmt_events(inp, t, ev1))
            }
        }
    }
}

/// A statement. Precondition: the current token begins one.
#[verifier::spinoff_prover]
pub fn stmt(p: &mut Parser)
    requires
        old(p).wf(),
        old(p).current_spec() is Some,
        is_stmt_first(old(p).current_spec()->0),
    ensures
        opens_node(
            final(p),
            old(p),
            match old(p).current_spec()->0 {
                SyntaxKind::VAR_KW => SyntaxKind::VAR_STMT,
                SyntaxKind::FUNC_KW => SyntaxKind::FUNC_STMT,
                SyntaxKind::FOR_KW => SyntaxKind::FOR_STMT,
                SyntaxKind::WHILE_KW => SyntaxKind::WHILE_STMT,
                SyntaxKind::RETURN_KW => SyntaxKind::RETURN_STMT,
                SyntaxKind::BREAK_KW => SyntaxKind::BREAK_STMT,
                SyntaxKind::CONTINUE_KW => SyntaxKind::CONTINUE_STMT,
                _ => SyntaxKind::EXPR_STMT,
            },
        ),
        final(p).st() == ps_stmt(old(p).input(), old(p).st()),
        consumed(final(p), old(p)),
        plain_stmt(old(p).input(), old(p).position()) ==> {
            &&& final(p).events() == plain_stmt_events(
                old(p).input(),
                old(p).position(),
                old(p).events(),
            )
            &&& final(p).position() == plain_stmt_end(old(p).input(), old(p).position())
            &&& final(p).errors() == old(p).errors()
            &&& final(p).is_unfinished() == old(p).is_unfinished()
        },
    decreases old(p).remaining(), 20nat,
{
    proof {
        let k = old(p).input()[old(p).position()];
        if !is_prefix_op(k) && k != SyntaxKind::OPENPAREN && !is_simple_operand(k) {
            assert(!is_operand(old(p).input(), old(p).position()));
            assert(!operator_chain(old(p).input(), old(p).position()));
        }
        if k == SyntaxKind::VAR_KW && plain_stmt(old(p).input(), old(p).position()) {
            assert(!return_chain(old(p).input(), old(p).position()));
            assert(var_chain(old(p).input(), old(p).position()));
        }
        if operator_chain(old(p).input(), old(p).position()) {
            lemma_operand_end(old(p).input(), old(p).position());
            lemma_pratt_end(
                old(p).input(),
                old(p).position(),
                0,
                old(p).events().push(EventRaw::Tombstone),
                Seq::empty(),
            );
        }
    }
    let current = p.current_kind();
    match current {
        SyntaxKind::VAR_KW => var_stmt(p),
        SyntaxKind::FUNC_KW => func_stmt(p),
        SyntaxKind::FOR_KW => for_stmt(p),
        SyntaxKind::WHILE_KW => while_stmt(p),
        SyntaxKind::RETURN_KW => return_stmt(p),
        SyntaxKind::BREAK_KW => break_stmt(p),
        SyntaxKind::CONTINUE_KW => continue_stmt(p),
        _ => {
            let m = p.start();
            expression::expr(p);
            m.complete(p, SyntaxKind::EXPR_STMT);
        },
    }
}

/// `var <name> = <expr>`. Precondition: the current token is `var`.
#[verifier::spinoff_prover]
#[verifier::rlimit(100)]
fn var_stmt(p: &mut Parser)
    requires
        old(p).wf(),
        old(p).current_spec() == Some(SyntaxKind::VAR_KW),
    ensures
        opens_node(final(p), old(p), SyntaxKind::VAR_STMT),
        final(p).st() == ps_var(old(p).input(), old(p).st()),
        consumed(final(p), old(p)),
        var_chain(old(p).input(), old(p).position()) ==> {
            &&& final(p).events() == var_stmt_events(
                old(p).input(),
                old(p).position(),
                old(p).events(),
            )
            &&& final(p).position() == chain_end(
                old(p).input(),
                var_parts(old(p).input(), old(p).position()).2,
            )
            &&& (final(p).position() == final(p).input().len() || chain_stop(
                final(p).input()[final(p).position()],
            ))
            &&& final(p).errors() == old(p).errors()
            &&& final(p).is_unfinished() == old(p).is_unfinished()
        },
    decreases old(p).remaining(), 19nat,
{
    let ghost inp = old(p).input();
    let ghost pos = old(p).position();
    let ghost vc = var_chain(inp, pos);
    let ghost (t1, t2, t3) = var_parts(inp, pos);
    let m = p.start();
    p.bump(SyntaxKind::VAR_KW);
    let ghost s1 = *p;
    p.eat_trivia();
    proof {
        if vc {
            lemma_trivia_end(inp, pos + 1);
            assert(p.position() == t1);
        }
    }
    let ghost s2 = *p;
    let ghost q1 = p.st();
    assert(q1 == sp_trivia(inp, sp_bump(inp, sp_start(old(p).st()))));
    if p.at(SyntaxKind::IDENT) {
        name(p);
    } else {
        p.start_error();
        let ghost q3 = p.st();
        let message = match p.current() {
            Some(SyntaxKind::EQ) | None => Message::Text("Missing <name>"),
            Some(_) => {
                let e = p.start();
                p.bump_any();
                e.complete(p, SyntaxKind::ERROR);
                assert(p.st() == ps_token_node(inp, q3, SyntaxKind::ERROR));
                Message::ExpectedNameFound(p.current())
            },
        };
        p.finish_error(message);
    }
    let ghost s3 = *p;
    let ghost q2 = p.st();
    p.eat_trivia();
    let ghost q5 = p.st();
    assert(q5 == sp_trivia(inp, q2));
    proof {
        if vc {
            lemma_trivia_end(inp, t1 + 1);
            assert(p.position() == t2);
        }
    }
    let ghost s4 = *p;
    if p.eat(SyntaxKind::EQ) {
        let ghost s5 = *p;
        p.eat_trivia();
        proof {
            if vc {
                lemma_trivia_end(inp, t2 + 1);
                assert(p.position() == t3);
                lemma_operand_end(inp, t3);
                assert(is_expr_first(inp[t3]));
                assert(s2.events() == s1.events() + token_events(inp.subrange(pos + 1, t1)));
                assert(s4.events() == s3.events() + token_events(inp.subrange(t1 + 1, t2)));
                assert(p.events() == s5.events() + token_events(inp.subrange(t2 + 1, t3)));
                assert(p.events() == var_value_prefix(inp, pos, old(p).events()));
            }
        }
        let ghost q7 = p.st();
        assert(q7 == sp_trivia(inp, sp_bump(inp, q5)));
        if p.at_ts(expr_first()) {
            let ghost s6 = *p;
            expression::expr(p);
            proof {
                if vc {
                    lemma_pratt_end(inp, t3, 0, s6.events(), Seq::empty());
                }
            }
        } else {
            p.abandon();
        }
    } else {
        p.error(Message::Text("Missing '= <expr>': Variables must be initialized"));
    }
    let ghost q6 = p.st();
    m.complete(p, SyntaxKind::VAR_STMT);
    assert(p.st() == sp_complete(q6, old(p).events().len() as int, SyntaxKind::VAR_STMT));
    proof {
        if vc {
            assert(p.position() == chain_end(inp, t3));
            assert(p.errors() == old(p).errors());
        }
    }
}

/// `func <name-path> [-> <name>] (<params>) <program> end`.
/// Precondition: the current token is `func`.
#[verifier::spinoff_prover]
#[verifier::rlimit(100)]
fn func_stmt(p: &mut Parser)
    requires
        old(p).wf(),
        old(p).current_spec() == Some(SyntaxKind::FUNC_KW),
    ensures
        opens_node(final(p), old(p), SyntaxKind::FUNC_STMT),
        final(p).st() == ps_func_stmt(old(p).input(), old(p).st()),
        consumed(final(p), old(p)),
    decreases old(p).remaining(), 19nat,
{
    let ghost inp = old(p).input();
    let ghost s = old(p).st();
    let m = p.start();
    p.bump(SyntaxKind::FUNC_KW);
    p.eat_trivia();
    let ghost q1 = p.st();
    assert(q1 == sp_trivia(inp, sp_bump(inp, sp_start(s))));
    if p.at(SyntaxKind::IDENT) {
        if !name_path(p) {
            p.start_error();
            p.finish_error(Message::Text("Missing field name"));
        }
    }
    let ghost q2 = p.st();
    p.eat_trivia();
    let ghost q4 = p.st();
    assert(q4 == sp_trivia(inp, q2));
    func_return(p);
    let ghost q5 = p.st();
    p.eat_trivia();
    let ghost q9 = p.st();
    assert(q9 == sp_trivia(inp, q5));
    if p.at(SyntaxKind::OPENPAREN) {
        param_list(p);
    } else {
        p.error(Message::Text("Missing function parameters"));
    }
    let ghost q10 = p.st();
    program(p);
    let ghost q11 = p.st();
    assert(q11 == ps_program(inp, q10));
    if !p.eat(SyntaxKind::END_KW) {
        p.error(Message::Text("Missing 'end' keyword"));
    }
    let ghost q12 = p.st();
    m.complete(p, SyntaxKind::FUNC_STMT);
    assert(p.st() == sp_complete(q12, s.1.len() as int, SyntaxKind::FUNC_STMT));
}

/// The return name of a function statement, `-> <name>`, where an arrow comes.
#[verifier::spinoff_prover]
fn func_return(p: &mut Parser)
    requires
        old(p).wf(),
    ensures
        final(p).advanced_from(old(p)),
        final(p).st() == ps_func_return(old(p).input(), old(p).st()),
{
    let ghost inp = old(p).input();
    let ghost q4 = old(p).st();
    if p.eat(SyntaxKind::ARROW) {
        p.eat_trivia();
        let ghost q6 = p.st();
        assert(q6 == sp_trivia(inp, sp_bump(inp, q4)));
        if p.at(SyntaxKind::IDENT) {
            name(p);
        } else {
            let v = vec![SyntaxKind::END_KW, SyntaxKind::OPENPAREN];
            let ghost vv = v@;
            let next = stmt_first().unions(v);
            assert forall|k: SyntaxKind| next.has(k) <==> return_name_stop()(k) by {
                if k == SyntaxKind::END_KW { assert(vv[0] == k); }
                if k == SyntaxKind::OPENPAREN { assert(vv[1] == k); }
            }
            assert((|k: SyntaxKind| next.has(k)) =~= return_name_stop());
            p.start_error();
            let ghost q7 = p.st();
            if p.at_ts(next) {
                p.finish_error(Message::Text("Missing <name>"));
            } else {
                let e = p.start();
                util::skip_while_st(p, next);
                e.complete(p, SyntaxKind::ERROR);
                assert(p.st() == sp_complete(
                    ps_skip(inp, sp_start(q7), return_name_stop()),
                    q7.1.len() as int,
                    SyntaxKind::ERROR,
                ));
                p.finish_error(Message::Text("Expected <name>"));
            }
        }
    }
}
/// `for <name> in <expr> do <program> end`. Precondition: the current token is `for`.
#[verifier::spinoff_prover]
fn for_stmt(p: &mut Parser)
    requires
        old(p).wf(),
        old(p).current_spec() == Some(SyntaxKind::FOR_KW),
    ensures
        opens_node(final(p), old(p), SyntaxKind::FOR_STMT),
        final(p).st() == ps_for(old(p).input(), old(p).st()),
        consumed(final(p), old(p)),
    decreases old(p).remaining(), 19nat,
{
    let m = p.start();
    p.bump(SyntaxKind::FOR_KW);
    p.eat_trivia();
    if p.at(SyntaxKind::IDENT) {
        name(p);
    } else {
        p.abandon();
    }
    p.eat_trivia();
    if !p.eat(SyntaxKind::IN_KW) {
        p.abandon();
    }
    p.eat_trivia();
    if p.at_ts(expr_first()) {
        expression::expr(p);
    } else {
        p.abandon();
    }
    p.eat_trivia();
    if !p.eat(SyntaxKind::DO_KW) {
        p.abandon();
    }
    program(p);
    if !p.eat(SyntaxKind::END_KW) {
        p.error(Message::Text("Missing 'end' keyword"));
    }
    m.complete(p, SyntaxKind::FOR_STMT);
}

/// `while <expr> do <program> end`. Precondition: the current token is `while`.
#[verifier::spinoff_prover]
fn while_stmt(p: &mut Parser)
    requires
        old(p).wf(),
        old(p).current_spec() == Some(SyntaxKind::WHILE_KW),
    ensures
        opens_node(final(p), old(p), SyntaxKind::WHILE_STMT),
        final(p).st() == ps_while(old(p).input(), old(p).st()),
        consumed(final(p), old(p)),
    decreases old(p).remaining(), 19nat,
{
    let m = p.start();
    p.bump(SyntaxKind::WHILE_KW);
    p.eat_trivia();
    if p.at_ts(expr_first()) {
        expression::expr(p);
    } else {
        p.abandon();
    }
    p.eat_trivia();
    if !p.eat(SyntaxKind::DO_KW) {
        p.abandon();
    }
    program(p);
    if !p.eat(SyntaxKind::END_KW) {
        p.error(Message::Text("Missing 'end' keyword"));
    }
    m.complete(p, SyntaxKind::WHILE_STMT);
}

/// `return [<expr>]`. Precondition: the current token is `return`.
#[verifier::spinoff_prover]
fn return_stmt(p: &mut Parser)
    requires
        old(p).wf(),
        old(p).current_spec() == Some(SyntaxKind::RETURN_KW),
    ensures
        opens_node(final(p), old(p), SyntaxKind::RETURN_STMT),
        final(p).st() == ps_return(old(p).input(), old(p).st()),
        consumed(final(p), old(p)),
        return_chain(old(p).input(), old(p).position()) ==> {
            &&& final(p).events() == plain_stmt_events(
                old(p).input(),
                old(p).position(),
                old(p).events(),
            )
            &&& final(p).position() == plain_stmt_end(old(p).input(), old(p).position())
            &&& final(p).errors() == old(p).errors()
            &&& final(p).is_unfinished() == old(p).is_unfinished()
        },
    decreases old(p).remaining(), 19nat,
{
    let ghost inp = old(p).input();
    let ghost pos = old(p).position();
    let ghost rc = return_chain(inp, pos);
    let m = p.start();
    p.bump(SyntaxKind::RETURN_KW);
    p.eat_trivia();
    let ghost base = *p;
    proof {
        if rc {
            lemma_trivia_end(inp, pos + 1);
            assert(p.events() =~= old(p).events().push(EventRaw::Tombstone).push(
                EventRaw::Token { kind: SyntaxKind::RETURN_KW },
            ) + token_events(inp.subrange(pos + 1, p.position())));
            assert(!var_chain(inp, pos));
        }
    }
    if p.at_ts(expr_first()) {
        expression::expr(p);
        proof {
            if rc {
                lemma_pratt_end(inp, base.position(), 0, base.events(), Seq::empty());
            }
        }
    }
    m.complete(p, SyntaxKind::RETURN_STMT);
}

/// `break`. Precondition: the current token is `break`.
#[verifier::spinoff_prover]
fn break_stmt(p: &mut Parser)
    requires
        old(p).wf(),
        old(p).current_spec() == Some(SyntaxKind::BREAK_KW),
    ensures
        final(p).st() == ps_token_node(old(p).input(), old(p).st(), SyntaxKind::BREAK_STMT),
        consumed(final(p), old(p)),
        final(p).events() == old(p).events().push(
            EventRaw::StartNode { kind: SyntaxKind::BREAK_STMT, forward_parent: None },
        ).push(EventRaw::Token { kind: SyntaxKind::BREAK_KW }).push(EventRaw::FinishNode),
        final(p).position() == old(p).position() + 1,
        final(p).errors() == old(p).errors(),
        final(p).is_unfinished() == old(p).is_unfinished(),
{
    let m = p.start();
    p.bump(SyntaxKind::BREAK_KW);
    m.complete(p, SyntaxKind::BREAK_STMT);
    proof {
        assert(p.events() =~= old(p).events().push(
            EventRaw::StartNode { kind: SyntaxKind::BREAK_STMT, forward_parent: None },
        ).push(EventRaw::Token { kind: SyntaxKind::BREAK_KW }).push(EventRaw::FinishNode));
    }
}

/// `continue`. Precondition: the current token is `continue`.
#[verifier::spinoff_prover]
fn continue_stmt(p: &mut Parser)
    requires
        old(p).wf(),
        old(p).current_spec() == Some(SyntaxKind::CONTINUE_KW),
    ensures
        final(p).st() == ps_token_node(old(p).input(), old(p).st(), SyntaxKind::CONTINUE_STMT),
        consumed(final(p), old(p)),
        final(p).events() == old(p).events().push(
            EventRaw::StartNode { kind: SyntaxKind::CONTINUE_STMT, forward_parent: None },
        ).push(EventRaw::Token { kind: SyntaxKind::CONTINUE_KW }).push(EventRaw::FinishNode),
        final(p).position() == old(p).position() + 1,
        final(p).errors() == old(p).errors(),
        final(p).is_unfinished() == old(p).is_unfinished(),
{
    let m = p.start();
    p.bump(SyntaxKind::CONTINUE_KW);
    m.complete(p, SyntaxKind::CONTINUE_STMT);
    proof {
        assert(p.events() =~= old(p).events().push(
            EventRaw::StartNode { kind: SyntaxKind::CONTINUE_STMT, forward_parent: None },
        ).push(EventRaw::Token { kind: SyntaxKind::CONTINUE_KW }).push(EventRaw::FinishNode));
    }
}

} // verus!

verus! {

/// `ev` followed by more events with no error event has none.
proof fn lemma_no_errors_extend(ev: Seq<EventRaw>, more: Seq<EventRaw>)
    requires
        no_error_events(ev),
        no_error_events(more),
    ensures
        no_error_events(ev + more),
{
    let r = ev + more;
    assert forall|k: int| 0 <= k < r.len() implies !(#[trigger] r[k] is EmptyError) && !(
    r[k] is StartError) && !(r[k] is FinishError) by {
        if k < ev.len() {
            assert(r[k] == ev[k]);
        } else {
            assert(r[k] == more[k - ev.len()]);
        }
    }
}

proof fn lemma_token_events_no_errors(kinds: Seq<SyntaxKind>)
    ensures
        no_error_events(token_events(kinds)),
{
}

/// Replacing an event by a node start, and adding a node end, adds no error event.
proof fn lemma_no_errors_close(ev: Seq<EventRaw>, at: int, kind: SyntaxKind)
    requires
        no_error_events(ev),
        0 <= at < ev.len(),
    ensures
        no_error_events(
            ev.update(at, EventRaw::StartNode { kind, forward_parent: None }).push(
                EventRaw::FinishNode,
            ),
        ),
{
    let r = ev.update(at, EventRaw::StartNode { kind, forward_parent: None }).push(
        EventRaw::FinishNode,
    );
    assert forall|k: int| 0 <= k < r.len() implies !(#[trigger] r[k] is EmptyError) && !(
    r[k] is StartError) && !(r[k] is FinishError) by {
        if k < ev.len() && k != at {
            assert(r[k] == ev[k]);
        }
    }
}

/// A plain statement reports no syntax error.
proof fn lemma_plain_stmt_no_errors(inp: Seq<SyntaxKind>, t: int, ev: Seq<EventRaw>)
    requires
        no_error_events(ev),
    ensures
        no_error_events(plain_stmt_events(inp, t, ev)),
        plain_stmt_events(inp, t, ev).len() >= ev.len(),
{
    let marker = ev.push(EventRaw::Tombstone);
    lemma_no_errors_extend(ev, seq![EventRaw::Tombstone]);
    assert(ev + seq![EventRaw::Tombstone] =~= marker);
    if var_chain(inp, t) {
        let (t1, t2, t3) = var_parts(inp, t);
        let parts = seq![EventRaw::Token { kind: SyntaxKind::VAR_KW }] + token_events(
            inp.subrange(t + 1, t1),
        ) + seq![
            EventRaw::StartNode { kind: SyntaxKind::NAME, forward_parent: None },
            EventRaw::Token { kind: SyntaxKind::IDENT },
            EventRaw::FinishNode,
        ] + token_events(inp.subrange(t1 + 1, t2)) + seq![EventRaw::Token { kind: SyntaxKind::EQ }]
            + token_events(inp.subrange(t2 + 1, t3));
        lemma_token_events_no_errors(inp.subrange(t + 1, t1));
        lemma_token_events_no_errors(inp.subrange(t1 + 1, t2));
        lemma_token_events_no_errors(inp.subrange(t2 + 1, t3));
        let p1 = seq![EventRaw::Token { kind: SyntaxKind::VAR_KW }];
        let p2 = p1 + token_events(inp.subrange(t + 1, t1));
        lemma_no_errors_extend(p1, token_events(inp.subrange(t + 1, t1)));
        let p3 = p2 + seq![
            EventRaw::StartNode { kind: SyntaxKind::NAME, forward_parent: None },
            EventRaw::Token { kind: SyntaxKind::IDENT },
            EventRaw::FinishNode,
        ];
        lemma_no_errors_extend(
            p2,
            seq![
                EventRaw::StartNode { kind: SyntaxKind::NAME, forward_parent: None },
                EventRaw::Token { kind: SyntaxKind::IDENT },
                EventRaw::FinishNode,
            ],
        );
        let p4 = p3 + token_events(inp.subrange(t1 + 1, t2));
        lemma_no_errors_extend(p3, token_events(inp.subrange(t1 + 1, t2)));
        let p5 = p4 + seq![EventRaw::Token { kind: SyntaxKind::EQ }];
        lemma_no_errors_extend(p4, seq![EventRaw::Token { kind: SyntaxKind::EQ }]);
        lemma_no_errors_extend(p5, token_events(inp.subrange(t2 + 1, t3)));
        lemma_no_errors_extend(marker, parts);
        let before_value = var_value_prefix(inp, t, ev);
        assert(before_value =~= marker + parts);
        lemma_pratt_no_errors(inp, t3, 0, before_value);
        lemma_no_errors_close(pratt(inp, t3, 0, before_value).0, ev.len() as int, SyntaxKind::VAR_STMT);
    } else if return_chain(inp, t) {
        let t1 = trivia_end(inp, t + 1);
        let head = seq![EventRaw::Token { kind: SyntaxKind::RETURN_KW }] + token_events(
            inp.subrange(t + 1, t1),
        );
        lemma_token_events_no_errors(inp.subrange(t + 1, t1));
        lemma_no_errors_extend(
            seq![EventRaw::Token { kind: SyntaxKind::RETURN_KW }],
            token_events(inp.subrange(t + 1, t1)),
        );
        lemma_no_errors_extend(marker, head);
        let base = ev.push(EventRaw::Tombstone).push(EventRaw::Token { kind: SyntaxKind::RETURN_KW })
            + token_events(inp.subrange(t + 1, t1));
        assert(base =~= marker + head);
        if return_has_value(inp, t) {
            lemma_pratt_no_errors(inp, t1, 0, base);
            lemma_no_errors_close(pratt(inp, t1, 0, base).0, ev.len() as int, SyntaxKind::RETURN_STMT);
        } else {
            lemma_no_errors_close(base, ev.len() as int, SyntaxKind::RETURN_STMT);
        }
    } else if 0 <= t < inp.len() && (inp[t] == SyntaxKind::BREAK_KW || inp[t]
        == SyntaxKind::CONTINUE_KW) {
        let r = plain_stmt_events(inp, t, ev);
        assert forall|k: int| 0 <= k < r.len() implies !(#[trigger] r[k] is EmptyError) && !(
        r[k] is StartError) && !(r[k] is FinishError) by {
            if k < ev.len() {
                assert(r[k] == ev[k]);
            }
        }
    } else {
        lemma_pratt_no_errors(inp, t, 0, marker);
        lemma_no_errors_close(pratt(inp, t, 0, marker).0, ev.len() as int, SyntaxKind::EXPR_STMT);
    }
}

/// Parsing plain statements reports no syntax error.
pub proof fn lemma_chain_statements_no_errors(inp: Seq<SyntaxKind>, pos: int, ev: Seq<EventRaw>)
    requires
        no_error_events(ev),
    ensures
        no_error_events(chain_statement_events(inp, pos, ev)),
        chain_statement_events(inp, pos, ev).len() >= ev.len(),
    decreases inp.len() - pos,
{
    let t = trivia_end(inp, pos);
    if 0 <= pos <= t <= inp.len() {
        let ev1 = ev + token_events(inp.subrange(pos, t));
        lemma_token_events_no_errors(inp.subrange(pos, t));
        lemma_no_errors_extend(ev, token_events(inp.subrange(pos, t)));
        if t < inp.len() {
            let end = plain_stmt_end(inp, t);
            if t < end <= inp.len() {
                lemma_plain_stmt_no_errors(inp, t, ev1);
                lemma_chain_statements_no_errors(inp, end, plain_stmt_events(inp, t, ev1));
            }
        }
    }
}

} // verus!
