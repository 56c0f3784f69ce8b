use super::state::{token_events, CompletedMarker, EventRaw, Marker, Message, Parser};
use super::token_set::TokenSet;
use crate::syntax_kind::SyntaxKind;
use events::{
    ps_after_item, ps_arg_list, ps_entry, ps_expr_items, ps_missing_close, ps_name_path,
    ps_name_path_rest, ps_param_items, ps_param_list, ps_program, ps_program_items,
    ps_token_node, stmt_or, expr_start, no_stop,
};
use super::state::{at_kind, sp_bump, sp_precede, sp_start, sp_trivia};
use vstd::prelude::*;

pub mod atom;
pub mod events;
pub mod expression;
pub mod statement;
pub mod util;

verus! {

/// Kinds that begin a literal.
pub open spec fn is_literal_first(k: SyntaxKind) -> bool {
    k == SyntaxKind::INT || k == SyntaxKind::FLOAT || k == SyntaxKind::STRING || k
        == SyntaxKind::TRUE || k == SyntaxKind::FALSE || k == SyntaxKind::NIL
}

/// The set of the kinds that begin a literal.
pub fn literal_first() -> (r: TokenSet)
    ensures
        forall|k: SyntaxKind| r.has(k) <==> is_literal_first(k),
{
    let v = vec![
        SyntaxKind::INT,
        SyntaxKind::FLOAT,
        SyntaxKind::STRING,
        SyntaxKind::TRUE,
        SyntaxKind::FALSE,
        SyntaxKind::NIL,
    ];
    let r = TokenSet::new(v);
    assert forall|k: SyntaxKind| r.has(k) <==> is_literal_first(k) by {
        if is_literal_first(k) {
            assert(v@.contains(k)) by {
                if k == SyntaxKind::INT { assert(v@[0] == k); }
                else if k == SyntaxKind::FLOAT { assert(v@[1] == k); }
                else if k == SyntaxKind::STRING { assert(v@[2] == k); }
                else if k == SyntaxKind::TRUE { assert(v@[3] == k); }
                else if k == SyntaxKind::FALSE { assert(v@[4] == k); }
                else { assert(v@[5] == k); }
            }
        }
    }
    r
}

/// Kinds that begin an atom expression.
pub open spec fn is_atom_expr_first(k: SyntaxKind) -> bool {
    is_literal_first(k) || k == SyntaxKind::DO_KW || k == SyntaxKind::IF_KW || k
        == SyntaxKind::OPENPAREN || k == SyntaxKind::OPENBRACE || k == SyntaxKind::OPENBRACKET
        || k == SyntaxKind::FUNC_KW || k == SyntaxKind::IDENT
}

/// Kinds that begin an expression: an atom or a prefix operator (`!` is accepted, and reported).
pub open spec fn is_expr_first(k: SyntaxKind) -> bool {
    is_atom_expr_first(k) || k == SyntaxKind::PLUS || k == SyntaxKind::MINUS || k
        == SyntaxKind::NOT_KW || k == SyntaxKind::TILDE || k == SyntaxKind::BANG
}

/// Kinds that begin a statement.
pub open spec fn is_stmt_first(k: SyntaxKind) -> bool {
    is_expr_first(k) || k == SyntaxKind::VAR_KW || k == SyntaxKind::FUNC_KW || k
        == SyntaxKind::FOR_KW || k == SyntaxKind::WHILE_KW || k == SyntaxKind::RETURN_KW || k
        == SyntaxKind::BREAK_KW || k == SyntaxKind::CONTINUE_KW
}

/// The set of the kinds that begin an atom expression.
pub fn atom_expr_first() -> (r: TokenSet)
    ensures
        forall|k: SyntaxKind| r.has(k) <==> is_atom_expr_first(k),
{
    let v = vec![
        SyntaxKind::DO_KW,
        SyntaxKind::IF_KW,
        SyntaxKind::OPENPAREN,
        SyntaxKind::OPENBRACE,
        SyntaxKind::OPENBRACKET,
        SyntaxKind::FUNC_KW,
        SyntaxKind::IDENT,
    ];
    let r = literal_first().unions(v);
    assert forall|k: SyntaxKind| r.has(k) <==> is_atom_expr_first(k) by {
        if is_atom_expr_first(k) && !is_literal_first(k) {
            assert(v@.contains(k)) by {
                if k == SyntaxKind::DO_KW { assert(v@[0] == k); }
                else if k == SyntaxKind::IF_KW { assert(v@[1] == k); }
                else if k == SyntaxKind::OPENPAREN { assert(v@[2] == k); }
                else if k == SyntaxKind::OPENBRACE { assert(v@[3] == k); }
                else if k == SyntaxKind::OPENBRACKET { assert(v@[4] == k); }
                else if k == SyntaxKind::FUNC_KW { assert(v@[5] == k); }
                else { assert(v@[6] == k); }
            }
        }
    }
    r
}

/// The set of the kinds that begin an expression.
pub fn expr_first() -> (r: TokenSet)
    ensures
        forall|k: SyntaxKind| r.has(k) <==> is_expr_first(k),
{
    let v = vec![
        SyntaxKind::PLUS,
        SyntaxKind::MINUS,
        SyntaxKind::NOT_KW,
        SyntaxKind::TILDE,
        SyntaxKind::BANG,
    ];
    let r = atom_expr_first().unions(v);
    assert forall|k: SyntaxKind| r.has(k) <==> is_expr_first(k) by {
        if is_expr_first(k) && !is_atom_expr_first(k) {
            assert(v@.contains(k)) by {
                if k == SyntaxKind::PLUS { assert(v@[0] == k); }
                else if k == SyntaxKind::MINUS { assert(v@[1] == k); }
                else if k == SyntaxKind::NOT_KW { assert(v@[2] == k); }
                else if k == SyntaxKind::TILDE { assert(v@[3] == k); }
                else { assert(v@[4] == k); }
            }
        }
    }
    r
}

/// The set of the kinds that begin a statement.
pub fn stmt_first() -> (r: TokenSet)
    ensures
        forall|k: SyntaxKind| r.has(k) <==> is_stmt_first(k),
{
    let v = vec![
        SyntaxKind::VAR_KW,
        SyntaxKind::FUNC_KW,
        SyntaxKind::FOR_KW,
        SyntaxKind::WHILE_KW,
        SyntaxKind::RETURN_KW,
        SyntaxKind::BREAK_KW,
        SyntaxKind::CONTINUE_KW,
    ];
    let r = expr_first().unions(v);
    assert forall|k: SyntaxKind| r.has(k) <==> is_stmt_first(k) by {
        if is_stmt_first(k) && !is_expr_first(k) {
            assert(v@.contains(k)) by {
                if k == SyntaxKind::VAR_KW { assert(v@[0] == k); }
                else if k == SyntaxKind::FUNC_KW { assert(v@[1] == k); }
                else if k == SyntaxKind::FOR_KW { assert(v@[2] == k); }
                else if k == SyntaxKind::WHILE_KW { assert(v@[3] == k); }
                else if k == SyntaxKind::RETURN_KW { assert(v@[4] == k); }
                else if k == SyntaxKind::BREAK_KW { assert(v@[5] == k); }
                else { assert(v@[6] == k); }
            }
        }
    }
    r
}

/// The statements begin here, or the closing `c` (with the statements, a place to resume at).
pub fn stmt_first_or(c: SyntaxKind) -> (r: TokenSet)
    ensures
        forall|k: SyntaxKind| #[trigger] r.has(k) <==> (is_stmt_first(k) || k == c),
{
    let v = vec![c];
    let r = stmt_first().unions(v);
    assert(v@[0] == c);
    r
}

/// `new` came from `old` by reading at least one token, and every open marker is still open.
pub open spec fn consumed(new: &Parser, old: &Parser) -> bool {
    new.advanced_from(old) && new.position() > old.position()
}

/// `new` came from `old` by parsing on while `m` was open: `m` is open in `new`, and so is
/// every marker that was open in `old`, and no other.
pub open spec fn open_with(new: &Parser, old: &Parser, m: &Marker) -> bool {
    &&& new.progressed_from(old)
    &&& new.open_markers() == old.open_markers().insert(m.pos())
    &&& !old.open_markers().contains(m.pos())
}

/// Parsing from `old` to `new` opened, at the first new event, a node of kind `kind`.
pub open spec fn opens_node(new: &Parser, old: &Parser, kind: SyntaxKind) -> bool {
    &&& old.events().len() < new.events().len()
    &&& new.events()[old.events().len() as int] == (EventRaw::StartNode { kind, forward_parent: None })
}

/// The node started at `cm` has kind `kind`.
pub open spec fn node_kind_is(p: &Parser, cm: &CompletedMarker, kind: SyntaxKind) -> bool {
    p.has_completed(cm) && p.events()[cm.pos()]->StartNode_kind == kind
}

/// A sequence of statements, up to the first token that cannot begin one.
#[verifier::spinoff_prover]
pub fn program(p: &mut Parser)
    requires
        old(p).wf(),
    ensures
        final(p).st() == ps_program(old(p).input(), old(p).st()),
        final(p).advanced_from(old(p)),
        old(p).events().len() < final(p).events().len(),
        final(p).events()[old(p).events().len() as int] == (EventRaw::StartNode {
            kind: SyntaxKind::PROGRAM,
            forward_parent: None,
        }),
        final(p).events().last() == EventRaw::FinishNode,
        final(p).current_spec() is None || !(is_stmt_first(final(p).current_spec()->0)
            || final(p).current_spec()->0.spec_is_trivia()),
    decreases old(p).remaining(), 30nat,
{
    let ghost inp = old(p).input();
    let m = p.start();
    let ghost items = ps_program_items(inp, p.st());
    let st = stmt_first();
    loop
        invariant_except_break
            ps_program_items(inp, p.st()) == items,
        invariant
            p.progressed_from(old(p)),
            p.input() == inp,
            p.open_markers() == old(p).open_markers().insert(m.pos()),
            !old(p).open_markers().contains(m.pos()),
            forall|k: SyntaxKind| st.has(k) <==> is_stmt_first(k),
            m.pos() == old(p).events().len(),
            items == ps_program_items(inp, sp_start(old(p).st())),
        ensures
            p.progressed_from(old(p)),
            p.open_markers() == old(p).open_markers().insert(m.pos()),
            !old(p).open_markers().contains(m.pos()),
            m.pos() == old(p).events().len(),
            p.current_spec() is None || !(is_stmt_first(p.current_spec()->0)
                || p.current_spec()->0.spec_is_trivia()),
            p.st() == items,
        decreases p.remaining(),
    {
        let ghost s = p.st();
        p.eat_trivia();
        let ghost s1 = p.st();
        assert(s1 == sp_trivia(inp, s));
        if p.at_ts(st) {
            statement::stmt(p);
            assert(ps_program_items(inp, s) == ps_program_items(inp, p.st()));
        } else {
            assert(ps_program_items(inp, s) == s1);
            break;
        }
    }
    let ghost before = p.st();
    p.eat_trivia();
    assert(p.st() == sp_trivia(inp, before));
    m.complete(p, SyntaxKind::PROGRAM);
}

/// A name. Precondition: the current token is an identifier.
#[verifier::spinoff_prover]
pub fn name(p: &mut Parser) -> (cm: CompletedMarker)
    requires
        old(p).wf(),
        old(p).current_spec() == Some(SyntaxKind::IDENT),
    ensures
        final(p).st() == ps_token_node(old(p).input(), old(p).st(), SyntaxKind::NAME),
        cm.pos() == old(p).events().len(),
        consumed(final(p), old(p)),
        node_kind_is(final(p), &cm, SyntaxKind::NAME),
        final(p).events() == old(p).events().push(
            EventRaw::StartNode { kind: SyntaxKind::NAME, forward_parent: None },
        ).push(EventRaw::Token { kind: SyntaxKind::IDENT }).push(EventRaw::FinishNode),
        final(p).position() == old(p).position() + 1,
        final(p).errors() == old(p).errors(),
        final(p).is_unfinished() == old(p).is_unfinished(),
{
    let m = p.start();
    p.bump(SyntaxKind::IDENT);
    let cm = m.complete(p, SyntaxKind::NAME);
    proof {
        assert(p.events() =~= old(p).events().push(
            EventRaw::StartNode { kind: SyntaxKind::NAME, forward_parent: None },
        ).push(EventRaw::Token { kind: SyntaxKind::IDENT }).push(EventRaw::FinishNode));
    }
    cm
}

/// A dotted path of names; false if it ends with a `.` that no name follows.
/// Precondition: the current token is an identifier.
#[verifier::spinoff_prover]
pub fn name_path(p: &mut Parser) -> (r: bool)
    requires
        old(p).wf(),
        old(p).current_spec() == Some(SyntaxKind::IDENT),
    ensures
        (final(p).st(), r) == ps_name_path(old(p).input(), old(p).st()),
        consumed(final(p), old(p)),
{
    let ghost inp = old(p).input();
    let ghost target = ps_name_path(inp, old(p).st());
    let mut cm = name(p);
    loop
        invariant
            consumed(p, old(p)),
            p.has_completed(&cm),
            p.input() == inp,
            inp == old(p).input(),
            target == ps_name_path(old(p).input(), old(p).st()),
            ps_name_path_rest(inp, p.st(), cm.pos()) == target,
        decreases p.remaining(),
    {
        let ghost s = p.st();
        let ghost c0 = cm.pos();
        if !p.eat(SyntaxKind::DOT) {
            assert(!at_kind(inp, s, SyntaxKind::DOT));
            assert(ps_name_path_rest(inp, s, c0) == (s, true));
            return true;
        }
        assert(p.st() == sp_bump(inp, s));
        if p.at(SyntaxKind::IDENT) {
            let ghost s1 = p.st();
            let m = cm.precede(p);
            assert(p.st() == sp_precede(s1, cm.pos()));
            name(p);
            cm = m.complete(p, SyntaxKind::NAME_PATH);
            assert(ps_name_path_rest(inp, s, c0) == ps_name_path_rest(inp, p.st(), cm.pos()));
        } else {
            assert(ps_name_path_rest(inp, s, c0) == (sp_bump(inp, s), false));
            return false;
        }
    }
}

/// Reports a missing closing token `close`: where the input goes on with a statement or
/// `close` itself, an empty error; otherwise an error that covers, in an `ERROR` node, the
/// tokens up to that place.
#[verifier::spinoff_prover]
fn missing_close(p: &mut Parser, close: SyntaxKind, missing: &'static str, expected: &'static str)
    requires
        old(p).wf(),
    ensures
        final(p).st() == ps_missing_close(old(p).input(), old(p).st(), close, missing, expected),
        final(p).advanced_from(old(p)),
        final(p).errors() == old(p).errors().push(
            Message::Text(
                if old(p).current_spec() is Some && (is_stmt_first(old(p).current_spec()->0)
                    || old(p).current_spec()->0 == close) {
                    missing
                } else {
                    expected
                },
            ),
        ),
        final(p).events().last() == (EventRaw::FinishError {
            message_index: old(p).errors().len() as usize,
        }),
        final(p).current_spec() is None || is_stmt_first(final(p).current_spec()->0)
            || final(p).current_spec()->0 == close,
{
    let next_first = stmt_first_or(close);
    assert((|k: SyntaxKind| next_first.has(k)) =~= stmt_or(close));
    p.start_error();
    assert(p.current_spec() == old(p).current_spec());
    if p.at_ts(next_first) {
        p.finish_error(Message::Text(missing));
    } else {
        let m = p.start();
        util::skip_while_st(p, next_first);
        m.complete(p, SyntaxKind::ERROR);
        p.finish_error(Message::Text(expected));
    }
}

/// A parenthesised list of names, separated by commas.
/// Precondition: the current token is `(`.
#[verifier::spinoff_prover]
pub fn param_list(p: &mut Parser)
    requires
        old(p).wf(),
        old(p).current_spec() == Some(SyntaxKind::OPENPAREN),
    ensures
        opens_node(final(p), old(p), SyntaxKind::PARAM_LIST),
        final(p).st() == ps_param_list(old(p).input(), old(p).st()),
        consumed(final(p), old(p)),
{
    let ghost inp = old(p).input();
    let m = p.start();
    p.bump(SyntaxKind::OPENPAREN);
    p.eat_trivia();
    let ghost items = ps_param_items(inp, p.st());
    loop
        invariant_except_break
            ps_param_items(inp, p.st()) == items,
        invariant
            p.progressed_from(old(p)),
            p.input() == inp,
            p.position() > old(p).position(),
            p.open_markers() == old(p).open_markers().insert(m.pos()),
            !old(p).open_markers().contains(m.pos()),
        ensures
            p.progressed_from(old(p)),
            p.position() > old(p).position(),
            p.open_markers() == old(p).open_markers().insert(m.pos()),
            !old(p).open_markers().contains(m.pos()),
            p.st() == items,
        decreases p.remaining(),
    {
        let ghost s = p.st();
        let go = match p.current() {
            Some(t) => t != SyntaxKind::CLOSEPAREN,
            None => false,
        };
        if !go {
            break;
        }
        if p.at(SyntaxKind::COMMA) {
            p.error(Message::Text("Missing <name>"));
            p.bump(SyntaxKind::COMMA);
            p.eat_trivia();
            assert(ps_param_items(inp, s) == ps_param_items(inp, p.st()));
            continue;
        }
        if p.at(SyntaxKind::IDENT) {
            name(p);
        } else {
            break;
        }
        p.eat_trivia();
        let ghost s1 = p.st();
        if !p.eat(SyntaxKind::COMMA) {
            if p.at(SyntaxKind::IDENT) {
                p.error(Message::Text("Missing ','"));
            } else {
                assert(ps_param_items(inp, s) == s1);
                break;
            }
        }
        p.eat_trivia();
        assert(ps_param_items(inp, s) == ps_param_items(inp, p.st()));
    }
    p.eat_trivia();
    if !p.eat(SyntaxKind::CLOSEPAREN) {
        missing_close(p, SyntaxKind::CLOSEPAREN, "Missing closing ')'", "Expected closing ')'");
    }
    m.complete(p, SyntaxKind::PARAM_LIST);
}

/// A parenthesised list of expressions, separated by commas.
/// Precondition: the current token is `(`.
#[verifier::spinoff_prover]
pub fn arg_list(p: &mut Parser)
    requires
        old(p).wf(),
        old(p).current_spec() == Some(SyntaxKind::OPENPAREN),
    ensures
        opens_node(final(p), old(p), SyntaxKind::ARG_LIST),
        final(p).st() == ps_arg_list(old(p).input(), old(p).st()),
        consumed(final(p), old(p)),
    decreases old(p).remaining(), 13nat,
{
    let ghost inp = old(p).input();
    let m = p.start();
    p.bump(SyntaxKind::OPENPAREN);
    p.eat_trivia();
    let ghost items = ps_expr_items(inp, p.st(), SyntaxKind::CLOSEPAREN);
    let ef = expr_first();
    assert((|k: SyntaxKind| ef.has(k)) =~= expr_start());
    loop
        invariant_except_break
            ps_expr_items(inp, p.st(), SyntaxKind::CLOSEPAREN) == items,
        invariant
            p.progressed_from(old(p)),
            p.input() == inp,
            p.position() > old(p).position(),
            p.open_markers() == old(p).open_markers().insert(m.pos()),
            !old(p).open_markers().contains(m.pos()),
            forall|k: SyntaxKind| ef.has(k) <==> is_expr_first(k),
        ensures
            p.progressed_from(old(p)),
            p.position() > old(p).position(),
            p.open_markers() == old(p).open_markers().insert(m.pos()),
            !old(p).open_markers().contains(m.pos()),
            p.st() == items,
        decreases p.remaining(),
    {
        let ghost s = p.st();
        let go = match p.current() {
            Some(t) => t != SyntaxKind::CLOSEPAREN,
            None => false,
        };
        if !go {
            break;
        }
        if p.at(SyntaxKind::COMMA) {
            p.error(Message::Text("Missing <expr>"));
            p.bump(SyntaxKind::COMMA);
            p.eat_trivia();
            assert(ps_expr_items(inp, s, SyntaxKind::CLOSEPAREN) == ps_expr_items(inp, p.st(), SyntaxKind::CLOSEPAREN));
            continue;
        }
        if p.at_ts(ef) {
            expression::expr(p);
        } else {
            break;
        }
        p.eat_trivia();
        let ghost s1 = p.st();
        if !p.eat(SyntaxKind::COMMA) {
            if p.at_ts(ef) {
                p.error(Message::Text("Missing ','"));
            } else {
                assert(ps_after_item(inp, s1, expr_start()) is None);
                assert(ps_expr_items(inp, s, SyntaxKind::CLOSEPAREN) == s1);
                break;
            }
        }
        p.eat_trivia();
        assert(ps_after_item(inp, s1, expr_start()) == Some(p.st()));
        assert(ps_expr_items(inp, s, SyntaxKind::CLOSEPAREN) == ps_expr_items(inp, p.st(), SyntaxKind::CLOSEPAREN));
    }
    p.eat_trivia();
    if !p.eat(SyntaxKind::CLOSEPAREN) {
        missing_close(p, SyntaxKind::CLOSEPAREN, "Missing closing ')'", "Expected closing ')'");
    }
    m.complete(p, SyntaxKind::ARG_LIST);
}

/// The events of a program whose statements are operator chains (`chain_statements` from
/// `pos`), after the events `ev`.
pub open spec fn chain_program_events(inp: Seq<SyntaxKind>, pos: int, ev: Seq<EventRaw>) -> Seq<
    EventRaw,
> {
    statement::chain_statement_events(inp, pos, ev.push(EventRaw::Tombstone)).update(
        ev.len() as int,
        EventRaw::StartNode { kind: SyntaxKind::PROGRAM, forward_parent: None },
    ).push(EventRaw::FinishNode)
}

/// The whole input: statements, each token that cannot begin one reported in an `ERROR` node,
/// all in one `PROGRAM` node.
#[verifier::spinoff_prover]
pub fn entry(p: &mut Parser)
    requires
        old(p).wf(),
    ensures
        opens_node(final(p), old(p), SyntaxKind::PROGRAM),
        final(p).events().last() == EventRaw::FinishNode,
        final(p).st() == ps_entry(old(p).input(), old(p).st()),
        final(p).advanced_from(old(p)),
        final(p).position() == final(p).input().len(),
        util::only_trivia_left(old(p)) ==> {
            &&& final(p).events() == old(p).events().push(
                EventRaw::StartNode { kind: SyntaxKind::PROGRAM, forward_parent: None },
            ) + token_events(
                old(p).input().subrange(old(p).position(), old(p).input().len() as int),
            ).push(EventRaw::FinishNode)
            &&& final(p).errors() == old(p).errors()
            &&& final(p).is_unfinished() == old(p).is_unfinished()
        },
        statement::chain_statements(old(p).input(), old(p).position()) ==> {
            &&& final(p).events() == chain_program_events(
                old(p).input(),
                old(p).position(),
                old(p).events(),
            )
            &&& final(p).errors() == old(p).errors()
            &&& final(p).is_unfinished() == old(p).is_unfinished()
        },
{
    let m = p.start();
    let ghost started = *p;
    let none = TokenSet::new(Vec::new());
    assert((|k: SyntaxKind| none.has(k)) =~= no_stop());
    util::loop_stmt_until_st(p, none);
    p.eat_trivia();
    let ghost before_complete = *p;
    m.complete(p, SyntaxKind::PROGRAM);
    proof {
        if statement::chain_statements(old(p).input(), old(p).position()) {
            assert(before_complete.events() == statement::chain_statement_events(
                old(p).input(),
                old(p).position(),
                old(p).events().push(EventRaw::Tombstone),
            ));
        }
        if util::only_trivia_left(old(p)) {
            assert(util::only_trivia_left(&started));
            let te = token_events(
                old(p).input().subrange(old(p).position(), old(p).input().len() as int),
            );
            assert(before_complete.events() == old(p).events().push(EventRaw::Tombstone) + te);
            assert(p.events() =~= old(p).events().push(
                EventRaw::StartNode { kind: SyntaxKind::PROGRAM, forward_parent: None },
            ) + te.push(EventRaw::FinishNode));
        }
    }
}

} // verus!
