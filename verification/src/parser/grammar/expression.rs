use super::super::state::{
    lemma_trivia_end, token_events, trivia_end, CompletedMarker, EventRaw, Message, Parser,
};
use super::super::token_set::TokenSet;
use super::{
    atom, opens_node, consumed, expr_first, is_atom_expr_first, is_expr_first, is_literal_first, node_kind_is, open_with,
    program, util, name, arg_list,
};
use crate::syntax_kind::SyntaxKind;
use vstd::prelude::*;

use super::events::{
    ps_atom, ps_call, ps_do, ps_dot, ps_elif, ps_else, ps_expr, ps_expr_bp, ps_if, ps_index,
    ps_infix, ps_lhs, ps_method, ps_paren, ps_postfix, ps_branch_program, ps_elifs,
    ps_expect, ps_end, branch_stop,
};
use super::super::state::{sp_abandon, sp_bump, sp_complete, sp_error, sp_precede, sp_start, sp_trivia};

verus! {

/// A token that makes an operand on its own: a literal or a name.
pub open spec fn is_simple_operand(k: SyntaxKind) -> bool {
    is_literal_first(k) || k == SyntaxKind::IDENT
}

/// The node that a one-token operand makes.
pub open spec fn simple_operand_node(k: SyntaxKind) -> SyntaxKind {
    if k == SyntaxKind::IDENT {
        SyntaxKind::LOCAL_VAR
    } else {
        SyntaxKind::LITERAL
    }
}

/// Every infix operator binds less tightly than 255 on each side.
pub proof fn lemma_binding_power_below(k: SyntaxKind)
    ensures
        binding_power(k) is Some ==> (binding_power(k)->0).0 < 255 && (binding_power(k)->0).1
            < 255,
{
}

/// A prefix operator.
pub open spec fn is_prefix_op(k: SyntaxKind) -> bool {
    k == SyntaxKind::PLUS || k == SyntaxKind::MINUS || k == SyntaxKind::NOT_KW || k
        == SyntaxKind::TILDE
}

/// Where the `)` stands that closes the `(` at `pos`: the chain after the `(` (and its
/// trivia) ends there.
pub open spec fn paren_close(inp: Seq<SyntaxKind>, pos: int) -> int
    decreases inp.len() - pos, 3int,
{
    let t = trivia_end(inp, pos + 1);
    if !(0 <= pos < t <= inp.len()) {
        pos
    } else {
        pratt(inp, t, 0, Seq::empty()).1
    }
}

/// At `pos`, `inp` holds an operand: prefix operators, each followed by trivia, then a
/// one-token operand or a parenthesised operator chain.
pub open spec fn is_operand(inp: Seq<SyntaxKind>, pos: int) -> bool
    decreases inp.len() - pos, 4int,
{
    if !(0 <= pos < inp.len()) {
        false
    } else {
        let e = trivia_end(inp, pos + 1);
        if e <= pos || e > inp.len() {
            false
        } else if is_prefix_op(inp[pos]) {
            is_operand(inp, e)
        } else if inp[pos] == SyntaxKind::OPENPAREN {
            let c = paren_close(inp, pos);
            &&& operator_chain(inp, e)
            &&& e < c < inp.len()
            &&& inp[c] == SyntaxKind::CLOSEPAREN
        } else {
            is_simple_operand(inp[pos])
        }
    }
}

/// Where the atom at `pos` (a one-token operand, or a parenthesised chain) ends, before the
/// trivia after it.
pub open spec fn atom_end(inp: Seq<SyntaxKind>, pos: int) -> int
    decreases inp.len() - pos, 4int,
{
    if 0 <= pos < inp.len() && inp[pos] == SyntaxKind::OPENPAREN {
        paren_close(inp, pos) + 1
    } else {
        pos + 1
    }
}

/// The events of the atom at `pos`, after the events `ev`: a one-token operand makes a node;
/// a parenthesised chain makes a `PAREN_EXPR` node that holds the `(`, its trivia, the chain
/// and the `)`.
pub open spec fn atom_events(inp: Seq<SyntaxKind>, pos: int, ev: Seq<EventRaw>) -> Seq<EventRaw>
    decreases inp.len() - pos, 4int,
{
    if !(0 <= pos < inp.len()) {
        ev
    } else if inp[pos] == SyntaxKind::OPENPAREN {
        let t = trivia_end(inp, pos + 1);
        if !(pos < t <= inp.len()) {
            ev.push(EventRaw::Tombstone)
        } else {
            pratt(
                inp,
                t,
                0,
                ev.push(EventRaw::Tombstone).push(EventRaw::Token { kind: SyntaxKind::OPENPAREN })
                    + token_events(inp.subrange(pos + 1, t)),
            ).0.push(EventRaw::Token { kind: SyntaxKind::CLOSEPAREN }).update(
                ev.len() as int,
                EventRaw::StartNode { kind: SyntaxKind::PAREN_EXPR, forward_parent: None },
            ).push(EventRaw::FinishNode)
        }
    } else {
        ev.push(
            EventRaw::StartNode { kind: simple_operand_node(inp[pos]), forward_parent: None },
        ).push(EventRaw::Token { kind: inp[pos] }).push(EventRaw::FinishNode)
    }
}

/// Where the operand at `pos` ends, with the trivia after it.
pub open spec fn operand_end(inp: Seq<SyntaxKind>, pos: int) -> int
    decreases inp.len() - pos, 5int,
{
    if !(0 <= pos < inp.len()) {
        pos
    } else if is_prefix_op(inp[pos]) {
        let e = trivia_end(inp, pos + 1);
        if e <= pos || e > inp.len() {
            pos
        } else {
            operand_end(inp, e)
        }
    } else {
        trivia_end(inp, atom_end(inp, pos))
    }
}

/// The events of the operand at `pos`, after the events `ev`: an atom, followed by its
/// trivia; or a prefix operator, which opens a `PREFIX_EXPR` node that holds it, its trivia,
/// and the operand after it.
pub open spec fn operand_events(inp: Seq<SyntaxKind>, pos: int, ev: Seq<EventRaw>) -> Seq<
    EventRaw,
>
    decreases inp.len() - pos, 5int,
{
    if !(0 <= pos < inp.len()) {
        ev
    } else if is_prefix_op(inp[pos]) {
        let e = trivia_end(inp, pos + 1);
        if e <= pos || e > inp.len() {
            ev
        } else {
            operand_events(
                inp,
                e,
                ev.push(EventRaw::Tombstone).push(EventRaw::Token { kind: inp[pos] })
                    + token_events(inp.subrange(pos + 1, e)),
            ).update(
                ev.len() as int,
                EventRaw::StartNode { kind: SyntaxKind::PREFIX_EXPR, forward_parent: None },
            ).push(EventRaw::FinishNode)
        }
    } else {
        atom_events(inp, pos, ev) + token_events(
            inp.subrange(atom_end(inp, pos), trivia_end(inp, atom_end(inp, pos))),
        )
    }
}

/// The parts of a parenthesised chain at `pos`: the chain after `(` and its trivia, its end
/// at the `)`, and the events that `atom_events` gives.
pub proof fn lemma_paren_parts(inp: Seq<SyntaxKind>, pos: int, ev: Seq<EventRaw>)
    requires
        is_operand(inp, pos),
        inp[pos] == SyntaxKind::OPENPAREN,
    ensures
        ({
            let t = trivia_end(inp, pos + 1);
            let c = paren_close(inp, pos);
            &&& pos < t <= inp.len()
            &&& operator_chain(inp, t)
            &&& is_expr_first(inp[t])
            &&& t < c < inp.len()
            &&& inp[c] == SyntaxKind::CLOSEPAREN
            &&& c == pratt(inp, t, 0, Seq::empty()).1
            &&& atom_end(inp, pos) == c + 1
            &&& atom_events(inp, pos, ev) == pratt(
                inp,
                t,
                0,
                ev.push(EventRaw::Tombstone).push(EventRaw::Token { kind: SyntaxKind::OPENPAREN })
                    + token_events(inp.subrange(pos + 1, t)),
            ).0.push(EventRaw::Token { kind: SyntaxKind::CLOSEPAREN }).update(
                ev.len() as int,
                EventRaw::StartNode { kind: SyntaxKind::PAREN_EXPR, forward_parent: None },
            ).push(EventRaw::FinishNode)
        }),
{
    lemma_trivia_end(inp, pos + 1);
    let t = trivia_end(inp, pos + 1);
    assert(operator_chain(inp, t));
    lemma_operand_end(inp, t);
}

/// An operand ends after where it begins, within the input, at a token that is not trivia.
pub proof fn lemma_operand_end(inp: Seq<SyntaxKind>, pos: int)
    requires
        is_operand(inp, pos),
    ensures
        pos < operand_end(inp, pos) <= inp.len(),
        operand_end(inp, pos) < inp.len() ==> !inp[operand_end(inp, pos)].spec_is_trivia(),
        is_expr_first(inp[pos]),
        !is_prefix_op(inp[pos]) ==> pos < atom_end(inp, pos) <= inp.len(),
    decreases inp.len() - pos,
{
    lemma_trivia_end(inp, pos + 1);
    if is_prefix_op(inp[pos]) {
        lemma_operand_end(inp, trivia_end(inp, pos + 1));
    } else {
        lemma_trivia_end(inp, atom_end(inp, pos));
    }
}

/// From `pos` on, `inp` is operands joined by infix operators, with trivia after any token, up
/// to the end or to a token that ends the chain.
pub open spec fn operator_chain(inp: Seq<SyntaxKind>, pos: int) -> bool
    decreases inp.len() - pos, 6int,
{
    if !is_operand(inp, pos) {
        false
    } else {
        let e = operand_end(inp, pos);
        if e <= pos || e > inp.len() {
            false
        } else {
            proof {
                if e < inp.len() {
                    lemma_trivia_end(inp, e + 1);
                }
            }
            e >= inp.len() || chain_stop(inp[e]) || (binding_power(inp[e]) is Some
                && operator_chain(inp, trivia_end(inp, e + 1)))
        }
    }
}

/// After a prefix operator and its trivia, the rest of an operator chain is one too.
pub proof fn lemma_chain_after_prefix(inp: Seq<SyntaxKind>, pos: int)
    requires
        operator_chain(inp, pos),
        is_prefix_op(inp[pos]),
    ensures
        operator_chain(inp, trivia_end(inp, pos + 1)),
        operand_end(inp, trivia_end(inp, pos + 1)) == operand_end(inp, pos),
{
    lemma_trivia_end(inp, pos + 1);
    lemma_operand_end(inp, pos);
    lemma_operand_end(inp, trivia_end(inp, pos + 1));
}

/// A token where an operator chain ends: no infix operator, nothing that goes on with an
/// operand (`.`, `[`, `(`, `->`), no `~`, and no trivia.
pub open spec fn chain_stop(k: SyntaxKind) -> bool {
    &&& binding_power(k) is None
    &&& k != SyntaxKind::DOT
    &&& k != SyntaxKind::OPENBRACKET
    &&& k != SyntaxKind::OPENPAREN
    &&& k != SyntaxKind::ARROW
    &&& k != SyntaxKind::TILDE
    &&& !k.spec_is_trivia()
}

/// Where an operator chain may go on at `pos`: the input ends there, a token there ends the
/// chain, or an infix operator stands there and a chain follows it (after trivia).
pub open spec fn chain_goes_on(inp: Seq<SyntaxKind>, pos: int) -> bool {
    pos == inp.len() || (0 <= pos < inp.len() && (chain_stop(inp[pos]) || (binding_power(
        inp[pos],
    ) is Some && operator_chain(inp, trivia_end(inp, pos + 1)))))
}

/// The events of an operator chain parsed from `pos` with minimum binding power `min_bp`,
/// after the events `ev`: the events, where parsing stops, and where the outermost node
/// starts. The operand at `pos` comes first (`operand_events`); then `pratt_loop` joins
/// operands.
pub open spec fn pratt(inp: Seq<SyntaxKind>, pos: int, min_bp: u8, ev: Seq<EventRaw>) -> (
    Seq<EventRaw>,
    int,
    int,
)
    decreases inp.len() - pos, 7int,
{
    if !(0 <= pos < inp.len()) {
        (ev, pos, ev.len() as int)
    } else {
        let e = operand_end(inp, pos);
        if e <= pos || e > inp.len() {
            (ev, pos, ev.len() as int)
        } else {
            pratt_loop(inp, e, min_bp, operand_events(inp, pos, ev), ev.len() as int)
        }
    }
}

/// Joins what was parsed so far (whose node starts at `lhs`) with the operator at `pos` and
/// the operand to its right, while that operator binds at least as tightly as `min_bp` on its
/// left. The right operand is parsed, after the trivia that follows the operator, with the
/// operator's right binding power, so it takes in the operators that bind tighter to the
/// right; the new `BINARY_EXPR` node encloses the node at `lhs` (its start names the new node
/// as its parent) and becomes the left side.
pub open spec fn pratt_loop(
    inp: Seq<SyntaxKind>,
    pos: int,
    min_bp: u8,
    ev: Seq<EventRaw>,
    lhs: int,
) -> (Seq<EventRaw>, int, int)
    decreases inp.len() - pos, 0int,
{
    if !(0 <= pos < inp.len()) {
        (ev, pos, lhs)
    } else {
        match binding_power(inp[pos]) {
            None => (ev, pos, lhs),
            Some((l_bp, r_bp)) => if l_bp < min_bp {
                (ev, pos, lhs)
            } else {
                let m = ev.len() as int;
                let e = trivia_end(inp, pos + 1);
                let opened = ev.update(
                    lhs,
                    EventRaw::StartNode {
                        kind: ev[lhs]->StartNode_kind,
                        forward_parent: Some((m - lhs) as usize),
                    },
                ).push(EventRaw::Tombstone).push(EventRaw::Token { kind: inp[pos] }) + token_events(
                    inp.subrange(pos + 1, e),
                );
                if e <= pos || e > inp.len() {
                    (ev, pos, lhs)
                } else {
                    let (right, end, _) = pratt(inp, e, r_bp, opened);
                    if end <= pos || end > inp.len() {
                        (ev, pos, lhs)
                    } else {
                        let joined = right.update(
                            m,
                            EventRaw::StartNode {
                                kind: SyntaxKind::BINARY_EXPR,
                                forward_parent: None,
                            },
                        ).push(EventRaw::FinishNode);
                        pratt_loop(inp, end, min_bp, joined, m)
                    }
                }
            },
        }
    }
}

/// An expression. Precondition: the current token begins one.
#[verifier::spinoff_prover]
pub fn expr(p: &mut Parser)
    requires
        old(p).wf(),
        old(p).current_spec() is Some,
        is_expr_first(old(p).current_spec()->0),
    ensures
        final(p).st() == ps_expr(old(p).input(), old(p).st()),
        consumed(final(p), old(p)),
        operator_chain(old(p).input(), old(p).position()) ==> {
            &&& final(p).events() == pratt(
                old(p).input(),
                old(p).position(),
                0,
                old(p).events(),
            ).0
            &&& final(p).position() == pratt(
                old(p).input(),
                old(p).position(),
                0,
                old(p).events(),
            ).1
            &&& (final(p).position() == final(p).input().len() || chain_stop(
                final(p).input()[final(p).position()],
            ))
            &&& final(p).errors() == old(p).errors()
            &&& final(p).is_unfinished() == old(p).is_unfinished()
        },
    decreases old(p).remaining(), 18nat,
{
    expr_bp(p, 0);
}

/// An expression whose infix operators bind at least as tightly as `min_bp`. Where no
/// expression begins, reports it and reads nothing. On an operator chain, its events are
/// those of `pratt`.
#[verifier::spinoff_prover]
pub fn expr_bp(p: &mut Parser, min_bp: u8) -> (r: Option<CompletedMarker>)
    requires
        old(p).wf(),
    ensures
        final(p).st() == ps_expr_bp(old(p).input(), old(p).st(), min_bp).0,
        r is None <==> ps_expr_bp(old(p).input(), old(p).st(), min_bp).1 is None,
        r is Some ==> ps_expr_bp(old(p).input(), old(p).st(), min_bp).1 == Some(r->0.pos()),
        final(p).advanced_from(old(p)),
        r is Some <==> (old(p).current_spec() is Some && is_expr_first(
            old(p).current_spec()->0,
        )),
        r is Some ==> consumed(final(p), old(p)) && final(p).has_completed(&r->0),
        r is None ==> final(p).position() == old(p).position(),
        operator_chain(old(p).input(), old(p).position()) ==> {
            &&& r is Some
            &&& pratt(old(p).input(), old(p).position(), min_bp, old(p).events()) == (
                final(p).events(),
                final(p).position(),
                r->0.pos(),
            )
            &&& chain_goes_on(final(p).input(), final(p).position())
            &&& (min_bp == 0 ==> (final(p).position() == final(p).input().len() || chain_stop(
                final(p).input()[final(p).position()],
            )))
            &&& final(p).errors() == old(p).errors()
            &&& final(p).is_unfinished() == old(p).is_unfinished()
        },
    decreases old(p).remaining(), 17nat,
{
    let ghost chain = operator_chain(old(p).input(), old(p).position());
    proof {
        if chain {
            lemma_operand_end(old(p).input(), old(p).position());
        }
    }
    if !p.at_ts(expr_first()) {
        p.error(Message::Text("Expected <expr>"));
        return None;
    }
    let ghost inp = old(p).input();
    let ghost target = pratt(inp, old(p).position(), min_bp, old(p).events());
    let mut lhs = lhs(p);
    let ghost itarget = ps_infix(inp, p.st(), min_bp, lhs.pos());
    assert(ps_expr_bp(inp, old(p).st(), min_bp) == (itarget.0, Some(itarget.1)));
    loop
        invariant_except_break
            ps_infix(inp, p.st(), min_bp, lhs.pos()) == itarget,
        invariant
            consumed(p, old(p)),
            p.has_completed(&lhs),
            p.input() == inp,
            chain ==> pratt_loop(inp, p.position(), min_bp, p.events(), lhs.pos()) == target,
            chain ==> chain_goes_on(inp, p.position()),
            chain ==> p.errors() == old(p).errors() && p.is_unfinished() == old(p).is_unfinished(),
        ensures
            consumed(p, old(p)),
            p.has_completed(&lhs),
            p.input() == inp,
            chain ==> target == (p.events(), p.position(), lhs.pos()),
            chain ==> chain_goes_on(inp, p.position()),
            chain ==> p.errors() == old(p).errors() && p.is_unfinished() == old(p).is_unfinished(),
            chain && min_bp == 0 ==> (p.position() == inp.len() || chain_stop(inp[p.position()])),
            (p.st(), lhs.pos()) == itarget,
        decreases p.remaining(),
    {
        let ghost s = p.st();
        let ghost lhs0 = lhs.pos();
        p.eat_trivia();
        let ghost s1 = p.st();
        assert(s1 == sp_trivia(inp, s));
        let current = match p.current() {
            Some(current) => current,
            None => {
                assert(ps_infix(inp, s, min_bp, lhs0) == (s1, lhs0));
                break;
            },
        };
        match infix_op_binding_power(current) {
            Some((l_bp, r_bp)) => {
                if l_bp < min_bp {
                    assert(ps_infix(inp, s, min_bp, lhs0) == (s1, lhs0));
                    break;
                }
                let ghost before = *p;
                let ghost lhs_pos = lhs.pos();
                let m = lhs.precede(p);
                p.bump_any();
                let ghost bumped = *p;
                p.eat_trivia();
                proof {
                    if chain {
                        lemma_trivia_end(inp, before.position() + 1);
                        assert(p.events() == before.events().update(
                            lhs_pos,
                            EventRaw::StartNode {
                                kind: before.events()[lhs_pos]->StartNode_kind,
                                forward_parent: Some((before.events().len() - lhs_pos) as usize),
                            },
                        ).push(EventRaw::Tombstone).push(EventRaw::Token { kind: current })
                            + token_events(inp.subrange(before.position() + 1, p.position())));
                        assert(p.position() == trivia_end(inp, before.position() + 1));
                        assert(operator_chain(inp, p.position()));
                    }
                }
                let ghost s2 = p.st();
                assert(s2 == sp_trivia(inp, sp_bump(inp, sp_precede(s1, lhs0))));
                expr_bp(p, r_bp);
                lhs = m.complete(p, SyntaxKind::BINARY_EXPR);
                assert(p.st() == sp_complete(ps_expr_bp(inp, s2, r_bp).0, s1.1.len() as int, SyntaxKind::BINARY_EXPR));
                assert(ps_infix(inp, s, min_bp, lhs0) == ps_infix(inp, p.st(), min_bp, lhs.pos()));
            },
            None => {
                if current == SyntaxKind::TILDE && p.nth_at(1, SyntaxKind::EQ) {
                    p.abandon();
                    assert(ps_infix(inp, s, min_bp, lhs0) == (sp_abandon(inp, s1), lhs0));
                } else {
                    assert(ps_infix(inp, s, min_bp, lhs0) == (s1, lhs0));
                }
                break;
            },
        }
    }
    Some(lhs)
}

/// An operand: a prefix operator and its operand, or an atom and its postfix operators.
/// Precondition: the current token begins an expression.
#[verifier::spinoff_prover]
#[verifier::rlimit(60)]
fn lhs(p: &mut Parser) -> (cm: CompletedMarker)
    requires
        old(p).wf(),
        old(p).current_spec() is Some,
        is_expr_first(old(p).current_spec()->0),
    ensures
        (old(p).current_spec() == Some(SyntaxKind::PLUS) || old(p).current_spec() == Some(
            SyntaxKind::MINUS,
        ) || old(p).current_spec() == Some(SyntaxKind::NOT_KW) || old(p).current_spec() == Some(
            SyntaxKind::TILDE,
        ) || old(p).current_spec() == Some(SyntaxKind::BANG)) ==> opens_node(
            final(p),
            old(p),
            SyntaxKind::PREFIX_EXPR,
        ),
        (final(p).st(), cm.pos()) == ps_lhs(old(p).input(), old(p).st()),
        consumed(final(p), old(p)),
        final(p).has_completed(&cm),
        operator_chain(old(p).input(), old(p).position()) ==> {
            &&& final(p).events() == operand_events(
                old(p).input(),
                old(p).position(),
                old(p).events(),
            )
            &&& final(p).position() == operand_end(old(p).input(), old(p).position())
            &&& cm.pos() == old(p).events().len()
            &&& final(p).errors() == old(p).errors()
            &&& final(p).is_unfinished() == old(p).is_unfinished()
        },
    decreases old(p).remaining(), 16nat,
{
    let ghost chain = operator_chain(old(p).input(), old(p).position());
    let ghost inp = old(p).input();
    let ghost pos = old(p).position();
    let current = p.current_kind();
    if current == SyntaxKind::PLUS || current == SyntaxKind::MINUS || current == SyntaxKind::NOT_KW
        || current == SyntaxKind::TILDE {
        let m = p.start();
        p.bump_any();
        p.eat_trivia();
        let ghost opened = *p;
        proof {
            if chain {
                lemma_trivia_end(inp, pos + 1);
                lemma_chain_after_prefix(inp, pos);
                assert(p.position() == trivia_end(inp, pos + 1));
                assert(p.events() =~= old(p).events().push(EventRaw::Tombstone).push(
                    EventRaw::Token { kind: current },
                ) + token_events(inp.subrange(pos + 1, p.position())));
            }
        }
        expr_bp(p, 255);
        proof {
            if chain {
                let e = opened.position();
                lemma_operand_end(inp, e);
                let e2 = operand_end(inp, e);
                if e2 < inp.len() {
                    lemma_binding_power_below(inp[e2]);
                }
                assert(p.events() == operand_events(inp, e, opened.events()));
                assert(p.position() == e2);
            }
        }
        let cm = m.complete(p, SyntaxKind::PREFIX_EXPR);
        proof {
            if chain {
                assert(p.events() == operand_events(inp, pos, old(p).events()));
                assert(p.position() == operand_end(inp, opened.position()));
                assert(operand_end(inp, opened.position()) == operand_end(inp, pos));
                assert(p.errors() == old(p).errors());
                assert(p.is_unfinished() == old(p).is_unfinished());
            }
        }
        cm
    } else if current == SyntaxKind::BANG {
        proof {
            assert(!is_operand(inp, pos));
            assert(!chain);
        }
        let m = p.start();
        p.start_error();
        p.bump(SyntaxKind::BANG);
        p.finish_error(
            Message::Text("Should use `not` for logical negation or `~` for bitwise negation"),
        );
        p.eat_trivia();
        expr_bp(p, 255);
        m.complete(p, SyntaxKind::PREFIX_EXPR)
    } else {
        let mut lhs = atom_expr(p);
        let ghost atom_done = *p;
        p.eat_trivia();
        proof {
            if chain {
                lemma_operand_end(inp, pos);
                assert(atom_done.position() == atom_end(inp, pos));
                assert(p.position() == trivia_end(inp, atom_end(inp, pos)));
            }
        }
        proof {
            if chain {
                assert(p.events() == operand_events(inp, pos, old(p).events()));
                assert(p.position() == operand_end(inp, pos));
            }
        }
        let ghost after_atom = *p;
        let ghost atom_pos = lhs.pos();
        let ghost ptarget = ps_postfix(inp, p.st(), lhs.pos());
        assert(ps_lhs(inp, old(p).st()) == ptarget);
        loop
            invariant_except_break
                ps_postfix(inp, p.st(), lhs.pos()) == ptarget,
            invariant
                consumed(p, old(p)),
                p.has_completed(&lhs),
                p.input() == inp,
                chain ==> *p == after_atom && lhs.pos() == atom_pos,
                chain ==> chain_goes_on(p.input(), p.position()),
            ensures
                consumed(p, old(p)),
                p.has_completed(&lhs),
                chain ==> *p == after_atom && lhs.pos() == atom_pos,
                chain ==> chain_goes_on(p.input(), p.position()),
                (p.st(), lhs.pos()) == ptarget,
            decreases p.remaining(),
        {
            let ghost s = p.st();
            let ghost l0 = lhs.pos();
            match p.current() {
                Some(SyntaxKind::DOT) => {
                    lhs = dot_expr(p, lhs);
                },
                Some(SyntaxKind::OPENBRACKET) => {
                    lhs = index_expr(p, lhs);
                },
                Some(SyntaxKind::OPENPAREN) => {
                    lhs = call_expr(p, lhs);
                },
                Some(SyntaxKind::ARROW) => {
                    lhs = method_call_expr(p, lhs);
                },
                _ => {
                    assert(ps_postfix(inp, s, l0) == (s, l0));
                    break;
                },
            }
            assert(ps_postfix(inp, s, l0) == ps_postfix(inp, p.st(), lhs.pos()));
        }
        proof {
            if chain {
                assert(*p == after_atom);
                assert(p.events() == operand_events(inp, pos, old(p).events()));
                assert(p.position() == operand_end(inp, pos));
                assert(p.errors() == old(p).errors());
                assert(p.is_unfinished() == old(p).is_unfinished());
            }
        }
        lhs
    }
}

/// Binding power of a left-associative operator of precedence `precedence`.
pub open spec fn left_bp(precedence: u8) -> (u8, u8) {
    ((2 * precedence + 1) as u8, (2 * precedence + 2) as u8)
}

/// Binding power of a right-associative operator of precedence `precedence`.
pub open spec fn right_bp(precedence: u8) -> (u8, u8) {
    ((2 * precedence + 2) as u8, (2 * precedence + 1) as u8)
}

/// Precedence of the infix operators, and whether each is right-associative.
///
/// | Precedence | Associativity | Operators |
/// | ---------- | ------------- | --------- |
/// | 11: Multiplicative | left | `*`, `/`, `%` |
/// | 10: Additive | left | `+`, `-` |
/// |  9: String concatenation | right | `..` |
/// |  8: Shift | left | `<<`, `>>` |
/// |  7: Bitwise-AND | left | `&` |
/// |  6: Bitwise-XOR | left | `^` |
/// |  5: Bitwise-OR | left | `|` |
/// |  4: Relational | left | `<`, `<=`, `>`, `>=` |
/// |  3: Equality | left | `==`, `!=` |
/// |  2: Logical-AND | left | `and` |
/// |  1: Logical-OR | left | `or` |
/// |  0: Assignment | right | `=` |
///
/// Prefix operators bind tighter than all of these, and postfix operators tighter still.
pub open spec fn infix_precedence(kind: SyntaxKind) -> Option<(u8, bool)> {
    match kind {
        SyntaxKind::STAR | SyntaxKind::SLASH | SyntaxKind::PERCENT => Some((11, false)),
        SyntaxKind::PLUS | SyntaxKind::MINUS => Some((10, false)),
        SyntaxKind::DOT2 => Some((9, true)),
        SyntaxKind::LT2 | SyntaxKind::GT2 => Some((8, false)),
        SyntaxKind::AMP => Some((7, false)),
        SyntaxKind::CARET => Some((6, false)),
        SyntaxKind::PIPE => Some((5, false)),
        SyntaxKind::LT | SyntaxKind::LTEQ | SyntaxKind::GT | SyntaxKind::GTEQ => Some((4, false)),
        SyntaxKind::EQ2 | SyntaxKind::BANGEQ => Some((3, false)),
        SyntaxKind::AND_KW => Some((2, false)),
        SyntaxKind::OR_KW => Some((1, false)),
        SyntaxKind::EQ => Some((0, true)),
        _ => None,
    }
}

/// The binding powers of an infix operator: its precedence made a pair, bound tighter on the
/// right for a left-associative operator and on the left for a right-associative one.
pub open spec fn binding_power(kind: SyntaxKind) -> Option<(u8, u8)> {
    match infix_precedence(kind) {
        None => None,
        Some((precedence, right_assoc)) => Some(
            if right_assoc {
                right_bp(precedence)
            } else {
                left_bp(precedence)
            },
        ),
    }
}

/// Operators of higher precedence bind tighter than operators of lower precedence, on both
/// sides; an operator of the same precedence that follows a left-associative one does not bind
/// tighter than it, and one that follows a right-associative one does.
pub proof fn law_binding_power(a: SyntaxKind, b: SyntaxKind)
    requires
        infix_precedence(a) is Some,
        infix_precedence(b) is Some,
    ensures
        ({
            let (pa, ra) = infix_precedence(a)->0;
            let (pb, rb) = infix_precedence(b)->0;
            let (la, rra) = binding_power(a)->0;
            let (lb, rrb) = binding_power(b)->0;
            &&& pa > pb ==> la > lb && la > rrb && rra > lb && rra > rrb
            &&& pa == pb && !ra ==> lb < rra
            &&& pa == pb && ra ==> lb > rra
            &&& !ra ==> la < rra
            &&& ra ==> la > rra
        }),
{
}

/// The multiplicative operators `*`, `/` and `%` share one binding power, and it is strictly
/// tighter than that of the additive operators `+` and `-` on both sides: in `a + b / c` the
/// division takes `b`, and in `a / b + c` it keeps `b`. The additive operators share one binding
/// power too, and all of these are left-associative: an operator of the same group that follows
/// binds less tightly than the one before.
pub proof fn law_multiplicative_binds_tighter_than_additive(m: SyntaxKind, a: SyntaxKind)
    requires
        m == SyntaxKind::STAR || m == SyntaxKind::SLASH || m == SyntaxKind::PERCENT,
        a == SyntaxKind::PLUS || a == SyntaxKind::MINUS,
    ensures
        binding_power(m) is Some,
        binding_power(a) is Some,
        binding_power(m) == binding_power(SyntaxKind::STAR),
        binding_power(a) == binding_power(SyntaxKind::PLUS),
        (binding_power(m)->0).0 > (binding_power(a)->0).1,
        (binding_power(m)->0).1 > (binding_power(a)->0).0,
        (binding_power(m)->0).0 < (binding_power(m)->0).1,
        (binding_power(a)->0).0 < (binding_power(a)->0).1,
{
}

/// The table of the infix operators: exactly these kinds are infix operators; each group
/// shares one binding power; the groups bind, from tightest to loosest, as multiplicative
/// (`*`, `/`, `%`), additive (`+`, `-`), concatenation (`..`), shift (`<<`, `>>`), `&`, `^`,
/// `|`, relational (`<`, `<=`, `>`, `>=`), equality (`==`, `!=`), `and`, `or`, assignment
/// (`=`), each group's binding power on both sides above both of the next group's; and
/// concatenation and assignment are right-associative, all the others left-associative.
pub proof fn law_infix_operator_table(k: SyntaxKind)
    ensures
        binding_power(k) is Some <==> (k == SyntaxKind::STAR || k == SyntaxKind::SLASH || k == SyntaxKind::PERCENT || k == SyntaxKind::PLUS || k == SyntaxKind::MINUS || k == SyntaxKind::DOT2 || k == SyntaxKind::LT2 || k == SyntaxKind::GT2 || k == SyntaxKind::AMP || k == SyntaxKind::CARET || k == SyntaxKind::PIPE || k == SyntaxKind::LT || k == SyntaxKind::LTEQ || k == SyntaxKind::GT || k == SyntaxKind::GTEQ || k == SyntaxKind::EQ2 || k == SyntaxKind::BANGEQ || k == SyntaxKind::AND_KW || k == SyntaxKind::OR_KW || k == SyntaxKind::EQ),
        binding_power(SyntaxKind::SLASH) == binding_power(SyntaxKind::STAR),
        binding_power(SyntaxKind::PERCENT) == binding_power(SyntaxKind::STAR),
        binding_power(SyntaxKind::MINUS) == binding_power(SyntaxKind::PLUS),
        binding_power(SyntaxKind::GT2) == binding_power(SyntaxKind::LT2),
        binding_power(SyntaxKind::LTEQ) == binding_power(SyntaxKind::LT),
        binding_power(SyntaxKind::GT) == binding_power(SyntaxKind::LT),
        binding_power(SyntaxKind::GTEQ) == binding_power(SyntaxKind::LT),
        binding_power(SyntaxKind::BANGEQ) == binding_power(SyntaxKind::EQ2),
        (binding_power(SyntaxKind::STAR)->0).0 > (binding_power(SyntaxKind::PLUS)->0).0 && (binding_power(SyntaxKind::STAR)->0).0 > (binding_power(SyntaxKind::PLUS)->0).1 && (binding_power(SyntaxKind::STAR)->0).1 > (binding_power(SyntaxKind::PLUS)->0).0 && (binding_power(SyntaxKind::STAR)->0).1 > (binding_power(SyntaxKind::PLUS)->0).1,
        (binding_power(SyntaxKind::PLUS)->0).0 > (binding_power(SyntaxKind::DOT2)->0).0 && (binding_power(SyntaxKind::PLUS)->0).0 > (binding_power(SyntaxKind::DOT2)->0).1 && (binding_power(SyntaxKind::PLUS)->0).1 > (binding_power(SyntaxKind::DOT2)->0).0 && (binding_power(SyntaxKind::PLUS)->0).1 > (binding_power(SyntaxKind::DOT2)->0).1,
        (binding_power(SyntaxKind::DOT2)->0).0 > (binding_power(SyntaxKind::LT2)->0).0 && (binding_power(SyntaxKind::DOT2)->0).0 > (binding_power(SyntaxKind::LT2)->0).1 && (binding_power(SyntaxKind::DOT2)->0).1 > (binding_power(SyntaxKind::LT2)->0).0 && (binding_power(SyntaxKind::DOT2)->0).1 > (binding_power(SyntaxKind::LT2)->0).1,
        (binding_power(SyntaxKind::LT2)->0).0 > (binding_power(SyntaxKind::AMP)->0).0 && (binding_power(SyntaxKind::LT2)->0).0 > (binding_power(SyntaxKind::AMP)->0).1 && (binding_power(SyntaxKind::LT2)->0).1 > (binding_power(SyntaxKind::AMP)->0).0 && (binding_power(SyntaxKind::LT2)->0).1 > (binding_power(SyntaxKind::AMP)->0).1,
        (binding_power(SyntaxKind::AMP)->0).0 > (binding_power(SyntaxKind::CARET)->0).0 && (binding_power(SyntaxKind::AMP)->0).0 > (binding_power(SyntaxKind::CARET)->0).1 && (binding_power(SyntaxKind::AMP)->0).1 > (binding_power(SyntaxKind::CARET)->0).0 && (binding_power(SyntaxKind::AMP)->0).1 > (binding_power(SyntaxKind::CARET)->0).1,
        (binding_power(SyntaxKind::CARET)->0).0 > (binding_power(SyntaxKind::PIPE)->0).0 && (binding_power(SyntaxKind::CARET)->0).0 > (binding_power(SyntaxKind::PIPE)->0).1 && (binding_power(SyntaxKind::CARET)->0).1 > (binding_power(SyntaxKind::PIPE)->0).0 && (binding_power(SyntaxKind::CARET)->0).1 > (binding_power(SyntaxKind::PIPE)->0).1,
        (binding_power(SyntaxKind::PIPE)->0).0 > (binding_power(SyntaxKind::LT)->0).0 && (binding_power(SyntaxKind::PIPE)->0).0 > (binding_power(SyntaxKind::LT)->0).1 && (binding_power(SyntaxKind::PIPE)->0).1 > (binding_power(SyntaxKind::LT)->0).0 && (binding_power(SyntaxKind::PIPE)->0).1 > (binding_power(SyntaxKind::LT)->0).1,
        (binding_power(SyntaxKind::LT)->0).0 > (binding_power(SyntaxKind::EQ2)->0).0 && (binding_power(SyntaxKind::LT)->0).0 > (binding_power(SyntaxKind::EQ2)->0).1 && (binding_power(SyntaxKind::LT)->0).1 > (binding_power(SyntaxKind::EQ2)->0).0 && (binding_power(SyntaxKind::LT)->0).1 > (binding_power(SyntaxKind::EQ2)->0).1,
        (binding_power(SyntaxKind::EQ2)->0).0 > (binding_power(SyntaxKind::AND_KW)->0).0 && (binding_power(SyntaxKind::EQ2)->0).0 > (binding_power(SyntaxKind::AND_KW)->0).1 && (binding_power(SyntaxKind::EQ2)->0).1 > (binding_power(SyntaxKind::AND_KW)->0).0 && (binding_power(SyntaxKind::EQ2)->0).1 > (binding_power(SyntaxKind::AND_KW)->0).1,
        (binding_power(SyntaxKind::AND_KW)->0).0 > (binding_power(SyntaxKind::OR_KW)->0).0 && (binding_power(SyntaxKind::AND_KW)->0).0 > (binding_power(SyntaxKind::OR_KW)->0).1 && (binding_power(SyntaxKind::AND_KW)->0).1 > (binding_power(SyntaxKind::OR_KW)->0).0 && (binding_power(SyntaxKind::AND_KW)->0).1 > (binding_power(SyntaxKind::OR_KW)->0).1,
        (binding_power(SyntaxKind::OR_KW)->0).0 > (binding_power(SyntaxKind::EQ)->0).0 && (binding_power(SyntaxKind::OR_KW)->0).0 > (binding_power(SyntaxKind::EQ)->0).1 && (binding_power(SyntaxKind::OR_KW)->0).1 > (binding_power(SyntaxKind::EQ)->0).0 && (binding_power(SyntaxKind::OR_KW)->0).1 > (binding_power(SyntaxKind::EQ)->0).1,
        (binding_power(SyntaxKind::STAR)->0).0 < (binding_power(SyntaxKind::STAR)->0).1,
        (binding_power(SyntaxKind::PLUS)->0).0 < (binding_power(SyntaxKind::PLUS)->0).1,
        (binding_power(SyntaxKind::DOT2)->0).0 > (binding_power(SyntaxKind::DOT2)->0).1,
        (binding_power(SyntaxKind::LT2)->0).0 < (binding_power(SyntaxKind::LT2)->0).1,
        (binding_power(SyntaxKind::AMP)->0).0 < (binding_power(SyntaxKind::AMP)->0).1,
        (binding_power(SyntaxKind::CARET)->0).0 < (binding_power(SyntaxKind::CARET)->0).1,
        (binding_power(SyntaxKind::PIPE)->0).0 < (binding_power(SyntaxKind::PIPE)->0).1,
        (binding_power(SyntaxKind::LT)->0).0 < (binding_power(SyntaxKind::LT)->0).1,
        (binding_power(SyntaxKind::EQ2)->0).0 < (binding_power(SyntaxKind::EQ2)->0).1,
        (binding_power(SyntaxKind::AND_KW)->0).0 < (binding_power(SyntaxKind::AND_KW)->0).1,
        (binding_power(SyntaxKind::OR_KW)->0).0 < (binding_power(SyntaxKind::OR_KW)->0).1,
        (binding_power(SyntaxKind::EQ)->0).0 > (binding_power(SyntaxKind::EQ)->0).1,
{
}

fn left(precedence: u8) -> (r: (u8, u8))
    requires
        precedence <= 11,
    ensures
        r == left_bp(precedence),
{
    (2 * precedence + 1, 2 * precedence + 2)
}

fn right(precedence: u8) -> (r: (u8, u8))
    requires
        precedence <= 11,
    ensures
        r == right_bp(precedence),
{
    (2 * precedence + 2, 2 * precedence + 1)
}

/// The left and right binding powers of an infix operator, or `None` if `kind` is none.
pub fn infix_op_binding_power(kind: SyntaxKind) -> (r: Option<(u8, u8)>)
    ensures
        r == binding_power(kind),
{
    let bp = match kind {
        SyntaxKind::STAR | SyntaxKind::SLASH | SyntaxKind::PERCENT => left(11),
        SyntaxKind::PLUS | SyntaxKind::MINUS => left(10),
        SyntaxKind::DOT2 => right(9),
        SyntaxKind::LT2 | SyntaxKind::GT2 => left(8),
        SyntaxKind::AMP => left(7),
        SyntaxKind::CARET => left(6),
        SyntaxKind::PIPE => left(5),
        SyntaxKind::LT | SyntaxKind::LTEQ | SyntaxKind::GT | SyntaxKind::GTEQ => left(4),
        SyntaxKind::EQ2 | SyntaxKind::BANGEQ => left(3),
        SyntaxKind::AND_KW => left(2),
        SyntaxKind::OR_KW => left(1),
        SyntaxKind::EQ => right(0),
        _ => return None,
    };
    Some(bp)
}

/// An atom expression. Precondition: the current token begins one.
#[verifier::spinoff_prover]
fn atom_expr(p: &mut Parser) -> (cm: CompletedMarker)
    requires
        old(p).wf(),
        old(p).current_spec() is Some,
        is_atom_expr_first(old(p).current_spec()->0),
    ensures
        final(p).st() == ps_atom(old(p).input(), old(p).st()),
        cm.pos() == old(p).events().len(),
        consumed(final(p), old(p)),
        final(p).has_completed(&cm),
        is_operand(old(p).input(), old(p).position()) && !is_prefix_op(old(p).current_spec()->0)
            ==> {
            &&& final(p).events() == atom_events(
                old(p).input(),
                old(p).position(),
                old(p).events(),
            )
            &&& final(p).position() == atom_end(old(p).input(), old(p).position())
            &&& cm.pos() == old(p).events().len()
            &&& final(p).errors() == old(p).errors()
            &&& final(p).is_unfinished() == old(p).is_unfinished()
        },
    decreases old(p).remaining(), 15nat,
{
    let current = p.current_kind();
    match current {
        SyntaxKind::DO_KW => do_expr(p),
        SyntaxKind::IF_KW => if_expr(p),
        SyntaxKind::OPENPAREN => paren_expr(p),
        SyntaxKind::OPENBRACE => atom::table_const(p),
        SyntaxKind::OPENBRACKET => atom::array_const(p),
        SyntaxKind::FUNC_KW => atom::func_const(p),
        SyntaxKind::IDENT => atom::local_var(p),
        _ => atom::literal(p),
    }
}

/// `<lhs> . <name>`. Precondition: the current token is `.`.
#[verifier::spinoff_prover]
fn dot_expr(p: &mut Parser, lhs: CompletedMarker) -> (cm: CompletedMarker)
    requires
        old(p).wf(),
        old(p).has_completed(&lhs),
        old(p).current_spec() == Some(SyntaxKind::DOT),
    ensures
        final(p).st() == ps_dot(old(p).input(), old(p).st(), lhs.pos()),
        cm.pos() == old(p).events().len(),
        consumed(final(p), old(p)),
        node_kind_is(final(p), &cm, SyntaxKind::FIELD_EXPR),
{
    let m = lhs.precede(p);
    p.bump(SyntaxKind::DOT);
    p.eat_trivia();
    if p.at(SyntaxKind::IDENT) {
        name(p);
    } else {
        p.error(Message::Text("Expected <name> after `.`"));
    }
    m.complete(p, SyntaxKind::FIELD_EXPR)
}

/// `<lhs> [ <expr>`. Precondition: the current token is `[`.
#[verifier::spinoff_prover]
fn index_expr(p: &mut Parser, lhs: CompletedMarker) -> (cm: CompletedMarker)
    requires
        old(p).wf(),
        old(p).has_completed(&lhs),
        old(p).current_spec() == Some(SyntaxKind::OPENBRACKET),
    ensures
        final(p).st() == ps_index(old(p).input(), old(p).st(), lhs.pos()),
        cm.pos() == old(p).events().len(),
        consumed(final(p), old(p)),
        node_kind_is(final(p), &cm, SyntaxKind::INDEX_EXPR),
    decreases old(p).remaining(), 14nat,
{
    let m = lhs.precede(p);
    p.bump(SyntaxKind::OPENBRACKET);
    p.eat_trivia();
    if p.at_ts(expr_first()) {
        expr(p);
    } else {
        p.abandon();
    }
    p.eat_trivia();
    if !p.at(SyntaxKind::CLOSEBRACKET) {
        p.error(Message::Text("Expected `]` to close index expression"));
    }
    m.complete(p, SyntaxKind::INDEX_EXPR)
}

/// `<lhs> ( <args> )`. Precondition: the current token is `(`.
#[verifier::spinoff_prover]
fn call_expr(p: &mut Parser, lhs: CompletedMarker) -> (cm: CompletedMarker)
    requires
        old(p).wf(),
        old(p).has_completed(&lhs),
        old(p).current_spec() == Some(SyntaxKind::OPENPAREN),
    ensures
        final(p).st() == ps_call(old(p).input(), old(p).st(), lhs.pos()),
        cm.pos() == old(p).events().len(),
        consumed(final(p), old(p)),
        node_kind_is(final(p), &cm, SyntaxKind::CALL_EXPR),
    decreases old(p).remaining(), 14nat,
{
    let m = lhs.precede(p);
    arg_list(p);
    m.complete(p, SyntaxKind::CALL_EXPR)
}

/// `<lhs> -> <name> ( <args> )`. Precondition: the current token is `->`.
#[verifier::spinoff_prover]
#[verifier::rlimit(40)]
fn method_call_expr(p: &mut Parser, lhs: CompletedMarker) -> (cm: CompletedMarker)
    requires
        old(p).wf(),
        old(p).has_completed(&lhs),
        old(p).current_spec() == Some(SyntaxKind::ARROW),
    ensures
        final(p).st() == ps_method(old(p).input(), old(p).st(), lhs.pos()),
        cm.pos() == old(p).events().len(),
        consumed(final(p), old(p)),
        node_kind_is(final(p), &cm, SyntaxKind::METHOD_CALL_EXPR),
    decreases old(p).remaining(), 14nat,
{
    let m = lhs.precede(p);
    p.bump(SyntaxKind::ARROW);
    p.eat_trivia();
    if p.at(SyntaxKind::IDENT) {
        name(p);
    } else {
        p.error(Message::Text("Expected <name> after `->`"));
    }
    p.eat_trivia();
    if p.at(SyntaxKind::OPENPAREN) {
        arg_list(p);
    } else {
        p.abandon();
    }
    m.complete(p, SyntaxKind::METHOD_CALL_EXPR)
}

/// `do <program> end`. Precondition: the current token is `do`.
#[verifier::spinoff_prover]
fn do_expr(p: &mut Parser) -> (cm: CompletedMarker)
    requires
        old(p).wf(),
        old(p).current_spec() == Some(SyntaxKind::DO_KW),
    ensures
        final(p).st() == ps_do(old(p).input(), old(p).st()),
        cm.pos() == old(p).events().len(),
        consumed(final(p), old(p)),
        node_kind_is(final(p), &cm, SyntaxKind::DO_EXPR),
    decreases old(p).remaining(), 14nat,
{
    let m = p.start();
    p.bump(SyntaxKind::DO_KW);
    program(p);
    if !p.eat(SyntaxKind::END_KW) {
        p.error(Message::Text("Missing 'end' keyword"));
    }
    m.complete(p, SyntaxKind::DO_EXPR)
}

/// `if <expr> then <program> {elif <expr> then <program>} [else <program>] end`.
/// Precondition: the current token is `if`.
#[verifier::spinoff_prover]
#[verifier::rlimit(80)]
fn if_expr(p: &mut Parser) -> (cm: CompletedMarker)
    requires
        old(p).wf(),
        old(p).current_spec() == Some(SyntaxKind::IF_KW),
    ensures
        final(p).st() == ps_if(old(p).input(), old(p).st()),
        cm.pos() == old(p).events().len(),
        consumed(final(p), old(p)),
        node_kind_is(final(p), &cm, SyntaxKind::IF_EXPR),
    decreases old(p).remaining(), 14nat,
{
    let ghost inp = old(p).input();
    let ghost s = old(p).st();
    let m = p.start();
    p.bump(SyntaxKind::IF_KW);
    p.eat_trivia();
    let ghost s1 = p.st();
    assert(s1 == sp_trivia(inp, sp_bump(inp, sp_start(s))));
    if p.at_ts(expr_first()) {
        expr(p);
    } else {
        p.error(Message::Text("Expected <expr>"));
    }
    let ghost s2 = p.st();
    if !p.eat(SyntaxKind::THEN_KW) {
        p.abandon();
    }
    let ghost s3 = p.st();
    assert(s3 == ps_expect(inp, s2, SyntaxKind::THEN_KW));
    if_expr_branch_program(p);
    let ghost s4 = p.st();
    match p.current() {
        Some(SyntaxKind::ELIF_KW) => {
            let ghost elifs = ps_elifs(inp, s4);
            while p.at(SyntaxKind::ELIF_KW)
                invariant
                    open_with(p, old(p), &m),
                    p.input() == inp,
                    p.position() > old(p).position(),
                    ps_elifs(inp, p.st()) == elifs,
                decreases p.remaining(),
            {
                let ghost t = p.st();
                elif_branch(p);
                assert(ps_elifs(inp, t) == ps_elifs(inp, p.st()));
            }
            assert(p.st() == elifs);
            if p.at(SyntaxKind::ELSE_KW) {
                else_branch(p);
            }
        },
        Some(SyntaxKind::ELSE_KW) => {
            else_branch(p);
        },
        _ => {},
    }
    let ghost s5 = p.st();
    if !p.eat(SyntaxKind::END_KW) {
        p.error(Message::Text("Missing 'end' keyword"));
    }
    assert(p.st() == ps_end(inp, s5, "Missing 'end' keyword"));
    m.complete(p, SyntaxKind::IF_EXPR)
}
/// `( <expr> )`. Precondition: the current token is `(`.
#[verifier::spinoff_prover]
#[verifier::rlimit(100)]
fn paren_expr(p: &mut Parser) -> (cm: CompletedMarker)
    requires
        old(p).wf(),
        old(p).current_spec() == Some(SyntaxKind::OPENPAREN),
    ensures
        final(p).st() == ps_paren(old(p).input(), old(p).st()),
        cm.pos() == old(p).events().len(),
        consumed(final(p), old(p)),
        node_kind_is(final(p), &cm, SyntaxKind::PAREN_EXPR),
        is_operand(old(p).input(), old(p).position()) ==> {
            &&& final(p).events() == atom_events(
                old(p).input(),
                old(p).position(),
                old(p).events(),
            )
            &&& final(p).position() == atom_end(old(p).input(), old(p).position())
            &&& cm.pos() == old(p).events().len()
            &&& final(p).errors() == old(p).errors()
            &&& final(p).is_unfinished() == old(p).is_unfinished()
        },
    decreases old(p).remaining(), 14nat,
{
    let ghost inp = old(p).input();
    let ghost pos = old(p).position();
    let ghost ok = is_operand(inp, pos);
    proof {
        if ok {
            lemma_paren_parts(inp, pos, old(p).events());
        }
    }
    let ghost t = trivia_end(inp, pos + 1);
    let ghost c = paren_close(inp, pos);
    let m = p.start();
    p.bump(SyntaxKind::OPENPAREN);
    let ghost bumped = *p;
    p.eat_trivia();
    let ghost opened = *p;
    proof {
        if ok {
            assert(p.position() == t);
            assert(p.events() == bumped.events() + token_events(inp.subrange(pos + 1, t)));
        }
    }
    if p.at_ts(expr_first()) {
        expr(p);
        proof {
            if ok {
                lemma_pratt_end(inp, t, 0, opened.events(), Seq::empty());
                assert(p.position() == c);
            }
        }
        let ghost inner = *p;
        p.eat_trivia();
        proof {
            if ok {
                assert(*p == inner);
            }
        }
    } else {
        p.error(Message::Text("Expected <expr>, or use `nil` for unit literal"));
    }
    if !p.eat(SyntaxKind::CLOSEPAREN) {
        p.error(Message::Text("Missing closing ')'"));
    }
    m.complete(p, SyntaxKind::PAREN_EXPR)
}

/// `elif <expr> then <program>`. Precondition: the current token is `elif`.
#[verifier::spinoff_prover]
fn elif_branch(p: &mut Parser)
    requires
        old(p).wf(),
        old(p).current_spec() == Some(SyntaxKind::ELIF_KW),
    ensures
        opens_node(final(p), old(p), SyntaxKind::ELIF_BRANCH),
        final(p).st() == ps_elif(old(p).input(), old(p).st()),
        consumed(final(p), old(p)),
    decreases old(p).remaining(), 14nat,
{
    let ghost inp = old(p).input();
    let ghost s = old(p).st();
    let m = p.start();
    p.bump(SyntaxKind::ELIF_KW);
    p.eat_trivia();
    let ghost q1 = p.st();
    assert(q1 == sp_trivia(inp, sp_bump(inp, sp_start(s))));
    if p.at_ts(expr_first()) {
        expr(p);
    } else {
        p.error(Message::Text("Expected <expr>"));
    }
    let ghost q = p.st();
    p.eat_trivia();
    let ghost q2 = p.st();
    assert(q2 == sp_trivia(inp, q));
    if !p.eat(SyntaxKind::THEN_KW) {
        p.error(Message::Text("Missing 'then' keyword"));
    }
    let ghost q3 = p.st();
    if_expr_branch_program(p);
    assert(p.st() == ps_branch_program(inp, q3));
    m.complete(p, SyntaxKind::ELIF_BRANCH);
}
/// `else <program>`. Precondition: the current token is `else`.
#[verifier::spinoff_prover]
fn else_branch(p: &mut Parser)
    requires
        old(p).wf(),
        old(p).current_spec() == Some(SyntaxKind::ELSE_KW),
    ensures
        opens_node(final(p), old(p), SyntaxKind::ELSE_BRANCH),
        final(p).st() == ps_else(old(p).input(), old(p).st()),
        consumed(final(p), old(p)),
    decreases old(p).remaining(), 14nat,
{
    let m = p.start();
    p.bump(SyntaxKind::ELSE_KW);
    if_expr_branch_program(p);
    m.complete(p, SyntaxKind::ELSE_BRANCH);
}

/// The statements of a branch, up to `end`, `elif` or `else`.
#[verifier::spinoff_prover]
fn if_expr_branch_program(p: &mut Parser)
    requires
        old(p).wf(),
    ensures
        final(p).st() == ps_branch_program(old(p).input(), old(p).st()),
        final(p).advanced_from(old(p)),
        old(p).events().len() < final(p).events().len(),
        final(p).events()[old(p).events().len() as int] == (EventRaw::StartNode {
            kind: SyntaxKind::PROGRAM,
            forward_parent: None,
        }),
        final(p).events().last() == EventRaw::FinishNode,
        final(p).current_spec() is None || final(p).current_spec() == Some(SyntaxKind::END_KW)
            || final(p).current_spec() == Some(SyntaxKind::ELIF_KW) || final(p).current_spec()
            == Some(SyntaxKind::ELSE_KW),
    decreases old(p).remaining(), 32nat,
{
    let m = p.start();
    let v = vec![SyntaxKind::END_KW, SyntaxKind::ELIF_KW, SyntaxKind::ELSE_KW];
    let ends = TokenSet::new(v);
    assert forall|k: SyntaxKind| ends.has(k) <==> branch_stop()(k) by {
        if k == SyntaxKind::END_KW { assert(v@[0] == k); }
        if k == SyntaxKind::ELIF_KW { assert(v@[1] == k); }
        if k == SyntaxKind::ELSE_KW { assert(v@[2] == k); }
    }
    assert((|k: SyntaxKind| ends.has(k)) =~= branch_stop());
    util::loop_stmt_until_st(p, ends);
    proof {
        if p.current_spec() is Some {
            let k = p.current_spec()->0;
            assert(ends.has(k));
            let i = choose|i: int| 0 <= i < v@.len() && v@[i] == k;
            assert(k == SyntaxKind::END_KW || k == SyntaxKind::ELIF_KW || k == SyntaxKind::ELSE_KW);
            assert(!k.spec_is_trivia());
        }
    }
    p.eat_trivia();
    m.complete(p, SyntaxKind::PROGRAM);
}

} // verus!

verus! {

/// Events with no error event.
pub open spec fn no_error_events(ev: Seq<EventRaw>) -> bool {
    forall|k: int| 0 <= k < ev.len() ==> !(#[trigger] ev[k] is EmptyError) && !(ev[k] is StartError)
        && !(ev[k] is FinishError)
}

proof fn lemma_no_error_events_token_events(ev: Seq<EventRaw>, kinds: Seq<SyntaxKind>)
    requires
        no_error_events(ev),
    ensures
        no_error_events(ev + token_events(kinds)),
{
    let r = ev + token_events(kinds);
    assert forall|k: int| 0 <= k < r.len() implies !(#[trigger] r[k] is EmptyError) && !(
    r[k] is StartError) && !(r[k] is FinishError) by {
        if k >= ev.len() {
            assert(r[k] == EventRaw::Token { kind: kinds[k - ev.len()] });
        }
    }
}

/// Parsing an operator chain reports no syntax error.
pub proof fn lemma_pratt_no_errors(inp: Seq<SyntaxKind>, pos: int, min_bp: u8, ev: Seq<EventRaw>)
    requires
        no_error_events(ev),
    ensures
        no_error_events(pratt(inp, pos, min_bp, ev).0),
        pratt(inp, pos, min_bp, ev).0.len() >= ev.len(),
    decreases inp.len() - pos, 7int,
{
    if 0 <= pos < inp.len() {
        let e = operand_end(inp, pos);
        lemma_operand_no_errors(inp, pos, ev);
        if !(e <= pos || e > inp.len()) {
            lemma_pratt_loop_no_errors(inp, e, min_bp, operand_events(inp, pos, ev), ev.len() as int);
        }
    }
}

/// The events of an operand hold no error event that was not there before.
proof fn lemma_operand_no_errors(inp: Seq<SyntaxKind>, pos: int, ev: Seq<EventRaw>)
    requires
        no_error_events(ev),
    ensures
        no_error_events(operand_events(inp, pos, ev)),
        operand_events(inp, pos, ev).len() >= ev.len(),
        0 <= pos < inp.len() ==> operand_events(inp, pos, ev).len() > ev.len(),
    decreases inp.len() - pos, 5int,
{
    if 0 <= pos < inp.len() {
        if is_prefix_op(inp[pos]) {
            let e = trivia_end(inp, pos + 1);
            if !(e <= pos || e > inp.len()) {
                let b = ev.push(EventRaw::Tombstone).push(EventRaw::Token { kind: inp[pos] });
                assert(no_error_events(b)) by {
                    assert forall|k: int| 0 <= k < b.len() implies !(#[trigger] b[k] is EmptyError)
                        && !(b[k] is StartError) && !(b[k] is FinishError) by {
                        if k < ev.len() {
                            assert(b[k] == ev[k]);
                        }
                    }
                }
                lemma_no_error_events_token_events(b, inp.subrange(pos + 1, e));
                let opened = b + token_events(inp.subrange(pos + 1, e));
                lemma_operand_no_errors(inp, e, opened);
                let inner = operand_events(inp, e, opened);
                let r = inner.update(
                    ev.len() as int,
                    EventRaw::StartNode { kind: SyntaxKind::PREFIX_EXPR, forward_parent: None },
                ).push(EventRaw::FinishNode);
                assert forall|k: int| 0 <= k < r.len() implies !(#[trigger] r[k] is EmptyError) && !(
                r[k] is StartError) && !(r[k] is FinishError) by {
                    if k < inner.len() && k != ev.len() {
                        assert(r[k] == inner[k]);
                    }
                }
            } else {
                assert(false) by {
                    lemma_trivia_end(inp, pos + 1);
                }
            }
        } else {
            lemma_atom_no_errors(inp, pos, ev);
            lemma_no_error_events_token_events(
                atom_events(inp, pos, ev),
                inp.subrange(atom_end(inp, pos), trivia_end(inp, atom_end(inp, pos))),
            );
        }
    }
}

/// The events of an atom hold no error event that was not there before.
proof fn lemma_atom_no_errors(inp: Seq<SyntaxKind>, pos: int, ev: Seq<EventRaw>)
    requires
        no_error_events(ev),
    ensures
        no_error_events(atom_events(inp, pos, ev)),
        atom_events(inp, pos, ev).len() >= ev.len(),
        0 <= pos < inp.len() ==> atom_events(inp, pos, ev).len() > ev.len(),
    decreases inp.len() - pos, 4int,
{
    if 0 <= pos < inp.len() {
        if inp[pos] == SyntaxKind::OPENPAREN {
            let t = trivia_end(inp, pos + 1);
            if pos < t <= inp.len() {
                let b = ev.push(EventRaw::Tombstone).push(
                    EventRaw::Token { kind: SyntaxKind::OPENPAREN },
                );
                assert(no_error_events(b)) by {
                    assert forall|k: int| 0 <= k < b.len() implies !(#[trigger] b[k] is EmptyError)
                        && !(b[k] is StartError) && !(b[k] is FinishError) by {
                        if k < ev.len() {
                            assert(b[k] == ev[k]);
                        }
                    }
                }
                lemma_no_error_events_token_events(b, inp.subrange(pos + 1, t));
                let opened = b + token_events(inp.subrange(pos + 1, t));
                lemma_pratt_no_errors(inp, t, 0, opened);
                let inner = pratt(inp, t, 0, opened).0;
                let closed = inner.push(EventRaw::Token { kind: SyntaxKind::CLOSEPAREN });
                let r = closed.update(
                    ev.len() as int,
                    EventRaw::StartNode { kind: SyntaxKind::PAREN_EXPR, forward_parent: None },
                ).push(EventRaw::FinishNode);
                assert forall|k: int| 0 <= k < r.len() implies !(#[trigger] r[k] is EmptyError) && !(
                r[k] is StartError) && !(r[k] is FinishError) by {
                    if k < inner.len() && k != ev.len() {
                        assert(r[k] == inner[k]);
                    }
                }
            }
        } else {
            let b = atom_events(inp, pos, ev);
            assert forall|k: int| 0 <= k < b.len() implies !(#[trigger] b[k] is EmptyError) && !(
            b[k] is StartError) && !(b[k] is FinishError) by {
                if k < ev.len() {
                    assert(b[k] == ev[k]);
                }
            }
        }
    }
}

proof fn lemma_pratt_loop_no_errors(
    inp: Seq<SyntaxKind>,
    pos: int,
    min_bp: u8,
    ev: Seq<EventRaw>,
    lhs: int,
)
    requires
        no_error_events(ev),
        0 <= lhs < ev.len(),
    ensures
        no_error_events(pratt_loop(inp, pos, min_bp, ev, lhs).0),
        pratt_loop(inp, pos, min_bp, ev, lhs).0.len() >= ev.len(),
    decreases inp.len() - pos, 0int,
{
    if 0 <= pos < inp.len() {
        if let Some((l_bp, r_bp)) = binding_power(inp[pos]) {
            if l_bp >= min_bp {
                let m = ev.len() as int;
                let e = trivia_end(inp, pos + 1);
                let base = ev.update(
                    lhs,
                    EventRaw::StartNode {
                        kind: ev[lhs]->StartNode_kind,
                        forward_parent: Some((m - lhs) as usize),
                    },
                ).push(EventRaw::Tombstone).push(EventRaw::Token { kind: inp[pos] });
                assert forall|k: int| 0 <= k < base.len() implies !(#[trigger] base[k] is EmptyError)
                    && !(base[k] is StartError) && !(base[k] is FinishError) by {
                    if k < ev.len() && k != lhs {
                        assert(base[k] == ev[k]);
                    }
                }
                lemma_no_error_events_token_events(base, inp.subrange(pos + 1, e));
                let opened = base + token_events(inp.subrange(pos + 1, e));
                if !(e <= pos || e > inp.len()) {
                    lemma_pratt_no_errors(inp, e, r_bp, opened);
                    let (right, end, _) = pratt(inp, e, r_bp, opened);
                    if !(end <= pos || end > inp.len()) {
                        let joined = right.update(
                            m,
                            EventRaw::StartNode {
                                kind: SyntaxKind::BINARY_EXPR,
                                forward_parent: None,
                            },
                        ).push(EventRaw::FinishNode);
                        assert forall|k: int| 0 <= k < joined.len() implies !(
                        #[trigger] joined[k] is EmptyError) && !(joined[k] is StartError) && !(
                        joined[k] is FinishError) by {
                            if k < right.len() && k != m {
                                assert(joined[k] == right[k]);
                            }
                        }
                        lemma_pratt_loop_no_errors(inp, end, min_bp, joined, m);
                    }
                }
            }
        }
    }
}

} // verus!

verus! {

/// Where parsing an operator chain stops does not depend on the events before it.
pub proof fn lemma_pratt_end(
    inp: Seq<SyntaxKind>,
    pos: int,
    min_bp: u8,
    a: Seq<EventRaw>,
    b: Seq<EventRaw>,
)
    ensures
        pratt(inp, pos, min_bp, a).1 == pratt(inp, pos, min_bp, b).1,
    decreases inp.len() - pos, 1int,
{
    if 0 <= pos < inp.len() {
        let e = operand_end(inp, pos);
        if !(e <= pos || e > inp.len()) {
            lemma_pratt_loop_end(
                inp,
                e,
                min_bp,
                operand_events(inp, pos, a),
                a.len() as int,
                operand_events(inp, pos, b),
                b.len() as int,
            );
        }
    }
}

proof fn lemma_pratt_loop_end(
    inp: Seq<SyntaxKind>,
    pos: int,
    min_bp: u8,
    a: Seq<EventRaw>,
    la: int,
    b: Seq<EventRaw>,
    lb: int,
)
    ensures
        pratt_loop(inp, pos, min_bp, a, la).1 == pratt_loop(inp, pos, min_bp, b, lb).1,
    decreases inp.len() - pos, 0int,
{
    if 0 <= pos < inp.len() {
        if let Some((l_bp, r_bp)) = binding_power(inp[pos]) {
            if l_bp >= min_bp {
                let e = trivia_end(inp, pos + 1);
                if !(e <= pos || e > inp.len()) {
                    let ma = a.len() as int;
                    let mb = b.len() as int;
                    let oa = a.update(
                        la,
                        EventRaw::StartNode {
                            kind: a[la]->StartNode_kind,
                            forward_parent: Some((ma - la) as usize),
                        },
                    ).push(EventRaw::Tombstone).push(EventRaw::Token { kind: inp[pos] })
                        + token_events(inp.subrange(pos + 1, e));
                    let ob = b.update(
                        lb,
                        EventRaw::StartNode {
                            kind: b[lb]->StartNode_kind,
                            forward_parent: Some((mb - lb) as usize),
                        },
                    ).push(EventRaw::Tombstone).push(EventRaw::Token { kind: inp[pos] })
                        + token_events(inp.subrange(pos + 1, e));
                    lemma_pratt_end(inp, e, r_bp, oa, ob);
                    let (ra, end, _) = pratt(inp, e, r_bp, oa);
                    let rb = pratt(inp, e, r_bp, ob).0;
                    if !(end <= pos || end > inp.len()) {
                        let ja = ra.update(
                            ma,
                            EventRaw::StartNode {
                                kind: SyntaxKind::BINARY_EXPR,
                                forward_parent: None,
                            },
                        ).push(EventRaw::FinishNode);
                        let jb = rb.update(
                            mb,
                            EventRaw::StartNode {
                                kind: SyntaxKind::BINARY_EXPR,
                                forward_parent: None,
                            },
                        ).push(EventRaw::FinishNode);
                        lemma_pratt_loop_end(inp, end, min_bp, ja, ma, jb, mb);
                    }
                }
            }
        }
    }
}

/// Where the operator chain that starts at `pos` ends when it is parsed as a whole
/// expression.
pub open spec fn chain_end(inp: Seq<SyntaxKind>, pos: int) -> int {
    pratt(inp, pos, 0, Seq::empty()).1
}

} // verus!
