use super::super::state::{lemma_trivia_end, token_events, trivia_end, Message, Parser};
use super::events::{ps_skip, ps_stmts_until};
use super::super::token_set::TokenSet;
use super::{is_stmt_first, statement, stmt_first};
use super::expression::{lemma_operand_end, operator_chain};
use crate::syntax_kind::SyntaxKind;
use vstd::prelude::*;

verus! {

/// Reads tokens up to the first whose kind is in `st`, or to the end.
#[verifier::spinoff_prover]
pub fn skip_while_st(p: &mut Parser, st: TokenSet)
    requires
        old(p).wf(),
    ensures
        final(p).advanced_from(old(p)),
        final(p).errors() == old(p).errors(),
        final(p).current_spec() is None || st.has(final(p).current_spec()->0),
        final(p).st() == ps_skip(old(p).input(), old(p).st(), (|k: SyntaxKind| st.has(k))),
{
    let ghost stop = (|k: SyntaxKind| st.has(k));
    let ghost target = ps_skip(old(p).input(), old(p).st(), stop);
    loop
        invariant_except_break
            ps_skip(old(p).input(), p.st(), stop) == target,
        invariant
            p.advanced_from(old(p)),
            p.errors() == old(p).errors(),
            stop == (|k: SyntaxKind| st.has(k)),
            target == ps_skip(old(p).input(), old(p).st(), stop),
        ensures
            p.advanced_from(old(p)),
            p.errors() == old(p).errors(),
            p.current_spec() is None || st.has(p.current_spec()->0),
            p.st() == target,
        decreases p.remaining(),
    {
        match p.current() {
            Some(current) => {
                if st.contains(current) {
                    break;
                }
                p.bump_any();
            },
            None => break,
        }
    }
}

/// Every token that `p` has not read yet is trivia.
pub open spec fn only_trivia_left(p: &Parser) -> bool {
    forall|i: int| p.position() <= i < p.input().len() ==> (#[trigger] p.input()[i]).spec_is_trivia()
}

/// Statements up to the end or to the first token whose kind is in `st`; each token on the way
/// that can begin no statement is reported, in an `ERROR` node of its own.
#[verifier::spinoff_prover]
pub fn loop_stmt_until_st(p: &mut Parser, st: TokenSet)
    requires
        old(p).wf(),
    ensures
        final(p).advanced_from(old(p)),
        final(p).current_spec() is None || st.has(final(p).current_spec()->0),
        only_trivia_left(old(p)) ==> {
            &&& final(p).events() == old(p).events() + token_events(
                old(p).input().subrange(old(p).position(), old(p).input().len() as int),
            )
            &&& final(p).errors() == old(p).errors()
            &&& final(p).is_unfinished() == old(p).is_unfinished()
        },
        (statement::chain_statements(old(p).input(), old(p).position()) && forall|k: SyntaxKind|
            !st.has(k)) ==> {
            &&& final(p).events() == statement::chain_statement_events(
                old(p).input(),
                old(p).position(),
                old(p).events(),
            )
            &&& final(p).errors() == old(p).errors()
            &&& final(p).is_unfinished() == old(p).is_unfinished()
        },
        final(p).st() == ps_stmts_until(
            old(p).input(),
            old(p).st(),
            (|k: SyntaxKind| st.has(k)),
        ),
    decreases old(p).remaining(), 31nat,
{
    let ghost stop = (|k: SyntaxKind| st.has(k));
    let ghost full = ps_stmts_until(old(p).input(), old(p).st(), stop);
    let ghost chain = statement::chain_statements(old(p).input(), old(p).position()) && forall|
        k: SyntaxKind,
    | !st.has(k);
    let ghost target = statement::chain_statement_events(
        old(p).input(),
        old(p).position(),
        old(p).events(),
    );
    let sf = stmt_first();
    loop
        invariant_except_break
            only_trivia_left(old(p)) ==> *p == *old(p),
            ps_stmts_until(old(p).input(), p.st(), stop) == full,
        invariant
            stop == (|k: SyntaxKind| st.has(k)),
            full == ps_stmts_until(old(p).input(), old(p).st(), stop),
            p.advanced_from(old(p)),
            forall|k: SyntaxKind| sf.has(k) <==> is_stmt_first(k),
            chain == (statement::chain_statements(old(p).input(), old(p).position()) && forall|
                k: SyntaxKind,
            | !st.has(k)),
            target == statement::chain_statement_events(
                old(p).input(),
                old(p).position(),
                old(p).events(),
            ),
            chain ==> {
                &&& statement::chain_statements(p.input(), p.position())
                &&& statement::chain_statement_events(p.input(), p.position(), p.events())
                    == target
                &&& p.errors() == old(p).errors()
                &&& p.is_unfinished() == old(p).is_unfinished()
            },
        ensures
            p.advanced_from(old(p)),
            p.current_spec() is None || st.has(p.current_spec()->0),
            only_trivia_left(old(p)) ==> {
                &&& p.events() == old(p).events() + token_events(
                    old(p).input().subrange(old(p).position(), old(p).input().len() as int),
                )
                &&& p.errors() == old(p).errors()
                &&& p.is_unfinished() == old(p).is_unfinished()
            },
            chain ==> {
                &&& p.events() == target
                &&& p.errors() == old(p).errors()
                &&& p.is_unfinished() == old(p).is_unfinished()
            },
            p.st() == full,
        decreases p.remaining(),
    {
        let ghost before = *p;
        p.eat_trivia();
        proof {
            if chain {
                lemma_trivia_end(p.input(), before.position());
                assert(p.position() == trivia_end(p.input(), before.position()));
            }
        }
        proof {
            if only_trivia_left(old(p)) {
                assert(p.current_spec() is None) by {
                    if p.position() < p.input().len() {
                        assert(p.input()[p.position()].spec_is_trivia());
                    }
                }
            }
        }
        if p.at_ts(st) || p.at_eof() {
            break;
        }
        proof {
            if chain {
                assert(statement::plain_stmt(p.input(), p.position()));
                if operator_chain(p.input(), p.position()) {
                    lemma_operand_end(p.input(), p.position());
                }
                assert(is_stmt_first(p.input()[p.position()]));
            }
        }
        if p.at_ts(sf) {
            statement::stmt(p);
        } else {
            let m = p.start();
            p.start_error();
            let current = p.current_kind();
            p.bump_any();
            p.finish_error(Message::UnexpectedToken(current));
            m.complete(p, SyntaxKind::ERROR);
        }
    }
}

} // verus!
