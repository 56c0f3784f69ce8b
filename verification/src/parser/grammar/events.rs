use super::super::state::{
    at_kind, cur, lemma_trivia_end, sp_abandon, sp_bump, sp_complete, sp_error, sp_finish_error, sp_precede,
    sp_start, sp_start_error, sp_trivia, token_events, trivia_end, EventRaw, Message, PState,
};
use super::expression::binding_power;
use super::{is_expr_first, is_stmt_first};
use super::atom::is_field_first;
use crate::syntax_kind::SyntaxKind;
use vstd::prelude::*;

verus! {

/// `s2` is at or after `s`, within the input.
pub open spec fn nondec(inp: Seq<SyntaxKind>, s: PState, s2: PState) -> bool {
    s.0 <= s2.0 <= inp.len()
}

/// `s2` is after `s`, within the input.
pub open spec fn adv(inp: Seq<SyntaxKind>, s: PState, s2: PState) -> bool {
    s.0 < s2.0 <= inp.len()
}

/// A token that begins an expression is at the position of `s`.
pub open spec fn at_expr(inp: Seq<SyntaxKind>, s: PState) -> bool {
    cur(inp, s) is Some && is_expr_first(cur(inp, s)->0)
}

/// The token at the position of `s`, then the one after, is `k`.
pub open spec fn next_is(inp: Seq<SyntaxKind>, s: PState, k: SyntaxKind) -> bool {
    0 <= s.0 && s.0 + 1 < inp.len() && inp[s.0 + 1] == k
}

/// Kinds that end a `missing_close` error: those that begin a statement, and `close`.
pub open spec fn stmt_or(close: SyntaxKind) -> spec_fn(SyntaxKind) -> bool {
    |k: SyntaxKind| is_stmt_first(k) || k == close
}

/// Kinds that end the error after a missing return name: those that begin a statement, `end`
/// and `(`.
pub open spec fn return_name_stop() -> spec_fn(SyntaxKind) -> bool {
    |k: SyntaxKind| is_stmt_first(k) || k == SyntaxKind::END_KW || k == SyntaxKind::OPENPAREN
}

/// Kinds that end the statements of an `if` branch.
pub open spec fn branch_stop() -> spec_fn(SyntaxKind) -> bool {
    |k: SyntaxKind| k == SyntaxKind::END_KW || k == SyntaxKind::ELIF_KW || k == SyntaxKind::ELSE_KW
}

/// No kind.
pub open spec fn no_stop() -> spec_fn(SyntaxKind) -> bool {
    |k: SyntaxKind| false
}

/// A node of kind `kind` that holds the current token.
pub open spec fn ps_token_node(inp: Seq<SyntaxKind>, s: PState, kind: SyntaxKind) -> PState {
    sp_complete(sp_bump(inp, sp_start(s)), s.1.len() as int, kind)
}

/// Reads tokens while none of them has a kind in `stop`.
pub open spec fn ps_skip(inp: Seq<SyntaxKind>, s: PState, stop: spec_fn(SyntaxKind) -> bool) -> PState
    decreases inp.len() - s.0,
{
    match cur(inp, s) {
        None => s,
        Some(k) => if stop(k) {
            s
        } else {
            ps_skip(inp, sp_bump(inp, s), stop)
        },
    }
}

/// A missing closing token `close`.
pub open spec fn ps_missing_close(
    inp: Seq<SyntaxKind>,
    s: PState,
    close: SyntaxKind,
    missing: &'static str,
    expected: &'static str,
) -> PState {
    let s1 = sp_start_error(s);
    if cur(inp, s1) is Some && stmt_or(close)(cur(inp, s1)->0) {
        sp_finish_error(s1, Message::Text(missing))
    } else {
        let e = s1.1.len() as int;
        let s2 = sp_complete(ps_skip(inp, sp_start(s1), stmt_or(close)), e, SyntaxKind::ERROR);
        sp_finish_error(s2, Message::Text(expected))
    }
}

/// The dotted names after the first name, whose node starts at `cm`: the state, and whether no
/// `.` is left without a name.
pub open spec fn ps_name_path_rest(inp: Seq<SyntaxKind>, s: PState, cm: int) -> (PState, bool)
    decreases inp.len() - s.0,
{
    if !at_kind(inp, s, SyntaxKind::DOT) {
        (s, true)
    } else {
        let s1 = sp_bump(inp, s);
        if at_kind(inp, s1, SyntaxKind::IDENT) {
            let m = s1.1.len() as int;
            let s2 = ps_token_node(inp, sp_precede(s1, cm), SyntaxKind::NAME);
            let s3 = sp_complete(s2, m, SyntaxKind::NAME_PATH);
            if !adv(inp, s, s3) {
                (s3, true)
            } else {
                ps_name_path_rest(inp, s3, m)
            }
        } else {
            (s1, false)
        }
    }
}

/// A dotted path of names.
pub open spec fn ps_name_path(inp: Seq<SyntaxKind>, s: PState) -> (PState, bool) {
    ps_name_path_rest(inp, ps_token_node(inp, s, SyntaxKind::NAME), s.1.len() as int)
}

/// The names of a parameter list, after its `(`.
pub open spec fn ps_param_items(inp: Seq<SyntaxKind>, s: PState) -> PState
    decreases inp.len() - s.0,
{
    match cur(inp, s) {
        None => s,
        Some(t) => if t == SyntaxKind::CLOSEPAREN {
            s
        } else if t == SyntaxKind::COMMA {
            let s1 = sp_trivia(
                inp,
                sp_bump(inp, sp_error(s, Message::Text("Missing <name>"))),
            );
            if !adv(inp, s, s1) {
                s1
            } else {
                ps_param_items(inp, s1)
            }
        } else if t == SyntaxKind::IDENT {
            let s1 = sp_trivia(inp, ps_token_node(inp, s, SyntaxKind::NAME));
            if at_kind(inp, s1, SyntaxKind::COMMA) {
                let s2 = sp_trivia(inp, sp_bump(inp, s1));
                if !adv(inp, s, s2) {
                    s2
                } else {
                    ps_param_items(inp, s2)
                }
            } else if at_kind(inp, s1, SyntaxKind::IDENT) {
                let s2 = sp_trivia(inp, sp_error(s1, Message::Text("Missing ','")));
                if !adv(inp, s, s2) {
                    s2
                } else {
                    ps_param_items(inp, s2)
                }
            } else {
                s1
            }
        } else {
            s
        },
    }
}

/// A parenthesised list of names.
pub open spec fn ps_param_list(inp: Seq<SyntaxKind>, s: PState) -> PState {
    let m = s.1.len() as int;
    let s1 = sp_trivia(inp, sp_bump(inp, sp_start(s)));
    let s2 = sp_trivia(inp, ps_param_items(inp, s1));
    let s3 = if at_kind(inp, s2, SyntaxKind::CLOSEPAREN) {
        sp_bump(inp, s2)
    } else {
        ps_missing_close(inp, s2, SyntaxKind::CLOSEPAREN, "Missing closing ')'", "Expected closing ')'")
    };
    sp_complete(s3, m, SyntaxKind::PARAM_LIST)
}

/// What separates items of a list after an item: a `,` and trivia, or (where another item
/// begins at once) an error and trivia; `None` where the list ends.
pub open spec fn ps_after_item(
    inp: Seq<SyntaxKind>,
    s: PState,
    begins: spec_fn(SyntaxKind) -> bool,
) -> Option<PState> {
    if at_kind(inp, s, SyntaxKind::COMMA) {
        Some(sp_trivia(inp, sp_bump(inp, s)))
    } else if cur(inp, s) is Some && begins(cur(inp, s)->0) {
        Some(sp_trivia(inp, sp_error(s, Message::Text("Missing ','"))))
    } else {
        None
    }
}

/// Kinds that begin an expression.
pub open spec fn expr_start() -> spec_fn(SyntaxKind) -> bool {
    |k: SyntaxKind| is_expr_first(k)
}

/// Kinds that begin a table field.
pub open spec fn field_start() -> spec_fn(SyntaxKind) -> bool {
    |k: SyntaxKind| is_field_first(k)
}

/// A sequence of statements, up to the first token that cannot begin one.
pub open spec fn ps_program(inp: Seq<SyntaxKind>, s: PState) -> PState
    decreases inp.len() - s.0, 30int,
{
    let m = s.1.len() as int;
    let s1 = ps_program_items(inp, sp_start(s));
    if !nondec(inp, s, s1) {
        s1
    } else {
        sp_complete(sp_trivia(inp, s1), m, SyntaxKind::PROGRAM)
    }
}

/// The statements of a program.
pub open spec fn ps_program_items(inp: Seq<SyntaxKind>, s: PState) -> PState
    decreases inp.len() - s.0, 25int,
{
    let s1 = sp_trivia(inp, s);
    if !nondec(inp, s, s1) {
        s1
    } else if cur(inp, s1) is Some && is_stmt_first(cur(inp, s1)->0) {
        let s2 = ps_stmt(inp, s1);
        if !adv(inp, s, s2) {
            s2
        } else {
            ps_program_items(inp, s2)
        }
    } else {
        s1
    }
}

/// Statements up to the end or to the first token whose kind is in `stop`; each token on the
/// way that can begin no statement is reported, in an `ERROR` node of its own.
pub open spec fn ps_stmts_until(inp: Seq<SyntaxKind>, s: PState, stop: spec_fn(SyntaxKind) -> bool) -> PState
    decreases inp.len() - s.0, 31int,
{
    let s1 = sp_trivia(inp, s);
    if !nondec(inp, s, s1) {
        s1
    } else {
        match cur(inp, s1) {
            None => s1,
            Some(k) => if stop(k) {
                s1
            } else {
                let s2 = if is_stmt_first(k) {
                    ps_stmt(inp, s1)
                } else {
                    let m = s1.1.len() as int;
                    sp_complete(
                        sp_finish_error(
                            sp_bump(inp, sp_start_error(sp_start(s1))),
                            Message::UnexpectedToken(k),
                        ),
                        m,
                        SyntaxKind::ERROR,
                    )
                };
                if !adv(inp, s, s2) {
                    s2
                } else {
                    ps_stmts_until(inp, s2, stop)
                }
            },
        }
    }
}

/// The statements of an `if` branch, up to `end`, `elif` or `else`.
pub open spec fn ps_branch_program(inp: Seq<SyntaxKind>, s: PState) -> PState
    decreases inp.len() - s.0, 32int,
{
    let m = s.1.len() as int;
    let s1 = ps_stmts_until(inp, sp_start(s), branch_stop());
    if !nondec(inp, s, s1) {
        s1
    } else {
        sp_complete(sp_trivia(inp, s1), m, SyntaxKind::PROGRAM)
    }
}

/// A statement.
pub open spec fn ps_stmt(inp: Seq<SyntaxKind>, s: PState) -> PState
    decreases inp.len() - s.0, 20int,
{
    match cur(inp, s) {
        Some(SyntaxKind::VAR_KW) => ps_var(inp, s),
        Some(SyntaxKind::FUNC_KW) => ps_func_stmt(inp, s),
        Some(SyntaxKind::FOR_KW) => ps_for(inp, s),
        Some(SyntaxKind::WHILE_KW) => ps_while(inp, s),
        Some(SyntaxKind::RETURN_KW) => ps_return(inp, s),
        Some(SyntaxKind::BREAK_KW) => ps_token_node(inp, s, SyntaxKind::BREAK_STMT),
        Some(SyntaxKind::CONTINUE_KW) => ps_token_node(inp, s, SyntaxKind::CONTINUE_STMT),
        _ => {
            let s1 = ps_expr(inp, sp_start(s));
            if !nondec(inp, s, s1) {
                s1
            } else {
                sp_complete(s1, s.1.len() as int, SyntaxKind::EXPR_STMT)
            }
        },
    }
}

/// `var <name> = <expr>`.
pub open spec fn ps_var(inp: Seq<SyntaxKind>, s: PState) -> PState
    decreases inp.len() - s.0, 19int,
{
    let m = s.1.len() as int;
    let s1 = sp_trivia(inp, sp_bump(inp, sp_start(s)));
    let s2 = if at_kind(inp, s1, SyntaxKind::IDENT) {
        ps_token_node(inp, s1, SyntaxKind::NAME)
    } else {
        let s3 = sp_start_error(s1);
        match cur(inp, s3) {
            Some(SyntaxKind::EQ) | None => sp_finish_error(s3, Message::Text("Missing <name>")),
            Some(_) => {
                let s4 = ps_token_node(inp, s3, SyntaxKind::ERROR);
                sp_finish_error(s4, Message::ExpectedNameFound(cur(inp, s4)))
            },
        }
    };
    let s5 = sp_trivia(inp, s2);
    let s6 = if at_kind(inp, s5, SyntaxKind::EQ) {
        let s7 = sp_trivia(inp, sp_bump(inp, s5));
        if at_expr(inp, s7) {
            if !adv(inp, s, s7) {
                s7
            } else {
                ps_expr(inp, s7)
            }
        } else {
            sp_abandon(inp, s7)
        }
    } else {
        sp_error(s5, Message::Text("Missing '= <expr>': Variables must be initialized"))
    };
    sp_complete(s6, m, SyntaxKind::VAR_STMT)
}

/// `func <name-path> [-> <name>] (<params>) <program> end`.
pub open spec fn ps_func_stmt(inp: Seq<SyntaxKind>, s: PState) -> PState
    decreases inp.len() - s.0, 19int,
{
    let m = s.1.len() as int;
    let s1 = sp_trivia(inp, sp_bump(inp, sp_start(s)));
    let s2 = if at_kind(inp, s1, SyntaxKind::IDENT) {
        let (s3, ok) = ps_name_path(inp, s1);
        if !ok {
            sp_finish_error(sp_start_error(s3), Message::Text("Missing field name"))
        } else {
            s3
        }
    } else {
        s1
    };
    let s4 = sp_trivia(inp, s2);
    let s5 = ps_func_return(inp, s4);
    let s9 = sp_trivia(inp, s5);
    let s10 = if at_kind(inp, s9, SyntaxKind::OPENPAREN) {
        ps_param_list(inp, s9)
    } else {
        sp_error(s9, Message::Text("Missing function parameters"))
    };
    if !adv(inp, s, s10) {
        s10
    } else {
        let s11 = ps_program(inp, s10);
        let s12 = if at_kind(inp, s11, SyntaxKind::END_KW) {
            sp_bump(inp, s11)
        } else {
            sp_error(s11, Message::Text("Missing 'end' keyword"))
        };
        sp_complete(s12, m, SyntaxKind::FUNC_STMT)
    }
}

/// The return name of a function statement, `-> <name>`, where an arrow comes.
pub open spec fn ps_func_return(inp: Seq<SyntaxKind>, s4: PState) -> PState {
    if at_kind(inp, s4, SyntaxKind::ARROW) {
        let s6 = sp_trivia(inp, sp_bump(inp, s4));
        if at_kind(inp, s6, SyntaxKind::IDENT) {
            ps_token_node(inp, s6, SyntaxKind::NAME)
        } else {
            let s7 = sp_start_error(s6);
            if cur(inp, s7) is Some && return_name_stop()(cur(inp, s7)->0) {
                sp_finish_error(s7, Message::Text("Missing <name>"))
            } else {
                let e = s7.1.len() as int;
                let s8 = sp_complete(
                    ps_skip(inp, sp_start(s7), return_name_stop()),
                    e,
                    SyntaxKind::ERROR,
                );
                sp_finish_error(s8, Message::Text("Expected <name>"))
            }
        }
    } else {
        s4
    }
}

/// Reads the current token if it has kind `k`, and gives up otherwise.
pub open spec fn ps_expect(inp: Seq<SyntaxKind>, s: PState, k: SyntaxKind) -> PState {
    if at_kind(inp, s, k) {
        sp_bump(inp, s)
    } else {
        sp_abandon(inp, s)
    }
}

/// Reads `end`, or reports it missing with `message`.
pub open spec fn ps_end(inp: Seq<SyntaxKind>, s: PState, message: &'static str) -> PState {
    if at_kind(inp, s, SyntaxKind::END_KW) {
        sp_bump(inp, s)
    } else {
        sp_error(s, Message::Text(message))
    }
}

/// `for <name> in <expr> do <program> end`.
pub open spec fn ps_for(inp: Seq<SyntaxKind>, s: PState) -> PState
    decreases inp.len() - s.0, 19int,
{
    let m = s.1.len() as int;
    let s1 = sp_trivia(inp, sp_bump(inp, sp_start(s)));
    let s2 = if at_kind(inp, s1, SyntaxKind::IDENT) {
        ps_token_node(inp, s1, SyntaxKind::NAME)
    } else {
        sp_abandon(inp, s1)
    };
    let s3 = sp_trivia(inp, ps_expect(inp, sp_trivia(inp, s2), SyntaxKind::IN_KW));
    let s4 = if at_expr(inp, s3) {
        if !adv(inp, s, s3) {
            s3
        } else {
            ps_expr(inp, s3)
        }
    } else {
        sp_abandon(inp, s3)
    };
    let s5 = ps_expect(inp, sp_trivia(inp, s4), SyntaxKind::DO_KW);
    if !adv(inp, s, s5) {
        s5
    } else {
        let s6 = ps_program(inp, s5);
        sp_complete(ps_end(inp, s6, "Missing 'end' keyword"), m, SyntaxKind::FOR_STMT)
    }
}

/// `while <expr> do <program> end`.
pub open spec fn ps_while(inp: Seq<SyntaxKind>, s: PState) -> PState
    decreases inp.len() - s.0, 19int,
{
    let m = s.1.len() as int;
    let s1 = sp_trivia(inp, sp_bump(inp, sp_start(s)));
    let s2 = if at_expr(inp, s1) {
        if !adv(inp, s, s1) {
            s1
        } else {
            ps_expr(inp, s1)
        }
    } else {
        sp_abandon(inp, s1)
    };
    let s3 = ps_expect(inp, sp_trivia(inp, s2), SyntaxKind::DO_KW);
    if !adv(inp, s, s3) {
        s3
    } else {
        let s4 = ps_program(inp, s3);
        sp_complete(ps_end(inp, s4, "Missing 'end' keyword"), m, SyntaxKind::WHILE_STMT)
    }
}

/// `return [<expr>]`.
pub open spec fn ps_return(inp: Seq<SyntaxKind>, s: PState) -> PState
    decreases inp.len() - s.0, 19int,
{
    let m = s.1.len() as int;
    let s1 = sp_trivia(inp, sp_bump(inp, sp_start(s)));
    let s2 = if at_expr(inp, s1) && adv(inp, s, s1) {
        ps_expr(inp, s1)
    } else {
        s1
    };
    sp_complete(s2, m, SyntaxKind::RETURN_STMT)
}

/// An expression.
pub open spec fn ps_expr(inp: Seq<SyntaxKind>, s: PState) -> PState
    decreases inp.len() - s.0, 18int,
{
    ps_expr_bp(inp, s, 0).0
}

/// An expression whose infix operators bind at least as tightly as `min_bp`: the state, and
/// where its outermost node starts (`None` where no expression begins).
pub open spec fn ps_expr_bp(inp: Seq<SyntaxKind>, s: PState, min_bp: u8) -> (PState, Option<int>)
    decreases inp.len() - s.0, 17int,
{
    if !at_expr(inp, s) {
        (sp_error(s, Message::Text("Expected <expr>")), None)
    } else {
        let (s1, lhs) = ps_lhs(inp, s);
        if !adv(inp, s, s1) {
            (s1, Some(lhs))
        } else {
            let (s2, r) = ps_infix(inp, s1, min_bp, lhs);
            (s2, Some(r))
        }
    }
}

/// The infix operators and their right operands after what was parsed so far, whose node
/// starts at `lhs`, while they bind at least as tightly as `min_bp` on their left.
pub open spec fn ps_infix(inp: Seq<SyntaxKind>, s: PState, min_bp: u8, lhs: int) -> (PState, int)
    decreases inp.len() - s.0, 50int,
{
    let s1 = sp_trivia(inp, s);
    match cur(inp, s1) {
        None => (s1, lhs),
        Some(k) => match binding_power(k) {
            Some((l_bp, r_bp)) => if l_bp < min_bp {
                (s1, lhs)
            } else {
                let m = s1.1.len() as int;
                let s2 = sp_trivia(inp, sp_bump(inp, sp_precede(s1, lhs)));
                if !adv(inp, s, s2) {
                    (s2, m)
                } else {
                    let s3 = sp_complete(ps_expr_bp(inp, s2, r_bp).0, m, SyntaxKind::BINARY_EXPR);
                    if !adv(inp, s, s3) {
                        (s3, m)
                    } else {
                        ps_infix(inp, s3, min_bp, m)
                    }
                }
            },
            None => if k == SyntaxKind::TILDE && next_is(inp, s1, SyntaxKind::EQ) {
                (sp_abandon(inp, s1), lhs)
            } else {
                (s1, lhs)
            },
        },
    }
}

/// An operand: a prefix operator and its operand, or an atom and its postfix operators. The
/// state, and where its node starts.
pub open spec fn ps_lhs(inp: Seq<SyntaxKind>, s: PState) -> (PState, int)
    decreases inp.len() - s.0, 16int,
{
    let m = s.1.len() as int;
    match cur(inp, s) {
        Some(k) => if k == SyntaxKind::PLUS || k == SyntaxKind::MINUS || k == SyntaxKind::NOT_KW
            || k == SyntaxKind::TILDE {
            let s1 = sp_trivia(inp, sp_bump(inp, sp_start(s)));
            if !adv(inp, s, s1) {
                (s1, m)
            } else {
                (sp_complete(ps_expr_bp(inp, s1, 255).0, m, SyntaxKind::PREFIX_EXPR), m)
            }
        } else if k == SyntaxKind::BANG {
            let s1 = sp_trivia(
                inp,
                sp_finish_error(
                    sp_bump(inp, sp_start_error(sp_start(s))),
                    Message::Text("Should use `not` for logical negation or `~` for bitwise negation"),
                ),
            );
            if !adv(inp, s, s1) {
                (s1, m)
            } else {
                (sp_complete(ps_expr_bp(inp, s1, 255).0, m, SyntaxKind::PREFIX_EXPR), m)
            }
        } else {
            let s1 = sp_trivia(inp, ps_atom(inp, s));
            if !adv(inp, s, s1) {
                (s1, m)
            } else {
                ps_postfix(inp, s1, m)
            }
        },
        None => (s, m),
    }
}

/// The postfix operators after an operand whose node starts at `lhs`.
pub open spec fn ps_postfix(inp: Seq<SyntaxKind>, s: PState, lhs: int) -> (PState, int)
    decreases inp.len() - s.0, 50int,
{
    let m = s.1.len() as int;
    let s1 = match cur(inp, s) {
        Some(SyntaxKind::DOT) => Some(ps_dot(inp, s, lhs)),
        Some(SyntaxKind::OPENBRACKET) => Some(ps_index(inp, s, lhs)),
        Some(SyntaxKind::OPENPAREN) => Some(ps_call(inp, s, lhs)),
        Some(SyntaxKind::ARROW) => Some(ps_method(inp, s, lhs)),
        _ => None,
    };
    match s1 {
        None => (s, lhs),
        Some(s1) => if !adv(inp, s, s1) {
            (s1, m)
        } else {
            ps_postfix(inp, s1, m)
        },
    }
}

/// An atom expression.
pub open spec fn ps_atom(inp: Seq<SyntaxKind>, s: PState) -> PState
    decreases inp.len() - s.0, 15int,
{
    match cur(inp, s) {
        Some(SyntaxKind::DO_KW) => ps_do(inp, s),
        Some(SyntaxKind::IF_KW) => ps_if(inp, s),
        Some(SyntaxKind::OPENPAREN) => ps_paren(inp, s),
        Some(SyntaxKind::OPENBRACE) => ps_table(inp, s),
        Some(SyntaxKind::OPENBRACKET) => ps_array(inp, s),
        Some(SyntaxKind::FUNC_KW) => ps_func_const(inp, s),
        Some(SyntaxKind::IDENT) => ps_token_node(inp, s, SyntaxKind::LOCAL_VAR),
        _ => ps_token_node(inp, s, SyntaxKind::LITERAL),
    }
}

/// `<lhs> . <name>`.
pub open spec fn ps_dot(inp: Seq<SyntaxKind>, s: PState, lhs: int) -> PState
    decreases inp.len() - s.0, 14int,
{
    let m = s.1.len() as int;
    let s1 = sp_trivia(inp, sp_bump(inp, sp_precede(s, lhs)));
    let s2 = if at_kind(inp, s1, SyntaxKind::IDENT) {
        ps_token_node(inp, s1, SyntaxKind::NAME)
    } else {
        sp_error(s1, Message::Text("Expected <name> after `.`"))
    };
    sp_complete(s2, m, SyntaxKind::FIELD_EXPR)
}

/// `<lhs> [ <expr>`.
pub open spec fn ps_index(inp: Seq<SyntaxKind>, s: PState, lhs: int) -> PState
    decreases inp.len() - s.0, 14int,
{
    let m = s.1.len() as int;
    let s1 = sp_trivia(inp, sp_bump(inp, sp_precede(s, lhs)));
    let s2 = if at_expr(inp, s1) {
        if !adv(inp, s, s1) {
            s1
        } else {
            ps_expr(inp, s1)
        }
    } else {
        sp_abandon(inp, s1)
    };
    let s3 = sp_trivia(inp, s2);
    let s4 = if !at_kind(inp, s3, SyntaxKind::CLOSEBRACKET) {
        sp_error(s3, Message::Text("Expected `]` to close index expression"))
    } else {
        s3
    };
    sp_complete(s4, m, SyntaxKind::INDEX_EXPR)
}

/// `<lhs> ( <args> )`.
pub open spec fn ps_call(inp: Seq<SyntaxKind>, s: PState, lhs: int) -> PState
    decreases inp.len() - s.0, 14int,
{
    let m = s.1.len() as int;
    let s1 = ps_arg_list(inp, sp_precede(s, lhs));
    sp_complete(s1, m, SyntaxKind::CALL_EXPR)
}

/// `<lhs> -> <name> ( <args> )`.
pub open spec fn ps_method(inp: Seq<SyntaxKind>, s: PState, lhs: int) -> PState
    decreases inp.len() - s.0, 14int,
{
    let m = s.1.len() as int;
    let s1 = sp_trivia(inp, sp_bump(inp, sp_precede(s, lhs)));
    let s2 = sp_trivia(
        inp,
        if at_kind(inp, s1, SyntaxKind::IDENT) {
            ps_token_node(inp, s1, SyntaxKind::NAME)
        } else {
            sp_error(s1, Message::Text("Expected <name> after `->`"))
        },
    );
    let s3 = if at_kind(inp, s2, SyntaxKind::OPENPAREN) {
        if !adv(inp, s, s2) {
            s2
        } else {
            ps_arg_list(inp, s2)
        }
    } else {
        sp_abandon(inp, s2)
    };
    sp_complete(s3, m, SyntaxKind::METHOD_CALL_EXPR)
}

/// A parenthesised list of expressions.
pub open spec fn ps_arg_list(inp: Seq<SyntaxKind>, s: PState) -> PState
    decreases inp.len() - s.0, 13int,
{
    let m = s.1.len() as int;
    let s1 = sp_trivia(inp, sp_bump(inp, sp_start(s)));
    if !adv(inp, s, s1) {
        s1
    } else {
        let s2 = sp_trivia(inp, ps_expr_items(inp, s1, SyntaxKind::CLOSEPAREN));
        let s3 = if at_kind(inp, s2, SyntaxKind::CLOSEPAREN) {
            sp_bump(inp, s2)
        } else {
            ps_missing_close(inp, s2, SyntaxKind::CLOSEPAREN, "Missing closing ')'", "Expected closing ')'")
        };
        sp_complete(s3, m, SyntaxKind::ARG_LIST)
    }
}

/// The expressions of a list up to `close`.
pub open spec fn ps_expr_items(inp: Seq<SyntaxKind>, s: PState, close: SyntaxKind) -> PState
    decreases inp.len() - s.0, 50int,
{
    match cur(inp, s) {
        None => s,
        Some(t) => if t == close {
            s
        } else if t == SyntaxKind::COMMA {
            let s1 = sp_trivia(inp, sp_bump(inp, sp_error(s, Message::Text("Missing <expr>"))));
            if !adv(inp, s, s1) {
                s1
            } else {
                ps_expr_items(inp, s1, close)
            }
        } else if is_expr_first(t) {
            let s1 = sp_trivia(inp, ps_expr(inp, s));
            match ps_after_item(inp, s1, expr_start()) {
                None => s1,
                Some(s2) => if !adv(inp, s, s2) {
                    s2
                } else {
                    ps_expr_items(inp, s2, close)
                },
            }
        } else {
            s
        },
    }
}

/// `do <program> end`.
pub open spec fn ps_do(inp: Seq<SyntaxKind>, s: PState) -> PState
    decreases inp.len() - s.0, 14int,
{
    let m = s.1.len() as int;
    let s1 = sp_bump(inp, sp_start(s));
    if !adv(inp, s, s1) {
        s1
    } else {
        sp_complete(ps_end(inp, ps_program(inp, s1), "Missing 'end' keyword"), m, SyntaxKind::DO_EXPR)
    }
}

/// `if <expr> then <program> {elif <expr> then <program>} [else <program>] end`.
pub open spec fn ps_if(inp: Seq<SyntaxKind>, s: PState) -> PState
    decreases inp.len() - s.0, 14int,
{
    let m = s.1.len() as int;
    let s1 = sp_trivia(inp, sp_bump(inp, sp_start(s)));
    if !adv(inp, s, s1) {
        s1
    } else {
        let s2 = if at_expr(inp, s1) {
            ps_expr(inp, s1)
        } else {
            sp_error(s1, Message::Text("Expected <expr>"))
        };
        let s3 = ps_expect(inp, s2, SyntaxKind::THEN_KW);
        if !adv(inp, s, s3) {
            s3
        } else {
            let s4 = ps_branch_program(inp, s3);
            let s5 = if at_kind(inp, s4, SyntaxKind::ELIF_KW) {
                if !adv(inp, s, s4) {
                    s4
                } else {
                    let s6 = ps_elifs(inp, s4);
                    if at_kind(inp, s6, SyntaxKind::ELSE_KW) && adv(inp, s, s6) {
                        ps_else(inp, s6)
                    } else {
                        s6
                    }
                }
            } else if at_kind(inp, s4, SyntaxKind::ELSE_KW) && adv(inp, s, s4) {
                ps_else(inp, s4)
            } else {
                s4
            };
            sp_complete(ps_end(inp, s5, "Missing 'end' keyword"), m, SyntaxKind::IF_EXPR)
        }
    }
}

/// The `elif` branches.
pub open spec fn ps_elifs(inp: Seq<SyntaxKind>, s: PState) -> PState
    decreases inp.len() - s.0, 50int,
{
    if at_kind(inp, s, SyntaxKind::ELIF_KW) {
        let s1 = ps_elif(inp, s);
        if !adv(inp, s, s1) {
            s1
        } else {
            ps_elifs(inp, s1)
        }
    } else {
        s
    }
}

/// `elif <expr> then <program>`.
pub open spec fn ps_elif(inp: Seq<SyntaxKind>, s: PState) -> PState
    decreases inp.len() - s.0, 14int,
{
    let m = s.1.len() as int;
    let s1 = sp_trivia(inp, sp_bump(inp, sp_start(s)));
    if !adv(inp, s, s1) {
        s1
    } else {
        let s2 = sp_trivia(
            inp,
            if at_expr(inp, s1) {
                ps_expr(inp, s1)
            } else {
                sp_error(s1, Message::Text("Expected <expr>"))
            },
        );
        let s3 = if at_kind(inp, s2, SyntaxKind::THEN_KW) {
            sp_bump(inp, s2)
        } else {
            sp_error(s2, Message::Text("Missing 'then' keyword"))
        };
        if !adv(inp, s, s3) {
            s3
        } else {
            sp_complete(ps_branch_program(inp, s3), m, SyntaxKind::ELIF_BRANCH)
        }
    }
}

/// `else <program>`.
pub open spec fn ps_else(inp: Seq<SyntaxKind>, s: PState) -> PState
    decreases inp.len() - s.0, 14int,
{
    let m = s.1.len() as int;
    let s1 = sp_bump(inp, sp_start(s));
    if !adv(inp, s, s1) {
        s1
    } else {
        sp_complete(ps_branch_program(inp, s1), m, SyntaxKind::ELSE_BRANCH)
    }
}

/// `( <expr> )`.
pub open spec fn ps_paren(inp: Seq<SyntaxKind>, s: PState) -> PState
    decreases inp.len() - s.0, 14int,
{
    let m = s.1.len() as int;
    let s1 = sp_trivia(inp, sp_bump(inp, sp_start(s)));
    if !adv(inp, s, s1) {
        s1
    } else {
        let s2 = if at_expr(inp, s1) {
            sp_trivia(inp, ps_expr(inp, s1))
        } else {
            sp_error(s1, Message::Text("Expected <expr>, or use `nil` for unit literal"))
        };
        let s3 = if at_kind(inp, s2, SyntaxKind::CLOSEPAREN) {
            sp_bump(inp, s2)
        } else {
            sp_error(s2, Message::Text("Missing closing ')'"))
        };
        sp_complete(s3, m, SyntaxKind::PAREN_EXPR)
    }
}

/// `[ <expr>, ... ]`.
pub open spec fn ps_array(inp: Seq<SyntaxKind>, s: PState) -> PState
    decreases inp.len() - s.0, 14int,
{
    let m = s.1.len() as int;
    let s1 = sp_trivia(inp, sp_bump(inp, sp_start(s)));
    if !adv(inp, s, s1) {
        s1
    } else {
        let s2 = sp_trivia(inp, ps_expr_items(inp, s1, SyntaxKind::CLOSEBRACKET));
        let s3 = if at_kind(inp, s2, SyntaxKind::CLOSEBRACKET) {
            sp_bump(inp, s2)
        } else {
            ps_missing_close(inp, s2, SyntaxKind::CLOSEBRACKET, "Missing closing ']'", "Expected closing ']'")
        };
        sp_complete(s3, m, SyntaxKind::ARRAY_CONST)
    }
}

/// `{ <field>, ... }`.
pub open spec fn ps_table(inp: Seq<SyntaxKind>, s: PState) -> PState
    decreases inp.len() - s.0, 14int,
{
    let m = s.1.len() as int;
    let s1 = sp_trivia(inp, sp_bump(inp, sp_start(s)));
    if !adv(inp, s, s1) {
        s1
    } else {
        sp_complete(sp_trivia(inp, ps_field_items(inp, s1)), m, SyntaxKind::TABLE_CONST)
    }
}

/// The fields of a table up to `}`.
pub open spec fn ps_field_items(inp: Seq<SyntaxKind>, s: PState) -> PState
    decreases inp.len() - s.0, 50int,
{
    match cur(inp, s) {
        None => s,
        Some(t) => if t == SyntaxKind::CLOSEBRACE {
            s
        } else if t == SyntaxKind::COMMA {
            let s1 = sp_trivia(inp, sp_bump(inp, sp_error(s, Message::Text("Missing <field>"))));
            if !adv(inp, s, s1) {
                s1
            } else {
                ps_field_items(inp, s1)
            }
        } else if is_field_first(t) {
            let s1 = sp_trivia(inp, ps_field(inp, s));
            match ps_after_item(inp, s1, field_start()) {
                None => s1,
                Some(s2) => if !adv(inp, s, s2) {
                    s2
                } else {
                    ps_field_items(inp, s2)
                },
            }
        } else {
            s
        },
    }
}

/// `[func] <field-name> = <expr>`.
pub open spec fn ps_field(inp: Seq<SyntaxKind>, s: PState) -> PState
    decreases inp.len() - s.0, 13int,
{
    let m = s.1.len() as int;
    let s1 = sp_start(s);
    let s2 = if at_kind(inp, s1, SyntaxKind::FUNC_KW) {
        proof {
            lemma_trivia_end(inp, s.0 + 1);
        }
        sp_trivia(inp, sp_bump(inp, s1))
    } else {
        s1
    };
    let s3 = sp_trivia(inp, ps_field_name(inp, s2));
    let s4 = match cur(inp, s3) {
        Some(SyntaxKind::EQ) => sp_bump(inp, s3),
        Some(SyntaxKind::COLON) => sp_finish_error(
            sp_bump(inp, sp_start_error(s3)),
            Message::Text("Should use '=' instead of ':'"),
        ),
        Some(t) => if is_expr_first(t) {
            sp_error(s3, Message::Text("Missing '='"))
        } else {
            sp_abandon(inp, s3)
        },
        None => sp_abandon(inp, s3),
    };
    let s5 = sp_trivia(inp, s4);
    let s6 = if at_expr(inp, s5) {
        if !adv(inp, s, s5) {
            s5
        } else {
            ps_expr(inp, s5)
        }
    } else {
        sp_error(s5, Message::Text("Missing <expr>"))
    };
    sp_complete(s6, m, SyntaxKind::TABLE_FIELD)
}

/// The name of a table field: a name, or `[ <expr> ]`.
pub open spec fn ps_field_name(inp: Seq<SyntaxKind>, s: PState) -> PState
    decreases inp.len() - s.0, 12int,
{
    let m = s.1.len() as int;
    let s1 = sp_start(s);
    match cur(inp, s1) {
        Some(SyntaxKind::IDENT) => sp_complete(sp_bump(inp, s1), m, SyntaxKind::TABLE_FIELD_NAME_IDENT),
        Some(SyntaxKind::OPENBRACKET) => {
            let s2 = sp_trivia(inp, sp_bump(inp, s1));
            let s3 = if at_expr(inp, s2) {
                if !adv(inp, s, s2) {
                    s2
                } else {
                    ps_expr(inp, s2)
                }
            } else {
                sp_error(s2, Message::Text("Missing <expr>"))
            };
            let s4 = sp_trivia(inp, s3);
            let s5 = if at_kind(inp, s4, SyntaxKind::CLOSEBRACKET) {
                sp_bump(inp, s4)
            } else {
                sp_error(s4, Message::Text("Missing closing ']'"))
            };
            sp_complete(s5, m, SyntaxKind::TABLE_FIELD_NAME_EXPR)
        },
        _ => sp_abandon(
            inp,
            sp_complete(sp_error(s1, Message::Text("Missing <field-name>")), m, SyntaxKind::ERROR),
        ),
    }
}

/// `func (<params>) <program> end`.
pub open spec fn ps_func_const(inp: Seq<SyntaxKind>, s: PState) -> PState
    decreases inp.len() - s.0, 14int,
{
    let m = s.1.len() as int;
    let s1 = sp_trivia(inp, sp_bump(inp, sp_start(s)));
    let s2 = if at_kind(inp, s1, SyntaxKind::OPENPAREN) {
        ps_param_list(inp, s1)
    } else {
        sp_abandon(inp, s1)
    };
    if !adv(inp, s, s2) {
        s2
    } else {
        sp_complete(ps_end(inp, ps_program(inp, s2), "Missing 'end'"), m, SyntaxKind::FUNC_CONST)
    }
}

/// The whole input: statements, each token that cannot begin one reported in an `ERROR` node,
/// all in one `PROGRAM` node.
pub open spec fn ps_entry(inp: Seq<SyntaxKind>, s: PState) -> PState {
    let s1 = ps_stmts_until(inp, sp_start(s), no_stop());
    sp_complete(sp_trivia(inp, s1), s.1.len() as int, SyntaxKind::PROGRAM)
}

/// The parse of a whole input, from its start with no event and no error: its events, its
/// error messages, and whether it gave up.
pub open spec fn program_parse(kinds: Seq<SyntaxKind>) -> PState {
    ps_entry(kinds, (0, Seq::<EventRaw>::empty(), Seq::<Message>::empty(), false))
}

} // verus!

verus! {

/// The events of `a o1 b o2 c` (three variables, two infix operators, no trivia) when `o2`
/// binds tighter than `o1`: `a o1 (b o2 c)`, the second operation the right operand of the
/// first.
pub open spec fn right_nested_events(o1: SyntaxKind, o2: SyntaxKind) -> Seq<EventRaw> {
    seq![
        EventRaw::StartNode { kind: SyntaxKind::LOCAL_VAR, forward_parent: Some(3) },
        EventRaw::Token { kind: SyntaxKind::IDENT },
        EventRaw::FinishNode,
        EventRaw::StartNode { kind: SyntaxKind::BINARY_EXPR, forward_parent: None },
        EventRaw::Token { kind: o1 },
        EventRaw::StartNode { kind: SyntaxKind::LOCAL_VAR, forward_parent: Some(3) },
        EventRaw::Token { kind: SyntaxKind::IDENT },
        EventRaw::FinishNode,
        EventRaw::StartNode { kind: SyntaxKind::BINARY_EXPR, forward_parent: None },
        EventRaw::Token { kind: o2 },
        EventRaw::StartNode { kind: SyntaxKind::LOCAL_VAR, forward_parent: None },
        EventRaw::Token { kind: SyntaxKind::IDENT },
        EventRaw::FinishNode,
        EventRaw::FinishNode,
        EventRaw::FinishNode,
    ]
}

/// The events of `a o1 b o2 c` when `o2` does not bind tighter than `o1`: `(a o1 b) o2 c`, the
/// first operation the left operand of the second.
pub open spec fn left_nested_events(o1: SyntaxKind, o2: SyntaxKind) -> Seq<EventRaw> {
    seq![
        EventRaw::StartNode { kind: SyntaxKind::LOCAL_VAR, forward_parent: Some(3) },
        EventRaw::Token { kind: SyntaxKind::IDENT },
        EventRaw::FinishNode,
        EventRaw::StartNode { kind: SyntaxKind::BINARY_EXPR, forward_parent: Some(6) },
        EventRaw::Token { kind: o1 },
        EventRaw::StartNode { kind: SyntaxKind::LOCAL_VAR, forward_parent: None },
        EventRaw::Token { kind: SyntaxKind::IDENT },
        EventRaw::FinishNode,
        EventRaw::FinishNode,
        EventRaw::StartNode { kind: SyntaxKind::BINARY_EXPR, forward_parent: None },
        EventRaw::Token { kind: o2 },
        EventRaw::StartNode { kind: SyntaxKind::LOCAL_VAR, forward_parent: None },
        EventRaw::Token { kind: SyntaxKind::IDENT },
        EventRaw::FinishNode,
        EventRaw::FinishNode,
    ]
}

/// How two infix operators group: in `a o1 b o2 c`, where `o2` binds more tightly on its left
/// than `o1` on its right, `b o2 c` is parsed first and becomes the right operand of `o1`;
/// otherwise `a o1 b` is parsed first and becomes the left operand of `o2`. So `a + b / c`
/// is `a + (b / c)`, and `a - b - c` is `(a - b) - c`.
pub proof fn law_operators_group_by_binding_power(o1: SyntaxKind, o2: SyntaxKind)
    requires
        binding_power(o1) is Some,
        binding_power(o2) is Some,
    ensures
        ({
            let inp = seq![SyntaxKind::IDENT, o1, SyntaxKind::IDENT, o2, SyntaxKind::IDENT];
            let r = ps_expr(inp, (0, Seq::empty(), Seq::empty(), false));
            &&& r.0 == 5
            &&& r.2 == Seq::<Message>::empty()
            &&& !r.3
            &&& (binding_power(o2)->0).0 >= (binding_power(o1)->0).1 ==> r.1 == right_nested_events(o1, o2)
            &&& (binding_power(o2)->0).0 < (binding_power(o1)->0).1 ==> r.1 == left_nested_events(o1, o2)
        }),
{
    let inp = seq![SyntaxKind::IDENT, o1, SyntaxKind::IDENT, o2, SyntaxKind::IDENT];
    let s0: PState = (0, Seq::empty(), Seq::empty(), false);
    assert(!SyntaxKind::IDENT.spec_is_trivia());
    assert(!o1.spec_is_trivia());
    assert(!o2.spec_is_trivia());
    assert(trivia_end(inp, 1) == 1);
    assert(trivia_end(inp, 2) == 2);
    assert(trivia_end(inp, 3) == 3);
    assert(trivia_end(inp, 4) == 4);
    assert(trivia_end(inp, 5) == 5);
    assert(inp.subrange(1, 1) =~= Seq::<SyntaxKind>::empty());
    assert(inp.subrange(2, 2) =~= Seq::<SyntaxKind>::empty());
    assert(inp.subrange(3, 3) =~= Seq::<SyntaxKind>::empty());
    assert(inp.subrange(4, 4) =~= Seq::<SyntaxKind>::empty());
    assert(inp.subrange(5, 5) =~= Seq::<SyntaxKind>::empty());
    let (l1, r1) = binding_power(o1)->0;
    let (l2, r2) = binding_power(o2)->0;
    assert(token_events(Seq::<SyntaxKind>::empty()) =~= Seq::<EventRaw>::empty());
    lemma_var_operand(inp, s0);
    let a = ps_token_node(inp, s0, SyntaxKind::LOCAL_VAR);
    assert(ps_expr(inp, s0) == ps_infix(inp, a, 0, 0).0);
    let b0 = sp_trivia(inp, sp_bump(inp, sp_precede(a, 0)));
    assert(b0.0 == 2);
    lemma_var_operand(inp, b0);
    let b = ps_token_node(inp, b0, SyntaxKind::LOCAL_VAR);
    assert(b.0 == 3);
    let c0 = sp_trivia(inp, sp_bump(inp, sp_precede(b, 5)));
    if l2 >= r1 {
        assert(c0.0 == 4);
        lemma_var_operand(inp, c0);
        let c = ps_token_node(inp, c0, SyntaxKind::LOCAL_VAR);
        assert(c.0 == 5);
        assert(ps_infix(inp, c, r2, 10) == (c, 10int));
        assert(ps_expr_bp(inp, c0, r2) == (c, Some(10int)));
        let dd = sp_complete(c, 8, SyntaxKind::BINARY_EXPR);
        assert(ps_infix(inp, dd, r1, 8) == (dd, 8int));
        assert(ps_infix(inp, b, r1, 5) == (dd, 8int));
        assert(ps_expr_bp(inp, b0, r1) == (dd, Some(8int)));
        let e = sp_complete(dd, 3, SyntaxKind::BINARY_EXPR);
        assert(ps_infix(inp, e, 0, 3) == (e, 3int));
        assert(ps_infix(inp, a, 0, 0) == (e, 3int));
        assert(e.1 =~= right_nested_events(o1, o2));
    } else {
        assert(ps_infix(inp, b, r1, 5) == (b, 5int));
        assert(ps_expr_bp(inp, b0, r1) == (b, Some(5int)));
        let e = sp_complete(b, 3, SyntaxKind::BINARY_EXPR);
        let f0 = sp_trivia(inp, sp_bump(inp, sp_precede(e, 3)));
        assert(f0.0 == 4);
        lemma_var_operand(inp, f0);
        let f = ps_token_node(inp, f0, SyntaxKind::LOCAL_VAR);
        assert(ps_infix(inp, f, r2, 11) == (f, 11int));
        assert(ps_expr_bp(inp, f0, r2) == (f, Some(11int)));
        let g = sp_complete(f, 9, SyntaxKind::BINARY_EXPR);
        assert(ps_infix(inp, g, 0, 9) == (g, 9int));
        assert(ps_infix(inp, e, 0, 3) == (g, 9int));
        assert(ps_infix(inp, a, 0, 0) == (g, 9int));
        assert(g.1 =~= left_nested_events(o1, o2));
    }
}

/// A variable followed by the end of the input or by an infix operator is an operand of its
/// own: a `LOCAL_VAR` node with its one token.
proof fn lemma_var_operand(inp: Seq<SyntaxKind>, s: PState)
    requires
        0 <= s.0 < inp.len(),
        inp[s.0] == SyntaxKind::IDENT,
        s.0 + 1 == inp.len() || (binding_power(inp[s.0 + 1]) is Some && !inp[s.0 + 1].spec_is_trivia()),
    ensures
        ps_lhs(inp, s) == (ps_token_node(inp, s, SyntaxKind::LOCAL_VAR), s.1.len() as int),
        ps_token_node(inp, s, SyntaxKind::LOCAL_VAR).0 == s.0 + 1,
        ps_expr_bp(inp, s, 0).1 is Some,
{
    let t = ps_token_node(inp, s, SyntaxKind::LOCAL_VAR);
    assert(ps_atom(inp, s) == t);
    assert(trivia_end(inp, s.0 + 1) == s.0 + 1);
    assert(inp.subrange(s.0 + 1, s.0 + 1) =~= Seq::<SyntaxKind>::empty());
    assert(token_events(Seq::<SyntaxKind>::empty()) =~= Seq::<EventRaw>::empty());
    assert(sp_trivia(inp, t) == t);
    assert(ps_postfix(inp, t, s.1.len() as int) == (t, s.1.len() as int));
}

} // verus!
