pub mod grammar;
pub mod green;
pub mod lossless;
pub mod state;
pub mod syntax_error;
pub mod token_set;
pub mod tree;

use crate::lexer::spec::total_len;
use crate::syntax_kind::SyntaxKind;
use crate::token::Token;
use green::{green_steps, steps_text};
use state::{token_events, tokens_of, EventRaw, Message, Parser};
use syntax_error::{convert_kind, converted, SyntaxError};
use tree::{build_tree, buildable, flat_steps, tree_errors, tree_steps};
use vstd::prelude::*;
use vstd::string::StringSliceAdditionalSpecFns;
use vstd::utf8::*;

verus! {

/// Where token `t` begins: the sum of the lengths of the tokens before it.
pub open spec fn token_start(tokens: Seq<Token>, t: int) -> nat {
    total_len(tokens.take(t))
}

/// `tokens` can be read against the UTF-8 bytes `bytes` of a source: the source and the sum of
/// the tokens' lengths fit in `u32`, and each token begins on a char boundary.
pub open spec fn tokens_fit(bytes: Seq<u8>, tokens: Seq<Token>) -> bool {
    &&& bytes.len() <= u32::MAX
    &&& total_len(tokens) <= u32::MAX
    &&& forall|t: int|
        0 <= t < tokens.len() ==> is_char_boundary(bytes, #[trigger] token_start(tokens, t) as int)
}

/// Where the tree builder cuts the source: where each token begins, then the end of the source.
pub open spec fn token_offsets(bytes: Seq<u8>, tokens: Seq<Token>) -> Seq<u32> {
    Seq::new(
        tokens.len() + 1,
        |t: int|
            if t < tokens.len() {
                token_start(tokens, t) as u32
            } else {
                bytes.len() as u32
            },
    )
}

/// The syntax kinds of `tokens`.
pub open spec fn token_kinds(tokens: Seq<Token>) -> Seq<SyntaxKind> {
    tokens.map_values(|tk: Token| converted(tk.kind).0)
}

/// The errors that malformed tokens report: the message, and the token's range.
pub open spec fn lexical_errors(tokens: Seq<Token>) -> Seq<(Message, u32, u32)>
    decreases tokens.len(),
{
    if tokens.len() == 0 {
        Seq::empty()
    } else {
        let rest = lexical_errors(tokens.drop_last());
        let start = total_len(tokens.drop_last());
        match converted(tokens.last().kind).1 {
            Some(m) => rest.push(
                (Message::Text(m), start as u32, (start + tokens.last().len) as u32),
            ),
            None => rest,
        }
    }
}

pub proof fn lemma_total_len_concat(a: Seq<Token>, b: Seq<Token>)
    ensures
        total_len(a + b) == total_len(a) + total_len(b),
    decreases a.len(),
{
    if a.len() > 0 {
        lemma_total_len_concat(a.drop_first(), b);
        assert((a + b).drop_first() =~= a.drop_first() + b);
    } else {
        assert(a + b =~= b);
    }
}

/// Adding a token adds its length.
pub proof fn lemma_total_len_push(ts: Seq<Token>, x: Token)
    ensures
        total_len(ts.push(x)) == total_len(ts) + x.len,
{
    lemma_total_len_concat(ts, seq![x]);
    assert(ts + seq![x] =~= ts.push(x));
    assert(seq![x].drop_first() =~= Seq::<Token>::empty());
    assert(total_len(Seq::<Token>::empty()) == 0);
    assert(total_len(seq![x]) == x.len + total_len(seq![x].drop_first()));
}

/// A prefix is no longer than the whole.
pub proof fn lemma_total_len_take(ts: Seq<Token>, j: int)
    requires
        0 <= j <= ts.len(),
    ensures
        total_len(ts.take(j)) <= total_len(ts),
        forall|i: int| 0 <= i <= j ==> total_len(#[trigger] ts.take(i)) <= total_len(ts.take(j)),
{
    lemma_total_len_concat(ts.take(j), ts.skip(j));
    assert(ts.take(j) + ts.skip(j) =~= ts);
    assert forall|i: int| 0 <= i <= j implies total_len(#[trigger] ts.take(i)) <= total_len(
        ts.take(j),
    ) by {
        lemma_total_len_concat(ts.take(i), ts.take(j).skip(i));
        assert(ts.take(i) + ts.take(j).skip(i) =~= ts.take(j));
    }
}

/// Parses `tokens`, the tokens of `source`, into a syntax tree, and gives the errors of the
/// malformed tokens followed by the syntax errors that the parse reported. `None` where the
/// parse meets a construct whose error recovery does not exist, or its events have no single
/// tree.
///
/// The tree is lossless. It is the tree of the events of `program_parse`, the grammar run on
/// the tokens' kinds: `Some` exactly where that parse did not give up and its events make one
/// tree, and the errors are those of the malformed tokens, then those the parse reported. A
/// source of trivia alone gives one `PROGRAM` node that holds its tokens. A source whose
/// statements are plain (`chain_statements`: operator chains, that is operands (one-token
/// operands or parenthesised chains, each after any prefix operators) joined by infix
/// operators, trivia after any token; `var`
/// statements and `return` statements whose value is one; `return` without a value; `break`;
/// `continue`) gives the tree of `chain_program_events`: each chain parsed by binding power
/// (`pratt`), and no syntax error.
#[verifier::rlimit(40)]
pub fn parse(source: &str, tokens: &Vec<Token>) -> (r: Option<(rowan::GreenNode, Vec<SyntaxError>)>)
    requires
        tokens_fit(source.spec_bytes(), tokens@),
    ensures
        r is Some ==> buildable(green_steps((r->0).0)),
        r is Some && total_len(tokens@) == source.spec_bytes().len() ==> steps_text(
            green_steps((r->0).0),
        ) == source@,
        (forall|t: int| 0 <= t < tokens@.len() ==> (#[trigger] token_kinds(tokens@)[t]).spec_is_trivia())
            ==> {
            &&& r is Some
            &&& green_steps((r->0).0) == flat_steps(
                SyntaxKind::PROGRAM,
                token_kinds(tokens@),
                source.spec_bytes(),
                token_offsets(source.spec_bytes(), tokens@),
            )
            &&& (r->0).1@.map_values(|e: SyntaxError| e@) == lexical_errors(tokens@)
        },
        grammar::statement::chain_statements(token_kinds(tokens@), 0) ==> {
            let ev = grammar::chain_program_events(token_kinds(tokens@), 0, Seq::empty());
            let steps = tree_steps(
                ev,
                source.spec_bytes(),
                token_offsets(source.spec_bytes(), tokens@),
            );
            &&& (r is Some <==> (steps is Some && buildable(steps->0)))
            &&& (r is Some ==> green_steps((r->0).0) == steps->0)
            &&& (r is Some ==> (r->0).1@.map_values(|e: SyntaxError| e@) == lexical_errors(
                tokens@,
            ))
        },
        ({
            let fin = grammar::events::program_parse(token_kinds(tokens@));
            let offs = token_offsets(source.spec_bytes(), tokens@);
            let steps = tree_steps(fin.1, source.spec_bytes(), offs);
            &&& (r is Some <==> (!fin.3 && steps is Some && buildable(steps->0)))
            &&& (r is Some ==> green_steps((r->0).0) == steps->0)
            &&& (r is Some ==> (r->0).1@.map_values(|e: SyntaxError| e@) == lexical_errors(
                tokens@,
            ) + tree_errors(fin.1, fin.2, offs))
        }),
{
    let ghost bytes = source.spec_bytes();
    let mut kinds: Vec<SyntaxKind> = Vec::new();
    let mut offsets: Vec<u32> = Vec::new();
    let mut errors: Vec<SyntaxError> = Vec::new();
    let mut offset: u32 = 0;
    let mut j: usize = 0;
    proof {
        assert(tokens@.take(0) =~= Seq::<Token>::empty());
        assert(errors@.map_values(|e: SyntaxError| e@) =~= Seq::<(Message, u32, u32)>::empty());
    }
    while j < tokens.len()
        invariant
            j <= tokens@.len(),
            tokens_fit(bytes, tokens@),
            offset == total_len(tokens@.take(j as int)),
            kinds@ == token_kinds(tokens@).take(j as int),
            offsets@.len() == j,
            forall|t: int| 0 <= t < j ==> offsets@[t] == token_offsets(bytes, tokens@)[t],
            errors@.map_values(|e: SyntaxError| e@) == lexical_errors(tokens@.take(j as int)),
        decreases tokens@.len() - j,
    {
        let token = tokens[j];
        let (kind, err) = convert_kind(token.kind);
        proof {
            lemma_total_len_push(tokens@.take(j as int), token);
            assert(tokens@.take(j + 1) =~= tokens@.take(j as int).push(token));
            lemma_total_len_take(tokens@, j + 1);
            assert(tokens@.take(j + 1).drop_last() =~= tokens@.take(j as int));
        }
        kinds.push(kind);
        offsets.push(offset);
        if let Some(err) = err {
            let ghost before = errors@;
            errors.push(SyntaxError::new(Message::Text(err), offset, offset + token.len));
            proof {
                assert(errors@.map_values(|e: SyntaxError| e@) =~= before.map_values(
                    |e: SyntaxError| e@,
                ).push((Message::Text(err), offset, (offset + token.len) as u32)));
            }
        }
        offset = offset + token.len;
        j = j + 1;
        proof {
            assert(kinds@ =~= token_kinds(tokens@).take(j as int));
        }
    }
    proof {
        assert(tokens@.take(tokens@.len() as int) =~= tokens@);
        assert(kinds@ =~= token_kinds(tokens@));
    }
    let mut parser = Parser::new(kinds);
    let ghost fresh = parser;
    grammar::entry(&mut parser);
    proof {
        parser.lemma_read_tokens();
        assert(parser.input().take(parser.position()) =~= token_kinds(tokens@));
    }
    if parser.unfinished() {
        return None;
    }
    let output = parser.finish();
    let ghost ev = output.events();
    let ghost output_messages = output.messages();
    offsets.push(source.len() as u32);
    proof {
        let offs = token_offsets(bytes, tokens@);
        assert(offsets@ =~= offs);
        encode_utf8_valid_utf8(source@);
        is_char_boundary_start_end_of_seq(bytes);
        assert forall|t: int| 0 <= t < offs.len() implies is_char_boundary(
            bytes,
            #[trigger] offs[t] as int,
        ) by {
            if t < tokens@.len() {
                assert(is_char_boundary(bytes, token_start(tokens@, t) as int));
            }
        }
        assert forall|t: int, u: int| 0 <= t <= u < offs.len() implies offs[t] <= offs[u] by {
            lemma_total_len_take(tokens@, tokens@.len() as int);
            if u < tokens@.len() {
                lemma_total_len_take(tokens@, u);
            } else if t < tokens@.len() {
                assert(is_char_boundary(bytes, token_start(tokens@, t) as int));
            }
        }
    }
    let ghost offs = offsets@;
    proof {
        if grammar::statement::chain_statements(token_kinds(tokens@), 0) {
            assert(fresh.input() == token_kinds(tokens@));
            assert(ev == grammar::chain_program_events(token_kinds(tokens@), 0, Seq::empty()));
            let start = Seq::<EventRaw>::empty().push(EventRaw::Tombstone);
            assert(grammar::expression::no_error_events(start));
            grammar::statement::lemma_chain_statements_no_errors(token_kinds(tokens@), 0, start);
            let cs = grammar::statement::chain_statement_events(token_kinds(tokens@), 0, start);
            assert forall|k: int| 0 <= k < ev.len() implies !(#[trigger] ev[k] is EmptyError) && !(
            ev[k] is StartError) && !(ev[k] is FinishError) by {
                if 0 < k < cs.len() {
                    assert(ev[k] == cs[k]);
                }
            }
            tree::lemma_no_error_events(ev, output_messages, offs);
        }
    }
    let ghost all_trivia = forall|t: int|
        0 <= t < tokens@.len() ==> (#[trigger] token_kinds(tokens@)[t]).spec_is_trivia();
    proof {
        if all_trivia {
            assert(grammar::util::only_trivia_left(&fresh)) by {
                assert forall|i: int| fresh.position() <= i < fresh.input().len() implies (
                #[trigger] fresh.input()[i]).spec_is_trivia() by {
                    assert(fresh.input()[i] == token_kinds(tokens@)[i]);
                }
            }
            let kk = token_kinds(tokens@);
            assert(fresh.input().subrange(0, fresh.input().len() as int) =~= kk);
            assert(ev =~= seq![EventRaw::StartNode { kind: SyntaxKind::PROGRAM, forward_parent: None }]
                + token_events(kk).push(EventRaw::FinishNode));
            tree::lemma_flat_tree(SyntaxKind::PROGRAM, kk, bytes, offs);
            assert forall|k: int| 0 <= k < ev.len() implies !(#[trigger] ev[k] is EmptyError) && !(
            ev[k] is StartError) && !(ev[k] is FinishError) by {
                if 0 < k < ev.len() - 1 {
                    assert(ev[k] == EventRaw::Token { kind: kk[k - 1] });
                }
            }
            tree::lemma_no_error_events(ev, output_messages, offs);
        }
    }
    match build_tree(source, output, offsets) {
        Some((tree, syntax_errors)) => {
            let ghost lexical = errors@.map_values(|e: SyntaxError| e@);
            let mut errors = errors;
            let mut syntax_errors = syntax_errors;
            errors.append(&mut syntax_errors);
            proof {
                assert(errors@.map_values(|e: SyntaxError| e@) =~= lexical + tree_errors(
                    ev,
                    output_messages,
                    offs,
                ));
                if all_trivia {
                    assert(lexical + tree_errors(ev, output_messages, offs) =~= lexical);
                }
                assert(tokens_of(ev).len() == token_kinds(tokens@).len());
                lossless::lemma_tree_text(ev, bytes, offs);
                if total_len(tokens@) == bytes.len() {
                    vstd::utf8::encode_utf8_decode_utf8(source@);
                    if tokens@.len() > 0 {
                        assert(tokens@.take(0) =~= Seq::<Token>::empty());
                        assert(offs[0] == 0);
                    }
                    assert(offs[offs.len() - 1] == bytes.len());
                    assert(bytes.subrange(offs[0] as int, offs[offs.len() - 1] as int) =~= bytes);
                }
            }
            Some((tree, errors))
        },
        None => {
            None
        },
    }
}

} // verus!
