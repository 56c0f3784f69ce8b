use super::green::{steps_text, TreeStep};
use super::state::{tokens_of, EventRaw};
use super::tree::{follow, offset_text, offsets_fit, starts_of, steps_from, tree_steps};
use super::{token_start, tokens_fit};
use crate::lexer::spec::{lemma_next_token_bounds, lex, lex_from, next_token, total_len, lemma_tokens_cover_source};
use crate::text::{
    byte_len, byte_offset, char_width, lemma_byte_len_encode, lemma_byte_len_subrange,
    lemma_byte_offset_mono, lemma_byte_offset_step,
};
use crate::token::Token;
use vstd::prelude::*;
use vstd::utf8::*;

verus! {

/// Number of token events of `ev` from `i` up to `n`.
pub open spec fn count_tokens(ev: Seq<EventRaw>, i: int, n: int) -> nat
    decreases n - i,
{
    if i < 0 || i >= n || i >= ev.len() {
        0
    } else {
        (if ev[i] is Token { 1nat } else { 0nat }) + count_tokens(ev, i + 1, n)
    }
}

/// The texts between the offsets `t` to `t + c`, one after the other.
pub open spec fn texts_from(bytes: Seq<u8>, offsets: Seq<u32>, t: int, c: nat) -> Seq<char>
    decreases c,
{
    if c == 0 {
        Seq::empty()
    } else {
        offset_text(bytes, offsets, t) + texts_from(bytes, offsets, t + 1, (c - 1) as nat)
    }
}

/// `a` and `b` hold the same token events at the same places.
pub open spec fn same_tokens(a: Seq<EventRaw>, b: Seq<EventRaw>) -> bool {
    &&& a.len() == b.len()
    &&& forall|k: int| 0 <= k < a.len() ==> ((#[trigger] a[k] is Token) <==> b[k] is Token)
}

proof fn lemma_follow_same_tokens(ev: Seq<EventRaw>, idx: int, fp: Option<usize>)
    requires
        follow(ev, idx, fp) is Some,
    ensures
        same_tokens(ev, (follow(ev, idx, fp)->0).1),
    decreases ev.len() - idx,
{
    if let Some(f) = fp {
        let j = idx + f;
        let ev2 = ev.update(j, EventRaw::Tombstone);
        if let EventRaw::StartNode { kind, forward_parent } = ev[j] {
            lemma_follow_same_tokens(ev2, j, forward_parent);
            let rest = (follow(ev2, j, forward_parent)->0).1;
            assert forall|k: int| 0 <= k < ev.len() implies ((#[trigger] ev[k] is Token) <==> rest[k] is Token) by {
                assert(ev2[k] is Token <==> rest[k] is Token);
                if k != j {
                    assert(ev2[k] == ev[k]);
                }
            }
        }
    }
}

proof fn lemma_same_tokens_count(a: Seq<EventRaw>, b: Seq<EventRaw>, i: int, n: int)
    requires
        same_tokens(a, b),
    ensures
        count_tokens(a, i, n) == count_tokens(b, i, n),
    decreases n - i,
{
    if !(i < 0 || i >= n || i >= a.len()) {
        lemma_same_tokens_count(a, b, i + 1, n);
        assert(a[i] is Token <==> b[i] is Token);
    }
}

proof fn lemma_steps_text_concat(a: Seq<TreeStep>, b: Seq<TreeStep>)
    ensures
        steps_text(a + b) == steps_text(a) + steps_text(b),
    decreases b.len(),
{
    if b.len() == 0 {
        assert(a + b =~= a);
        assert(steps_text(a) + Seq::<char>::empty() =~= steps_text(a));
    } else {
        lemma_steps_text_concat(a, b.drop_last());
        assert((a + b).drop_last() =~= a + b.drop_last());
        assert((a + b).last() == b.last());
        let x = match b.last() {
            TreeStep::Token(_, text) => text,
            _ => Seq::<char>::empty(),
        };
        assert(steps_text(a) + steps_text(b.drop_last()) + x =~= steps_text(a) + (steps_text(
            b.drop_last(),
        ) + x));
    }
}

proof fn lemma_steps_text_starts(ks: Seq<crate::syntax_kind::SyntaxKind>)
    ensures
        steps_text(starts_of(ks)) == Seq::<char>::empty(),
    decreases ks.len(),
{
    if ks.len() > 0 {
        lemma_steps_text_starts(ks.drop_first());
        assert(starts_of(ks).drop_last() =~= starts_of(ks.drop_first()));
    }
}

/// The token texts of the steps from `i` are the texts of the tokens from `t` on, one per token
/// event.
proof fn lemma_steps_from_text(
    ev: Seq<EventRaw>,
    n: int,
    i: int,
    bytes: Seq<u8>,
    offsets: Seq<u32>,
    t: int,
)
    requires
        steps_from(ev, n, i, bytes, offsets, t) is Some,
        0 <= i,
        n <= ev.len(),
    ensures
        steps_text(steps_from(ev, n, i, bytes, offsets, t)->0) == texts_from(
            bytes,
            offsets,
            t,
            count_tokens(ev, i, n),
        ),
    decreases n - i,
{
    let s = steps_from(ev, n, i, bytes, offsets, t)->0;
    if i >= n {
        assert(steps_text(Seq::<TreeStep>::empty()) == Seq::<char>::empty());
    } else {
        match ev[i] {
            EventRaw::StartNode { kind, forward_parent } => {
                let (ks, rest) = follow(ev, i, forward_parent)->0;
                lemma_follow_same_tokens(ev, i, forward_parent);
                lemma_same_tokens_count(ev, rest, i + 1, n);
                lemma_steps_from_text(rest, n, i + 1, bytes, offsets, t);
                let r = steps_from(rest, n, i + 1, bytes, offsets, t)->0;
                lemma_steps_text_concat(starts_of(seq![kind] + ks), r);
                lemma_steps_text_starts(seq![kind] + ks);
                assert(Seq::<char>::empty() + steps_text(r) =~= steps_text(r));
                assert(s == starts_of(seq![kind] + ks) + r);
                assert(count_tokens(ev, i, n) == count_tokens(ev, i + 1, n));
                assert(steps_text(s) == steps_text(r));
            },
            EventRaw::FinishNode => {
                lemma_steps_from_text(ev, n, i + 1, bytes, offsets, t);
                let r = steps_from(ev, n, i + 1, bytes, offsets, t)->0;
                lemma_steps_text_concat(seq![TreeStep::Finish], r);
                assert(seq![TreeStep::Finish].drop_last() =~= Seq::<TreeStep>::empty());
                assert(Seq::<char>::empty() + steps_text(r) =~= steps_text(r));
                assert(s == seq![TreeStep::Finish] + r);
                assert(steps_text(Seq::<TreeStep>::empty()) == Seq::<char>::empty());
                assert(steps_text(seq![TreeStep::Finish]) =~= Seq::<char>::empty());
                assert(steps_text(s) == steps_text(r));
            },
            EventRaw::Token { kind } => {
                lemma_steps_from_text(ev, n, i + 1, bytes, offsets, t + 1);
                let r = steps_from(ev, n, i + 1, bytes, offsets, t + 1)->0;
                let x = TreeStep::Token(kind, offset_text(bytes, offsets, t));
                lemma_steps_text_concat(seq![x], r);
                assert(seq![x].drop_last() =~= Seq::<TreeStep>::empty());
                assert(Seq::<char>::empty() + offset_text(bytes, offsets, t) =~= offset_text(
                    bytes,
                    offsets,
                    t,
                ));
                assert(s == seq![x] + r);
                assert(steps_text(Seq::<TreeStep>::empty()) == Seq::<char>::empty());
                assert(steps_text(seq![x]) =~= Seq::<char>::empty() + offset_text(bytes, offsets, t));
                assert(steps_text(seq![x]) == offset_text(bytes, offsets, t));
                assert(count_tokens(ev, i, n) == 1 + count_tokens(ev, i + 1, n));
                assert(texts_from(bytes, offsets, t, count_tokens(ev, i, n)) == offset_text(bytes, offsets, t) + texts_from(bytes, offsets, t + 1, count_tokens(ev, i + 1, n)));
            },
            _ => {
                lemma_steps_from_text(ev, n, i + 1, bytes, offsets, t);
            },
        }
    }
}

/// Token events counted from the front are the tokens of the events.
proof fn lemma_count_tokens_of(ev: Seq<EventRaw>, n: int)
    requires
        0 <= n <= ev.len(),
    ensures
        count_tokens(ev, 0, n) == tokens_of(ev.take(n)).len(),
    decreases n,
{
    if n > 0 {
        lemma_count_tokens_of(ev, n - 1);
        lemma_count_split(ev, 0, n - 1);
        assert(ev.take(n).drop_last() =~= ev.take(n - 1));
        assert(ev.take(n).last() == ev[n - 1]);
    } else {
        assert(ev.take(0) =~= Seq::<EventRaw>::empty());
    }
}

proof fn lemma_count_split(ev: Seq<EventRaw>, i: int, m: int)
    requires
        0 <= i <= m,
        m < ev.len(),
    ensures
        count_tokens(ev, i, m + 1) == count_tokens(ev, i, m) + (if ev[m] is Token { 1nat } else {
            0nat
        }),
    decreases m - i,
{
    if i < m {
        lemma_count_split(ev, i + 1, m);
    } else {
        assert(count_tokens(ev, m + 1, m + 1) == 0);
    }
}

/// Cutting valid UTF-8 at three char boundaries: the part between the outer two is valid, and
/// the middle one is a boundary of it.
proof fn lemma_sub_boundary(bytes: Seq<u8>, a: int, b: int, c: int)
    requires
        valid_utf8(bytes),
        0 <= a <= b <= c <= bytes.len(),
        is_char_boundary(bytes, a),
        is_char_boundary(bytes, b),
        is_char_boundary(bytes, c),
    ensures
        valid_utf8(bytes.subrange(a, c)),
        is_char_boundary(bytes.subrange(a, c), b - a),
{
    let pre = bytes.subrange(0, c);
    valid_utf8_split(bytes, c);
    if a < c {
        is_char_boundary_iff_not_is_continuation_byte(bytes, a);
        is_char_boundary_iff_not_is_continuation_byte(pre, a);
        assert(pre[a] == bytes[a]);
    } else {
        is_char_boundary_start_end_of_seq(pre);
    }
    valid_utf8_split(pre, a);
    let sub = bytes.subrange(a, c);
    assert(pre.subrange(a, pre.len() as int) =~= sub);
    if b < c {
        is_char_boundary_iff_not_is_continuation_byte(bytes, b);
        is_char_boundary_iff_not_is_continuation_byte(sub, b - a);
        assert(sub[b - a] == bytes[b]);
    } else {
        is_char_boundary_start_end_of_seq(sub);
    }
}

/// The texts between consecutive offsets, one after the other, are the text between the first
/// offset and the last.
proof fn lemma_texts_telescope(bytes: Seq<u8>, offsets: Seq<u32>, t: int, c: nat)
    requires
        offsets_fit(bytes, offsets),
        0 <= t,
        t + c < offsets.len(),
    ensures
        texts_from(bytes, offsets, t, c) == decode_utf8(
            bytes.subrange(offsets[t] as int, offsets[t + c] as int),
        ),
    decreases c,
{
    if c == 0 {
        let e = bytes.subrange(offsets[t] as int, offsets[t] as int);
        assert(e =~= Seq::<u8>::empty());
        reveal_with_fuel(decode_utf8, 1);
    } else {
        lemma_texts_telescope(bytes, offsets, t + 1, (c - 1) as nat);
        let a = offsets[t] as int;
        let b = offsets[t + 1] as int;
        let z = offsets[t + c] as int;
        assert(is_char_boundary(bytes, a));
        assert(is_char_boundary(bytes, b));
        assert(is_char_boundary(bytes, z));
        assert(a <= b <= z);
        assert(z <= bytes.len()) by {
            if z > bytes.len() {
                assert(!is_char_boundary(bytes, z));
            }
        }
        lemma_sub_boundary(bytes, a, b, z);
        let sub = bytes.subrange(a, z);
        decode_utf8_split(sub, b - a);
        assert(sub.subrange(0, b - a) =~= bytes.subrange(a, b));
        assert(sub.subrange(b - a, sub.len() as int) =~= bytes.subrange(b, z));
    }
}

/// The token texts of a tree built from events whose tokens are those of the offsets, cut
/// between the first offset and the last, are the text between those offsets.
pub proof fn lemma_tree_text(ev: Seq<EventRaw>, bytes: Seq<u8>, offsets: Seq<u32>)
    requires
        tree_steps(ev, bytes, offsets) is Some,
        offsets_fit(bytes, offsets),
        tokens_of(ev).len() + 1 == offsets.len(),
    ensures
        steps_text(tree_steps(ev, bytes, offsets)->0) == decode_utf8(
            bytes.subrange(offsets[0] as int, offsets[offsets.len() - 1] as int),
        ),
{
    lemma_steps_from_text(ev, ev.len() as int, 0, bytes, offsets, 0);
    lemma_count_tokens_of(ev, ev.len() as int);
    assert(ev.take(ev.len() as int) =~= ev);
    lemma_texts_telescope(bytes, offsets, 0, tokens_of(ev).len());
}

/// Every char position of `s` is a char boundary of its UTF-8 encoding.
pub proof fn lemma_byte_offset_boundary(s: Seq<char>, k: int)
    requires
        0 <= k <= s.len(),
    ensures
        is_char_boundary(encode_utf8(s), byte_offset(s, k) as int),
    decreases k,
{
    encode_utf8_valid_utf8(s);
    if k == 0 {
        assert(s.take(0) =~= Seq::<char>::empty());
        assert(byte_offset(s, 0) == 0);
    } else {
        let bytes = encode_utf8(s);
        let rest = s.drop_first();
        let w = char_width(s[0]);
        crate::text::lemma_encode_scalar_len(s[0]);
        encode_utf8_first_scalar(s);
        assert(length_of_first_scalar(bytes) == w);
        assert(bytes == encode_scalar(s[0] as u32) + encode_utf8(rest));
        assert(pop_first_scalar(bytes) =~= encode_utf8(rest));
        crate::text::lemma_byte_len_concat(seq![s[0]], rest.take(k - 1));
        assert(seq![s[0]] + rest.take(k - 1) =~= s.take(k));
        assert(seq![s[0]].drop_last() =~= Seq::<char>::empty());
        assert(byte_len(Seq::<char>::empty()) == 0);
        assert(byte_len(seq![s[0]]) == byte_len(seq![s[0]].drop_last()) + char_width(seq![s[0]].last()));
        assert(byte_len(seq![s[0]]) == w);
        assert(byte_offset(s, k) == w + byte_offset(rest, k - 1));
        lemma_byte_offset_boundary(rest, k - 1);
        encode_utf8_valid_utf8(rest);
        lemma_byte_len_encode(s);
        lemma_byte_offset_mono(s, k, s.len() as int);
        assert(s.take(s.len() as int) =~= s);
        assert(byte_offset(s, k) <= bytes.len());
        assert(is_char_boundary(bytes, byte_offset(s, k) as int) == is_char_boundary(
            pop_first_scalar(bytes),
            byte_offset(s, k) - length_of_first_scalar(bytes),
        ));
    }
}

/// Where the tokens from char position `i` begin: at char positions of `s`.
proof fn lemma_lex_from_starts(s: Seq<char>, i: int, t: int)
    requires
        0 <= i <= s.len(),
        byte_len(s) <= u32::MAX,
        0 <= t <= lex_from(s, i).len(),
    ensures
        exists|k: int|
            i <= k <= s.len() && #[trigger] byte_offset(s, k) == byte_offset(s, i) + total_len(
                lex_from(s, i).take(t),
            ),
    decreases s.len() - i,
{
    if t == 0 {
        assert(lex_from(s, i).take(0) =~= Seq::<Token>::empty());
        assert(byte_offset(s, i) == byte_offset(s, i) + total_len(lex_from(s, i).take(0)));
    } else {
        lemma_next_token_bounds(s, i);
        let (kind, e) = next_token(s, i);
        let tok = Token { kind, len: byte_len(s.subrange(i, e)) as u32 };
        let rest = lex_from(s, e);
        assert(lex_from(s, i) == seq![tok] + rest);
        lemma_lex_from_starts(s, e, t - 1);
        lemma_byte_len_subrange(s, i, e);
        lemma_byte_offset_mono(s, e, s.len() as int);
        crate::text::lemma_byte_offset_full(s);
        assert(lex_from(s, i).take(t) =~= seq![tok] + rest.take(t - 1));
        assert((seq![tok] + rest.take(t - 1)).drop_first() =~= rest.take(t - 1));
        let k = choose|k: int|
            e <= k <= s.len() && #[trigger] byte_offset(s, k) == byte_offset(s, e) + total_len(
                rest.take(t - 1),
            );
        assert(byte_offset(s, k) == byte_offset(s, i) + total_len(lex_from(s, i).take(t)));
    }
}

/// The tokens of a source that fits in `u32` can be read against it by the parser.
pub proof fn lemma_lexed_tokens_fit(s: Seq<char>)
    requires
        byte_len(s) <= u32::MAX,
    ensures
        tokens_fit(encode_utf8(s), lex(s)),
        total_len(lex(s)) == encode_utf8(s).len(),
{
    lemma_byte_len_encode(s);
    lemma_tokens_cover_source(s);
    assert forall|t: int| 0 <= t < lex(s).len() implies is_char_boundary(
        encode_utf8(s),
        #[trigger] token_start(lex(s), t) as int,
    ) by {
        lemma_lex_from_starts(s, 0, t);
        assert(s.take(0) =~= Seq::<char>::empty());
        let k = choose|k: int|
            0 <= k <= s.len() && #[trigger] byte_offset(s, k) == byte_offset(s, 0) + total_len(
                lex_from(s, 0).take(t),
            );
        lemma_byte_offset_boundary(s, k);
    }
}

} // verus!
