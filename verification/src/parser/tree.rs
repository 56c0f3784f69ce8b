use super::green::{
    builder_finish, builder_finish_node, builder_new, builder_start_node, builder_steps,
    builder_token, green_steps, open_count, single_tree, steps_text_len, TreeStep,
};
use super::state::{token_events, EventRaw, Message, Output};
use super::syntax_error::SyntaxError;
use crate::syntax_kind::SyntaxKind;
use crate::text::{byte_len, lemma_byte_len_encode, str_between};
use vstd::prelude::*;
use vstd::string::StringSliceAdditionalSpecFns;
use vstd::utf8::*;

verus! {

/// The text between the offsets `t` and `t + 1`.
pub open spec fn offset_text(bytes: Seq<u8>, offsets: Seq<u32>, t: int) -> Seq<char> {
    decode_utf8(bytes.subrange(offsets[t] as int, offsets[t + 1] as int))
}

/// Offsets that can cut `bytes`: in order, each on a char boundary.
pub open spec fn offsets_fit(bytes: Seq<u8>, offsets: Seq<u32>) -> bool {
    &&& valid_utf8(bytes)
    &&& forall|t: int| 0 <= t < offsets.len() ==> is_char_boundary(bytes, #[trigger] offsets[t] as int)
    &&& forall|t: int, u: int| 0 <= t <= u < offsets.len() ==> offsets[t] <= offsets[u]
}

/// The forward parents from the node start at `idx`, whose forward parent is `fp`: the kinds
/// of the nodes met, nearest first, and the events with each of those starts taken out.
pub open spec fn follow(ev: Seq<EventRaw>, idx: int, fp: Option<usize>) -> Option<
    (Seq<SyntaxKind>, Seq<EventRaw>),
>
    decreases ev.len() - idx,
{
    match fp {
        None => Some((Seq::empty(), ev)),
        Some(f) => {
            let j = idx + f;
            if 0 <= idx < j && j < ev.len() {
                let ev2 = ev.update(j, EventRaw::Tombstone);
                proof {
                    assert(ev2.len() == ev.len());
                }
                match ev[j] {
                    EventRaw::StartNode { kind, forward_parent } => match follow(
                        ev2,
                        j,
                        forward_parent,
                    ) {
                        Some((ks, rest)) => Some((seq![kind] + ks, rest)),
                        None => None,
                    },
                    _ => None,
                }
            } else {
                None
            }
        },
    }
}

/// Opening the nodes of `kinds`, the last first.
pub open spec fn starts_of(kinds: Seq<SyntaxKind>) -> Seq<TreeStep> {
    Seq::new(kinds.len(), |j: int| TreeStep::Start(kinds[kinds.len() - 1 - j]))
}

pub open spec fn prepend(s: Seq<TreeStep>, rest: Option<Seq<TreeStep>>) -> Option<Seq<TreeStep>> {
    match rest {
        Some(r) => Some(s + r),
        None => None,
    }
}

/// The calls that build the tree of the events from `i` on (of the `n` events), the token
/// at `i` being token number `t`: a node start opens the nodes that its forward parents name,
/// outermost first, and takes their starts out; a token takes its text from the offsets.
/// `None` where a forward parent names no node start, a token has no text, or an error is met.
pub open spec fn steps_from(
    ev: Seq<EventRaw>,
    n: int,
    i: int,
    bytes: Seq<u8>,
    offsets: Seq<u32>,
    t: int,
) -> Option<Seq<TreeStep>>
    decreases n - i,
{
    if i < 0 || i >= n || i >= ev.len() {
        Some(Seq::empty())
    } else {
        match ev[i] {
            EventRaw::StartNode { kind, forward_parent } => match follow(ev, i, forward_parent) {
                Some((ks, rest)) => prepend(
                    starts_of(seq![kind] + ks),
                    steps_from(rest, n, i + 1, bytes, offsets, t),
                ),
                None => None,
            },
            EventRaw::FinishNode => prepend(
                seq![TreeStep::Finish],
                steps_from(ev, n, i + 1, bytes, offsets, t),
            ),
            EventRaw::Token { kind } => if 0 <= t && t + 1 < offsets.len() {
                prepend(
                    seq![TreeStep::Token(kind, offset_text(bytes, offsets, t))],
                    steps_from(ev, n, i + 1, bytes, offsets, t + 1),
                )
            } else {
                None
            },
            _ => steps_from(ev, n, i + 1, bytes, offsets, t),
        }
    }
}

/// The syntax errors of the events from `i` on (of the `n` events), token number `t` being
/// the next one and `start` the offset where the error begun last started: an empty error
/// sits where the next token starts; an error that was begun covers from where it was begun
/// to where the next token starts. Each comes with its message.
pub open spec fn errors_from(
    ev: Seq<EventRaw>,
    msgs: Seq<Message>,
    n: int,
    i: int,
    offsets: Seq<u32>,
    t: int,
    start: u32,
) -> Seq<(Message, u32, u32)>
    decreases n - i,
{
    if i < 0 || i >= n || i >= ev.len() {
        Seq::empty()
    } else {
        match ev[i] {
            EventRaw::Token { .. } => errors_from(ev, msgs, n, i + 1, offsets, t + 1, start),
            EventRaw::EmptyError { message_index } => seq![
                (msgs[message_index as int], offsets[t], offsets[t]),
            ] + errors_from(ev, msgs, n, i + 1, offsets, t, start),
            EventRaw::StartError => errors_from(ev, msgs, n, i + 1, offsets, t, offsets[t]),
            EventRaw::FinishError { message_index } => seq![
                (msgs[message_index as int], start, offsets[t]),
            ] + errors_from(ev, msgs, n, i + 1, offsets, t, start),
            _ => errors_from(ev, msgs, n, i + 1, offsets, t, start),
        }
    }
}

/// The syntax errors of all of `ev`.
pub open spec fn tree_errors(ev: Seq<EventRaw>, msgs: Seq<Message>, offsets: Seq<u32>) -> Seq<
    (Message, u32, u32),
> {
    errors_from(ev, msgs, ev.len() as int, 0, offsets, 0, 0)
}

/// Every error event names a message.
pub open spec fn messages_ok(ev: Seq<EventRaw>, m: nat) -> bool {
    forall|k: int|
        0 <= k < ev.len() ==> match #[trigger] ev[k] {
            EventRaw::EmptyError { message_index } => message_index < m,
            EventRaw::FinishError { message_index } => message_index < m,
            _ => true,
        }
}

/// Taking a node start out of the events changes none of their errors.
proof fn lemma_errors_update(
    ev: Seq<EventRaw>,
    msgs: Seq<Message>,
    n: int,
    i: int,
    offsets: Seq<u32>,
    t: int,
    start: u32,
    j: int,
)
    requires
        0 <= j < ev.len(),
        ev[j] is StartNode || ev[j] is Tombstone,
    ensures
        errors_from(ev.update(j, EventRaw::Tombstone), msgs, n, i, offsets, t, start)
            == errors_from(ev, msgs, n, i, offsets, t, start),
    decreases n - i,
{
    if !(i < 0 || i >= n || i >= ev.len()) {
        let ev2 = ev.update(j, EventRaw::Tombstone);
        match ev[i] {
            EventRaw::Token { .. } => {
                lemma_errors_update(ev, msgs, n, i + 1, offsets, t + 1, start, j);
            },
            EventRaw::StartError => {
                lemma_errors_update(ev, msgs, n, i + 1, offsets, t, offsets[t], j);
            },
            _ => {
                lemma_errors_update(ev, msgs, n, i + 1, offsets, t, start, j);
            },
        }
        assert(ev2[i] == (if i == j { EventRaw::Tombstone } else { ev[i] }));
    }
}

/// The calls that build the tree of all of `ev`.
pub open spec fn tree_steps(ev: Seq<EventRaw>, bytes: Seq<u8>, offsets: Seq<u32>) -> Option<
    Seq<TreeStep>,
> {
    steps_from(ev, ev.len() as int, 0, bytes, offsets, 0)
}

/// A builder can build the tree of `steps`: one node, and no more nodes open at a time than a
/// `u64` counts.
pub open spec fn buildable(steps: Seq<TreeStep>) -> bool {
    &&& single_tree(steps)
    &&& forall|j: int| 0 <= j <= steps.len() ==> open_count(#[trigger] steps.take(j)) < u64::MAX
}

proof fn lemma_open_count_push(s: Seq<TreeStep>, x: TreeStep)
    ensures
        open_count(s.push(x)) == open_count(s) + match x {
            TreeStep::Start(_) => 1int,
            TreeStep::Finish => -1int,
            TreeStep::Token(..) => 0int,
        },
        steps_text_len(s.push(x)) == steps_text_len(s) + match x {
            TreeStep::Token(_, text) => byte_len(text),
            _ => 0,
        },
        s.push(x).take(s.len() as int) == s,
        s.push(x).take(s.len() as int + 1) == s.push(x),
        s.push(x)[0] == (if s.len() == 0 { x } else { s[0] }),
{
    assert(s.push(x).drop_last() =~= s);
    assert(s.push(x).take(s.len() as int) =~= s);
    assert(s.push(x).take(s.len() as int + 1) =~= s.push(x));
}

/// Every prefix of `s` keeps a builder on its way to one node: the first step opens it, it
/// stays open until the last step, and no more nodes are open at a time than a `u64` counts.
pub open spec fn prefix_ok(s: Seq<TreeStep>) -> bool {
    &&& (s.len() > 0 ==> s[0] is Start)
    &&& forall|j: int| 0 < j < s.len() ==> open_count(#[trigger] s.take(j)) >= 1
    &&& forall|j: int| 0 <= j <= s.len() ==> 0 <= open_count(#[trigger] s.take(j)) < u64::MAX
}

/// Steps that go on from a prefix that is not `prefix_ok` cannot be built.
proof fn lemma_not_buildable(p: Seq<TreeStep>, full: Seq<TreeStep>)
    requires
        p.len() <= full.len(),
        full.take(p.len() as int) == p,
        !prefix_ok(p),
    ensures
        !buildable(full),
{
    if buildable(full) {
        if p.len() > 0 && !(p[0] is Start) {
            assert(full[0] == p[0]);
        }
        assert forall|j: int| 0 < j < p.len() implies open_count(#[trigger] p.take(j)) >= 1 by {
            assert(p.take(j) =~= full.take(j));
        }
        assert forall|j: int| 0 <= j <= p.len() implies 0 <= open_count(#[trigger] p.take(j))
            < u64::MAX by {
            assert(p.take(j) =~= full.take(j));
            if j < full.len() && j > 0 {
                assert(open_count(full.take(j)) >= 1);
            } else if j == full.len() {
                assert(full.take(j) =~= full);
            } else {
                assert(full.take(0) =~= Seq::<TreeStep>::empty());
            }
        }
    }
}

/// Steps that are `prefix_ok`, open and close one node, and are at least two, can be built.
proof fn lemma_buildable(s: Seq<TreeStep>)
    requires
        prefix_ok(s),
        s.len() >= 2,
        open_count(s) == 0,
    ensures
        buildable(s),
{
}

/// A tree builder and what is kept of the calls made on it.
struct Walk {
    builder: rowan::GreenNodeBuilder<'static>,
    open: u64,
    made: usize,
}

impl Walk {
    spec fn steps(&self) -> Seq<TreeStep> {
        builder_steps(self.builder)
    }

    spec fn wf(&self) -> bool {
        &&& prefix_ok(self.steps())
        &&& self.open == open_count(self.steps())
        &&& self.made == (if self.steps().len() < 2 { self.steps().len() } else { 2 })
    }

    fn new() -> (w: Walk)
        ensures
            w.wf(),
            w.steps() == Seq::<TreeStep>::empty(),
    {
        let w = Walk { builder: builder_new(), open: 0, made: 0 };
        assert(w.steps().take(0) =~= Seq::<TreeStep>::empty());
        w
    }

    /// Whether `x` may be pushed onto steps that are `prefix_ok` with `open` nodes open.
    proof fn lemma_push(s: Seq<TreeStep>, x: TreeStep)
        requires
            prefix_ok(s),
        ensures
            prefix_ok(s.push(x)) <==> ((s.len() == 0 ==> x is Start) && (s.len() > 0
                ==> open_count(s) >= 1) && 0 <= open_count(s.push(x)) < u64::MAX),
            0 <= open_count(s) < u64::MAX,
    {
        lemma_open_count_push(s, x);
        assert(s.take(s.len() as int) =~= s);
        let s2 = s.push(x);
        if (s.len() == 0 ==> x is Start) && (s.len() > 0 ==> open_count(s) >= 1) && 0
            <= open_count(s2) < u64::MAX {
            assert forall|j: int| 0 < j < s2.len() implies open_count(#[trigger] s2.take(j))
                >= 1 by {
                if j < s.len() {
                    assert(s2.take(j) =~= s.take(j));
                }
            }
            assert forall|j: int| 0 <= j <= s2.len() implies 0 <= open_count(
                #[trigger] s2.take(j),
            ) < u64::MAX by {
                if j <= s.len() {
                    assert(s2.take(j) =~= s.take(j));
                }
            }
        }
        if prefix_ok(s2) && s.len() > 0 {
            assert(s2.take(s.len() as int) == s);
            assert(open_count(s2.take(s.len() as int)) >= 1);
        }
        if prefix_ok(s2) {
            assert(open_count(s2.take(s2.len() as int)) < u64::MAX);
            assert(open_count(s2.take(s2.len() as int)) >= 0);
        }
    }

    fn push_start(&mut self, kind: SyntaxKind) -> (ok: bool)
        requires
            old(self).wf(),
        ensures
            final(self).wf(),
            ok ==> final(self).steps() == old(self).steps().push(TreeStep::Start(kind)),
            !ok ==> !prefix_ok(old(self).steps().push(TreeStep::Start(kind))),
    {
        proof {
            Self::lemma_push(self.steps(), TreeStep::Start(kind));
            lemma_open_count_push(self.steps(), TreeStep::Start(kind));
        }
        if (self.made > 0 && self.open == 0) || self.open >= u64::MAX - 1 {
            return false;
        }
        builder_start_node(&mut self.builder, kind);
        self.open = self.open + 1;
        if self.made < 2 {
            self.made = self.made + 1;
        }
        true
    }

    fn push_finish(&mut self) -> (ok: bool)
        requires
            old(self).wf(),
        ensures
            final(self).wf(),
            ok ==> final(self).steps() == old(self).steps().push(TreeStep::Finish),
            !ok ==> !prefix_ok(old(self).steps().push(TreeStep::Finish)),
    {
        proof {
            Self::lemma_push(self.steps(), TreeStep::Finish);
            lemma_open_count_push(self.steps(), TreeStep::Finish);
        }
        if self.made == 0 || self.open == 0 {
            return false;
        }
        builder_finish_node(&mut self.builder);
        self.open = self.open - 1;
        if self.made < 2 {
            self.made = self.made + 1;
        }
        true
    }

    fn push_token(&mut self, kind: SyntaxKind, text: &str) -> (ok: bool)
        requires
            old(self).wf(),
            steps_text_len(old(self).steps()) + byte_len(text@) <= u32::MAX,
        ensures
            final(self).wf(),
            ok ==> final(self).steps() == old(self).steps().push(TreeStep::Token(kind, text@)),
            !ok ==> !prefix_ok(old(self).steps().push(TreeStep::Token(kind, text@))),
    {
        proof {
            Self::lemma_push(self.steps(), TreeStep::Token(kind, text@));
            lemma_open_count_push(self.steps(), TreeStep::Token(kind, text@));
        }
        if self.open == 0 {
            return false;
        }
        builder_token(&mut self.builder, kind, text);
        if self.made < 2 {
            self.made = self.made + 1;
        }
        true
    }
}

/// A step that is not `prefix_ok` after `s` leaves nothing to build.
proof fn lemma_fail_push(
    s: Seq<TreeStep>,
    x: TreeStep,
    rest: Option<Seq<TreeStep>>,
    whole: Option<Seq<TreeStep>>,
)
    requires
        whole == prepend(s, prepend(seq![x], rest)),
        !prefix_ok(s.push(x)),
    ensures
        whole is None || !buildable(whole->0),
{
    if let Some(r) = rest {
        let full = s + (seq![x] + r);
        assert(full.take(s.len() as int + 1) =~= s.push(x));
        lemma_not_buildable(s.push(x), full);
    }
}

/// Builds the tree of the events of `output`, the text of each token cut from `source` between
/// its offset and the next. `None` where the events have no tree (`tree_steps`) or a builder
/// cannot build it (`buildable`).
pub fn build_tree(source: &str, output: Output, offsets: Vec<u32>) -> (r: Option<
    (rowan::GreenNode, Vec<SyntaxError>),
>)
    requires
        output.wf(),
        offsets_fit(source.spec_bytes(), offsets@),
        offsets@.len() >= 1,
    ensures
        r is Some <==> (tree_steps(output.events(), source.spec_bytes(), offsets@) is Some
            && buildable(tree_steps(output.events(), source.spec_bytes(), offsets@)->0)),
        r is Some ==> green_steps((r->0).0) == tree_steps(
            output.events(),
            source.spec_bytes(),
            offsets@,
        )->0,
        r is Some ==> (r->0).1@.map_values(|e: SyntaxError| e@) == tree_errors(
            output.events(),
            output.messages(),
            offsets@,
        ),
{
    let ghost bytes = source.spec_bytes();
    let ghost ev0 = output.events();
    let ghost msgs = output.messages();
    let (mut events, messages) = output.into_parts();
    let n = events.len();
    let mut w = Walk::new();
    let mut t: usize = 0;
    let mut i: usize = 0;
    let mut errors: Vec<SyntaxError> = Vec::new();
    let mut start: u32 = 0;
    proof {
        assert(w.steps() + Seq::<TreeStep>::empty() =~= w.steps());
        assert(errors@.map_values(|e: SyntaxError| e@) + errors_from(events@, msgs, n as int, 0, offsets@, 0, 0)
            =~= tree_errors(ev0, msgs, offsets@));
    }
    while i < n
        invariant
            n == events@.len(),
            n == ev0.len(),
            ev0 == output.events(),
            msgs == output.messages(),
            messages@ == msgs,
            messages_ok(events@, msgs.len()),
            offsets@.len() >= 1,
            t < offsets@.len(),
            tree_errors(ev0, msgs, offsets@) == errors@.map_values(|e: SyntaxError| e@)
                + errors_from(events@, msgs, n as int, i as int, offsets@, t as int, start),
            i <= n,
            offsets_fit(bytes, offsets@),
            bytes == source.spec_bytes(),
            w.wf(),
            tree_steps(ev0, bytes, offsets@) == prepend(
                w.steps(),
                steps_from(events@, n as int, i as int, bytes, offsets@, t as int),
            ),
            t < offsets@.len() ==> steps_text_len(w.steps()) + offsets@[0] == offsets@[t as int],
            t == 0 ==> steps_text_len(w.steps()) == 0,
            t > 0 ==> t < offsets@.len(),
        decreases n - i,
    {
        let ghost whole = tree_steps(ev0, bytes, offsets@);
        let ghost ev_i = events@;
        let e = events[i];
        match e {
            EventRaw::StartNode { kind, forward_parent } => {
                let mut kinds: Vec<SyntaxKind> = vec![kind];
                let mut idx = i;
                let mut fp = forward_parent;
                proof {
                    assert(kinds@.drop_first() + Seq::<SyntaxKind>::empty() =~= kinds@.drop_first());
                    if let Some((ks, rest)) = follow(events@, idx as int, fp) {
                        assert(kinds@.drop_first() + ks =~= ks);
                    }
                }
                loop
                    invariant
                        n == events@.len(),
                        i <= idx < n,
                        ev_i.len() == n,
                        ev0 == output.events(),
                        bytes == source.spec_bytes(),
                        whole == tree_steps(ev0, bytes, offsets@),
                        ev_i[i as int] == (EventRaw::StartNode { kind, forward_parent }),
                        whole == prepend(
                            w.steps(),
                            steps_from(ev_i, n as int, i as int, bytes, offsets@, t as int),
                        ),
                        kinds@.len() >= 1,
                        kinds@[0] == kind,
                        messages_ok(events@, msgs.len()),
                        errors_from(events@, msgs, n as int, i + 1, offsets@, t as int, start)
                            == errors_from(ev_i, msgs, n as int, i + 1, offsets@, t as int, start),
                        follow(ev_i, i as int, forward_parent) == match follow(
                            events@,
                            idx as int,
                            fp,
                        ) {
                            Some((ks, rest)) => Some((kinds@.drop_first() + ks, rest)),
                            None => None,
                        },
                    ensures
                        n == events@.len(),
                        messages_ok(events@, msgs.len()),
                        errors_from(events@, msgs, n as int, i + 1, offsets@, t as int, start)
                            == errors_from(ev_i, msgs, n as int, i + 1, offsets@, t as int, start),
                        follow(ev_i, i as int, forward_parent) == Some(
                            (kinds@.drop_first(), events@),
                        ),
                        kinds@.len() >= 1,
                        kinds@[0] == kind,
                    decreases n - idx,
                {
                    match fp {
                        None => {
                            assert(kinds@.drop_first() + Seq::<SyntaxKind>::empty()
                                =~= kinds@.drop_first());
                            break;
                        },
                        Some(f) => {
                            if f == 0 || f >= n - idx {
                                proof {
                                    assert(follow(events@, idx as int, fp) is None);
                                    assert(steps_from(ev_i, n as int, i as int, bytes, offsets@, t as int) is None);
                                }
                                return None;
                            }
                            let j = idx + f;
                            match events[j] {
                                EventRaw::StartNode { kind: k2, forward_parent: fp2 } => {
                                    let ghost old_events = events@;
                                    events.set(j, EventRaw::Tombstone);
                                    proof {
                                        lemma_errors_update(old_events, msgs, n as int, i + 1, offsets@, t as int, start, j as int);
                                        assert forall|k: int| 0 <= k < events@.len() implies match #[trigger] events@[k] {
                                            EventRaw::EmptyError { message_index } => message_index < msgs.len(),
                                            EventRaw::FinishError { message_index } => message_index < msgs.len(),
                                            _ => true,
                                        } by {
                                            if k != j {
                                                assert(events@[k] == old_events[k]);
                                            }
                                        }
                                        assert(events@ == old_events.update(j as int, EventRaw::Tombstone));
                                        let inner = follow(events@, j as int, fp2);
                                        if let Some((ks, rest)) = inner {
                                            assert(kinds@.push(k2).drop_first() + ks
                                                =~= kinds@.drop_first() + (seq![k2] + ks));
                                        }
                                    }
                                    kinds.push(k2);
                                    idx = j;
                                    fp = fp2;
                                },
                                _ => {
                                    proof {
                                        assert(follow(events@, idx as int, fp) is None);
                                        assert(steps_from(ev_i, n as int, i as int, bytes, offsets@, t as int) is None);
                                    }
                                    return None;
                                },
                            }
                        },
                    }
                }
                let ghost rest_after = steps_from(events@, n as int, i + 1, bytes, offsets@, t as int);
                let ghost starts = starts_of(kinds@);
                proof {
                    assert(seq![kind] + kinds@.drop_first() =~= kinds@);
                    assert(starts.skip(0) =~= starts);
                }
                let mut c = kinds.len();
                while c > 0
                    invariant
                        c <= kinds@.len(),
                        starts == starts_of(kinds@),
                        ev0 == output.events(),
                        bytes == source.spec_bytes(),
                        whole == tree_steps(ev0, bytes, offsets@),
                        w.wf(),
                        whole == prepend(w.steps(), prepend(starts.skip(kinds@.len() - c), rest_after)),
                        t < offsets@.len() ==> steps_text_len(w.steps()) + offsets@[0]
                            == offsets@[t as int],
                        t == 0 ==> steps_text_len(w.steps()) == 0,
                    decreases c,
                {
                    let ghost s0 = w.steps();
                    let k = kinds[c - 1];
                    let ghost done = kinds@.len() - c;
                    proof {
                        assert(starts[done] == TreeStep::Start(k));
                        assert(starts.skip(done) =~= seq![TreeStep::Start(k)] + starts.skip(done + 1));
                        lemma_open_count_push(s0, TreeStep::Start(k));
                        if let Some(r) = rest_after {
                            assert((seq![TreeStep::Start(k)] + starts.skip(done + 1)) + r
                                =~= seq![TreeStep::Start(k)] + (starts.skip(done + 1) + r));
                            assert(s0 + ((seq![TreeStep::Start(k)] + starts.skip(done + 1)) + r)
                                =~= s0.push(TreeStep::Start(k)) + (starts.skip(done + 1) + r));
                        }
                    }
                    if !w.push_start(k) {
                        proof {
                            lemma_fail_push(s0, TreeStep::Start(k), prepend(starts.skip(done + 1), rest_after), whole);
                        }
                        return None;
                    }
                    c = c - 1;
                }
                proof {
                    assert(starts.skip(kinds@.len() as int) =~= Seq::<TreeStep>::empty());
                    if let Some(r) = rest_after {
                        assert(Seq::<TreeStep>::empty() + r =~= r);
                    }
                }
            },
            EventRaw::FinishNode => {
                let ghost s0 = w.steps();
                let ghost rest_after = steps_from(events@, n as int, i + 1, bytes, offsets@, t as int);
                proof {
                    lemma_open_count_push(s0, TreeStep::Finish);
                    if let Some(r) = rest_after {
                        assert(s0 + (seq![TreeStep::Finish] + r) =~= s0.push(TreeStep::Finish) + r);
                    }
                }
                if !w.push_finish() {
                    proof {
                        lemma_fail_push(s0, TreeStep::Finish, rest_after, whole);
                    }
                    return None;
                }
            },
            EventRaw::Token { kind } => {
                if t >= offsets.len() || offsets.len() - t < 2 {
                    return None;
                }
                let a = offsets[t];
                let b = offsets[t + 1];
                let text = str_between(source, a as usize, b as usize);
                let ghost s0 = w.steps();
                let ghost rest_after = steps_from(events@, n as int, i + 1, bytes, offsets@, t + 1);
                let ghost x = TreeStep::Token(kind, text@);
                proof {
                    vstd::utf8::encode_utf8_decode_utf8(text@);
                    assert(text@ == offset_text(bytes, offsets@, t as int));
                    lemma_byte_len_encode(text@);
                    lemma_open_count_push(s0, x);
                    if let Some(r) = rest_after {
                        assert(s0 + (seq![x] + r) =~= s0.push(x) + r);
                    }
                }
                if !w.push_token(kind, text) {
                    proof {
                        lemma_fail_push(s0, x, rest_after, whole);
                    }
                    return None;
                }
                t = t + 1;
            },
            EventRaw::Tombstone => {},
            EventRaw::EmptyError { message_index } => {
                let m = messages[message_index];
                let o = offsets[t];
                let ghost before = errors@;
                errors.push(SyntaxError::new(m, o, o));
                proof {
                    assert(errors@.map_values(|e: SyntaxError| e@) =~= before.map_values(
                        |e: SyntaxError| e@,
                    ).push((m, o, o)));
                }
            },
            EventRaw::StartError => {
                start = offsets[t];
            },
            EventRaw::FinishError { message_index } => {
                let m = messages[message_index];
                let o = offsets[t];
                let ghost before = errors@;
                errors.push(SyntaxError::new(m, start, o));
                proof {
                    assert(errors@.map_values(|e: SyntaxError| e@) =~= before.map_values(
                        |e: SyntaxError| e@,
                    ).push((m, start, o)));
                }
            },
        }
        i = i + 1;
    }
    proof {
        assert(w.steps() + Seq::<TreeStep>::empty() =~= w.steps());
        if w.made == 2 && w.open == 0 {
            lemma_buildable(w.steps());
        }
    }
    proof {
        assert(errors@.map_values(|e: SyntaxError| e@) + Seq::<(Message, u32, u32)>::empty()
            =~= errors@.map_values(|e: SyntaxError| e@));
    }
    if w.made == 2 && w.open == 0 {
        Some((builder_finish(w.builder), errors))
    } else {
        None
    }
}

} // verus!

verus! {

/// The steps of a tree of one node of kind `kind` that holds the tokens `kinds`, with their
/// texts cut by `offsets`.
pub open spec fn flat_steps(
    kind: SyntaxKind,
    kinds: Seq<SyntaxKind>,
    bytes: Seq<u8>,
    offsets: Seq<u32>,
) -> Seq<TreeStep> {
    seq![TreeStep::Start(kind)] + Seq::new(
        kinds.len(),
        |j: int| TreeStep::Token(kinds[j], offset_text(bytes, offsets, j)),
    ) + seq![TreeStep::Finish]
}

proof fn lemma_flat_steps_from(
    ev: Seq<EventRaw>,
    kind: SyntaxKind,
    kinds: Seq<SyntaxKind>,
    bytes: Seq<u8>,
    offsets: Seq<u32>,
    i: int,
)
    requires
        ev == seq![EventRaw::StartNode { kind, forward_parent: None }] + token_events(kinds).push(
            EventRaw::FinishNode,
        ),
        offsets.len() == kinds.len() + 1,
        1 <= i <= kinds.len() + 1,
    ensures
        steps_from(ev, ev.len() as int, i, bytes, offsets, i - 1) == Some(
            flat_steps(kind, kinds, bytes, offsets).skip(i),
        ),
    decreases kinds.len() + 1 - i,
{
    let m = kinds.len() as int;
    let fs = flat_steps(kind, kinds, bytes, offsets);
    if i == m + 1 {
        assert(ev[i] == EventRaw::FinishNode);
        assert(steps_from(ev, ev.len() as int, i + 1, bytes, offsets, i - 1) == Some(
            Seq::<TreeStep>::empty(),
        ));
        assert(fs.skip(i) =~= seq![TreeStep::Finish] + Seq::<TreeStep>::empty());
    } else {
        lemma_flat_steps_from(ev, kind, kinds, bytes, offsets, i + 1);
        assert(ev[i] == EventRaw::Token { kind: kinds[i - 1] });
        assert(fs.skip(i) =~= seq![
            TreeStep::Token(kinds[i - 1], offset_text(bytes, offsets, i - 1)),
        ] + fs.skip(i + 1));
    }
}

proof fn lemma_flat_open_count(s: Seq<TreeStep>, j: int)
    requires
        s.len() >= 2,
        s[0] is Start,
        s[s.len() - 1] is Finish,
        forall|k: int| 0 < k < s.len() - 1 ==> #[trigger] s[k] is Token,
        0 <= j <= s.len(),
    ensures
        open_count(s.take(j)) == (if j == 0 || j == s.len() {
            0int
        } else {
            1int
        }),
    decreases j,
{
    if j > 0 {
        lemma_flat_open_count(s, j - 1);
        assert(s.take(j).drop_last() =~= s.take(j - 1));
        assert(s.take(j).last() == s[j - 1]);
    } else {
        assert(s.take(0) =~= Seq::<TreeStep>::empty());
    }
}

proof fn lemma_flat_errors_from(
    ev: Seq<EventRaw>,
    msgs: Seq<Message>,
    offsets: Seq<u32>,
    i: int,
    t: int,
    start: u32,
)
    requires
        forall|k: int| 0 <= k < ev.len() ==> !(#[trigger] ev[k] is EmptyError) && !(ev[k] is StartError)
            && !(ev[k] is FinishError),
    ensures
        errors_from(ev, msgs, ev.len() as int, i, offsets, t, start) == Seq::<(Message, u32, u32)>::empty(),
    decreases ev.len() - i,
{
    if 0 <= i < ev.len() {
        match ev[i] {
            EventRaw::Token { .. } => lemma_flat_errors_from(ev, msgs, offsets, i + 1, t + 1, start),
            _ => lemma_flat_errors_from(ev, msgs, offsets, i + 1, t, start),
        }
    }
}

/// Events with no error event report no syntax error.
pub proof fn lemma_no_error_events(ev: Seq<EventRaw>, msgs: Seq<Message>, offsets: Seq<u32>)
    requires
        forall|k: int| 0 <= k < ev.len() ==> !(#[trigger] ev[k] is EmptyError) && !(ev[k] is StartError)
            && !(ev[k] is FinishError),
    ensures
        tree_errors(ev, msgs, offsets) == Seq::<(Message, u32, u32)>::empty(),
{
    lemma_flat_errors_from(ev, msgs, offsets, 0, 0, 0);
}

/// The events of one node of kind `kind` that holds only the tokens `kinds` build that node:
/// it opens, holds each token with its text, and closes.
pub proof fn lemma_flat_tree(
    kind: SyntaxKind,
    kinds: Seq<SyntaxKind>,
    bytes: Seq<u8>,
    offsets: Seq<u32>,
)
    requires
        offsets.len() == kinds.len() + 1,
    ensures
        tree_steps(
            seq![EventRaw::StartNode { kind, forward_parent: None }] + token_events(kinds).push(
                EventRaw::FinishNode,
            ),
            bytes,
            offsets,
        ) == Some(flat_steps(kind, kinds, bytes, offsets)),
        buildable(flat_steps(kind, kinds, bytes, offsets)),
{
    let ev = seq![EventRaw::StartNode { kind, forward_parent: None }] + token_events(kinds).push(
        EventRaw::FinishNode,
    );
    let fs = flat_steps(kind, kinds, bytes, offsets);
    lemma_flat_steps_from(ev, kind, kinds, bytes, offsets, 1);
    assert(ev[0] == EventRaw::StartNode { kind, forward_parent: None });
    assert(starts_of(seq![kind]) =~= seq![TreeStep::Start(kind)]);
    assert(fs =~= seq![TreeStep::Start(kind)] + fs.skip(1));
    assert(tree_steps(ev, bytes, offsets) == Some(fs));
    assert forall|k: int| 0 < k < fs.len() - 1 implies #[trigger] fs[k] is Token by {}
    assert forall|j: int| 0 <= j <= fs.len() implies open_count(#[trigger] fs.take(j))
        < u64::MAX by {
        lemma_flat_open_count(fs, j);
    }
    assert forall|j: int| 0 < j < fs.len() implies open_count(#[trigger] fs.take(j)) >= 1 by {
        lemma_flat_open_count(fs, j);
    }
    lemma_flat_open_count(fs, fs.len() as int);
    assert(fs.take(fs.len() as int) =~= fs);
}

} // verus!
