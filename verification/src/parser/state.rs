use super::token_set::TokenSet;
use crate::syntax_kind::SyntaxKind;
use vstd::prelude::*;

verus! {

/// The message of a syntax error.
#[derive(Clone, Copy, Debug, PartialEq, Eq)]
pub enum Message {
    /// A fixed text.
    Text(&'static str),
    /// "Unexpected token: " and the kind of the token.
    UnexpectedToken(SyntaxKind),
    /// "Expected <name>, but found " and what was found.
    ExpectedNameFound(Option<SyntaxKind>),
}

/// What the parser records, in order.
#[derive(Clone, Copy, Debug, PartialEq, Eq, Structural)]
pub enum EventRaw {
    /// A node begins. `forward_parent`, if any, is the (positive) distance to the event that
    /// begins the node that encloses this one although it was started later.
    StartNode { kind: SyntaxKind, forward_parent: Option<usize> },
    FinishNode,
    Token { kind: SyntaxKind },
    /// A place kept for a node that has not been completed yet.
    Tombstone,
    EmptyError { message_index: usize },
    StartError,
    FinishError { message_index: usize },
}

/// The kinds of the token events of `events`, in order.
pub open spec fn tokens_of(events: Seq<EventRaw>) -> Seq<SyntaxKind>
    decreases events.len(),
{
    if events.len() == 0 {
        Seq::empty()
    } else {
        let rest = tokens_of(events.drop_last());
        match events.last() {
            EventRaw::Token { kind } => rest.push(kind),
            _ => rest,
        }
    }
}

/// Where the run of trivia tokens (whitespace and comments) that starts at `pos` ends.
pub open spec fn trivia_end(inp: Seq<SyntaxKind>, pos: int) -> int
    decreases inp.len() - pos,
{
    if 0 <= pos < inp.len() && inp[pos].spec_is_trivia() {
        trivia_end(inp, pos + 1)
    } else {
        pos
    }
}

/// The run of trivia from `pos` is all trivia, and ends at the end or at a token that is not
/// trivia; any such place is where it ends.
pub proof fn lemma_trivia_end(inp: Seq<SyntaxKind>, pos: int)
    requires
        0 <= pos <= inp.len(),
    ensures
        pos <= trivia_end(inp, pos) <= inp.len(),
        forall|i: int| pos <= i < trivia_end(inp, pos) ==> (#[trigger] inp[i]).spec_is_trivia(),
        trivia_end(inp, pos) < inp.len() ==> !inp[trivia_end(inp, pos)].spec_is_trivia(),
        forall|q: int|
            pos <= q <= inp.len() && (forall|i: int| pos <= i < q ==> (#[trigger] inp[i]).spec_is_trivia())
                && (q < inp.len() ==> !inp[q].spec_is_trivia()) ==> q == trivia_end(inp, pos),
    decreases inp.len() - pos,
{
    if pos < inp.len() && inp[pos].spec_is_trivia() {
        lemma_trivia_end(inp, pos + 1);
        assert forall|q: int|
            pos <= q <= inp.len() && (forall|i: int| pos <= i < q ==> (#[trigger] inp[i]).spec_is_trivia())
                && (q < inp.len() ==> !inp[q].spec_is_trivia()) implies q == trivia_end(inp, pos) by {
            if q == pos {
                assert(!inp[q].spec_is_trivia());
            } else {
                assert(forall|i: int| pos + 1 <= i < q ==> (#[trigger] inp[i]).spec_is_trivia());
            }
        }
    }
}

/// One token event for each of `kinds`, in order.
pub open spec fn token_events(kinds: Seq<SyntaxKind>) -> Seq<EventRaw> {
    Seq::new(kinds.len(), |i: int| EventRaw::Token { kind: kinds[i] })
}

/// What parsing has done so far: the position, the events, the error messages, and whether
/// it gave up.
pub type PState = (int, Seq<EventRaw>, Seq<Message>, bool);

/// The token at the position of `s`, if any.
pub open spec fn cur(inp: Seq<SyntaxKind>, s: PState) -> Option<SyntaxKind> {
    if 0 <= s.0 < inp.len() {
        Some(inp[s.0])
    } else {
        None
    }
}

/// The token at the position of `s` has kind `k`.
pub open spec fn at_kind(inp: Seq<SyntaxKind>, s: PState, k: SyntaxKind) -> bool {
    cur(inp, s) == Some(k)
}

/// Reading the current token.
pub open spec fn sp_bump(inp: Seq<SyntaxKind>, s: PState) -> PState {
    (s.0 + 1, s.1.push(EventRaw::Token { kind: inp[s.0] }), s.2, s.3)
}

/// Opening a node whose kind is set when it is completed; its marker is `s.1.len()`.
pub open spec fn sp_start(s: PState) -> PState {
    (s.0, s.1.push(EventRaw::Tombstone), s.2, s.3)
}

/// Completing the node opened at the marker `m` with kind `kind`.
pub open spec fn sp_complete(s: PState, m: int, kind: SyntaxKind) -> PState {
    (s.0, s.1.update(m, EventRaw::StartNode { kind, forward_parent: None }).push(EventRaw::FinishNode), s.2, s.3)
}

/// Opening a node that encloses the completed node at `cm`; its marker is `s.1.len()`.
pub open spec fn sp_precede(s: PState, cm: int) -> PState {
    (
        s.0,
        s.1.update(
            cm,
            EventRaw::StartNode {
                kind: s.1[cm]->StartNode_kind,
                forward_parent: Some((s.1.len() - cm) as usize),
            },
        ).push(EventRaw::Tombstone),
        s.2,
        s.3,
    )
}

/// Reporting an error at the current place.
pub open spec fn sp_error(s: PState, m: Message) -> PState {
    (s.0, s.1.push(EventRaw::EmptyError { message_index: s.2.len() as usize }), s.2.push(m), s.3)
}

/// Beginning an error that covers what is read next.
pub open spec fn sp_start_error(s: PState) -> PState {
    (s.0, s.1.push(EventRaw::StartError), s.2, s.3)
}

/// Ending the error last begun.
pub open spec fn sp_finish_error(s: PState, m: Message) -> PState {
    (s.0, s.1.push(EventRaw::FinishError { message_index: s.2.len() as usize }), s.2.push(m), s.3)
}

/// Reading whitespace and comments.
pub open spec fn sp_trivia(inp: Seq<SyntaxKind>, s: PState) -> PState {
    (
        trivia_end(inp, s.0),
        s.1 + token_events(inp.subrange(s.0, trivia_end(inp, s.0))),
        s.2,
        s.3,
    )
}

/// Giving up: reading the rest of the input, and noting it.
pub open spec fn sp_abandon(inp: Seq<SyntaxKind>, s: PState) -> PState {
    (inp.len() as int, s.1 + token_events(inp.subrange(s.0, inp.len() as int)), s.2, true)
}

/// Reading the current token if it has kind `k`.
pub open spec fn sp_eat(inp: Seq<SyntaxKind>, s: PState, k: SyntaxKind) -> PState {
    if at_kind(inp, s, k) {
        sp_bump(inp, s)
    } else {
        s
    }
}

pub proof fn lemma_tokens_of_push(events: Seq<EventRaw>, e: EventRaw)
    ensures
        tokens_of(events.push(e)) == match e {
            EventRaw::Token { kind } => tokens_of(events).push(kind),
            _ => tokens_of(events),
        },
{
    assert(events.push(e).drop_last() =~= events);
}

/// Replacing an event that is not a token by another that is not a token keeps the tokens.
pub proof fn lemma_tokens_of_update(events: Seq<EventRaw>, i: int, e: EventRaw)
    requires
        0 <= i < events.len(),
        !(events[i] is Token),
        !(e is Token),
    ensures
        tokens_of(events.update(i, e)) == tokens_of(events),
    decreases events.len(),
{
    if i < events.len() - 1 {
        lemma_tokens_of_update(events.drop_last(), i, e);
        assert(events.update(i, e).drop_last() =~= events.drop_last().update(i, e));
    } else {
        assert(events.update(i, e).drop_last() =~= events.drop_last());
    }
}

/// Open markers are exactly the tombstones, every error names a message, and every forward
/// parent names a node start or an open node.
pub open spec fn events_ok(events: Seq<EventRaw>, n_errors: nat, open: Set<int>) -> bool {
    &&& forall|i: int| #[trigger] open.contains(i) ==> 0 <= i < events.len()
    &&& forall|i: int|
        0 <= i < events.len() ==> ((#[trigger] events[i] is Tombstone) <==> open.contains(i))
    &&& forall|i: int| 0 <= i < events.len() ==> event_ok(events, n_errors, i, #[trigger] events[i])
}

pub open spec fn event_ok(events: Seq<EventRaw>, n_errors: nat, i: int, e: EventRaw) -> bool {
    match e {
        EventRaw::EmptyError { message_index } => message_index < n_errors,
        EventRaw::FinishError { message_index } => message_index < n_errors,
        EventRaw::StartNode { forward_parent: Some(f), .. } => {
            &&& f > 0
            &&& i + f < events.len()
            &&& (events[i + f] is StartNode || events[i + f] is Tombstone)
        },
        _ => true,
    }
}

/// Pushing an event that is not a tombstone and names an existing message keeps the events
/// well formed.
pub proof fn lemma_events_ok_push(events: Seq<EventRaw>, n_errors: nat, open: Set<int>, e: EventRaw, n2: nat)
    requires
        events_ok(events, n_errors, open),
        n_errors <= n2,
        !(e is Tombstone),
        !(e is StartNode),
        event_ok(events.push(e), n2, events.len() as int, e),
    ensures
        events_ok(events.push(e), n2, open),
{
    let ev2 = events.push(e);
    assert forall|i: int| 0 <= i < ev2.len() implies event_ok(ev2, n2, i, #[trigger] ev2[i]) by {
        if i < events.len() {
            assert(ev2[i] == events[i]);
            assert(event_ok(events, n_errors, i, events[i]));
            if let EventRaw::StartNode { forward_parent: Some(f), .. } = events[i] {
                assert(ev2[i + f] == events[i + f]);
            }
        }
    }
    assert forall|i: int| 0 <= i < ev2.len() implies ((#[trigger] ev2[i] is Tombstone) <==> open.contains(i)) by {
        if i < events.len() {
            assert(ev2[i] == events[i]);
        }
    }
}

/// A recursive-descent parser over a list of token kinds. It records events; markers name the
/// events that begin nodes.
pub struct Parser {
    input: Vec<SyntaxKind>,
    pos: usize,
    events: Vec<EventRaw>,
    errors: Vec<Message>,
    unfinished: bool,
    open: Ghost<Set<int>>,
}

/// An open node: its start event is a tombstone until the marker is completed.
pub struct Marker {
    pos: usize,
}

/// A completed node, which a later node may still be made to enclose.
pub struct CompletedMarker {
    pos: usize,
}

impl Marker {
    pub closed spec fn pos(&self) -> int {
        self.pos as int
    }
}

impl CompletedMarker {
    pub closed spec fn pos(&self) -> int {
        self.pos as int
    }
}

impl Parser {
    pub closed spec fn input(&self) -> Seq<SyntaxKind> {
        self.input@
    }

    pub closed spec fn position(&self) -> int {
        self.pos as int
    }

    pub closed spec fn events(&self) -> Seq<EventRaw> {
        self.events@
    }

    pub closed spec fn errors(&self) -> Seq<Message> {
        self.errors@
    }

    /// The token events are the tokens read so far.
    pub proof fn lemma_read_tokens(&self)
        requires
            self.wf(),
        ensures
            tokens_of(self.events()) == self.input().take(self.position()),
    {
    }

    /// Whether parsing reached a construct whose error recovery does not exist.
    pub closed spec fn is_unfinished(&self) -> bool {
        self.unfinished
    }

    /// Positions of the markers that are open.
    pub closed spec fn open_markers(&self) -> Set<int> {
        self.open@
    }

    /// The kind of the current token, if any is left.
    pub open spec fn current_spec(&self) -> Option<SyntaxKind> {
        if self.position() < self.input().len() {
            Some(self.input()[self.position()])
        } else {
            None
        }
    }

    /// The parser's state.
    pub open spec fn st(&self) -> PState {
        (self.position(), self.events(), self.errors(), self.is_unfinished())
    }

    /// Number of tokens not read yet.
    pub open spec fn remaining(&self) -> int {
        self.input().len() - self.position()
    }

    /// The position is within the input, and the events are well formed.
    pub open spec fn wf(&self) -> bool {
        &&& 0 <= self.position() <= self.input().len()
        &&& self.wf_events()
    }

    /// The tokens of the events are the input read so far, and the events are well formed.
    pub closed spec fn wf_events(&self) -> bool {
        &&& self.pos <= self.input@.len()
        &&& tokens_of(self.events@) == self.input@.take(self.pos as int)
        &&& events_ok(self.events@, self.errors@.len(), self.open@)
    }

    /// `self` came from `old` by parsing on: the same input, a later position, and every node
    /// start still a node start.
    pub open spec fn progressed_from(&self, old: &Parser) -> bool {
        &&& self.wf()
        &&& self.input() == old.input()
        &&& old.position() <= self.position()
        &&& old.events().len() <= self.events().len()
        &&& forall|i: int|
            0 <= i < old.events().len() && (#[trigger] old.events()[i]) is StartNode
                ==> self.events()[i] is StartNode
        &&& (old.is_unfinished() ==> self.is_unfinished())
    }

    /// Parsing on, and every marker that was open is open, and no other.
    pub open spec fn advanced_from(&self, old: &Parser) -> bool {
        &&& self.progressed_from(old)
        &&& self.open_markers() =~= old.open_markers()
    }

    /// `m` is open in `self`.
    pub open spec fn owns(&self, m: &Marker) -> bool {
        self.open_markers().contains(m.pos())
    }

    /// `cm` names a node start of `self`.
    pub open spec fn has_completed(&self, cm: &CompletedMarker) -> bool {
        0 <= cm.pos() < self.events().len() && self.events()[cm.pos()] is StartNode
    }

    pub fn new(input: Vec<SyntaxKind>) -> (r: Parser)
        ensures
            r.wf(),
            r.input() == input@,
            r.position() == 0,
            r.events() == Seq::<EventRaw>::empty(),
            r.errors() == Seq::<Message>::empty(),
            r.open_markers() == Set::<int>::empty(),
            !r.is_unfinished(),
    {
        let r = Parser {
            input,
            pos: 0,
            events: Vec::new(),
            errors: Vec::new(),
            unfinished: false,
            open: Ghost(Set::empty()),
        };
        assert(r.input@.take(0) =~= Seq::<SyntaxKind>::empty());
        r
    }

    /// The kind of the current token, if any is left.
    pub fn current(&self) -> (r: Option<SyntaxKind>)
        requires
            self.wf(),
        ensures
            r == self.current_spec(),
    {
        if self.pos < self.input.len() {
            Some(self.input[self.pos])
        } else {
            None
        }
    }

    /// The kind of the current token, which must exist.
    pub fn current_kind(&self) -> (r: SyntaxKind)
        requires
            self.wf(),
            self.current_spec() is Some,
        ensures
            self.current_spec() == Some(r),
    {
        self.input[self.pos]
    }

    /// Whether the current token has kind `kind`.
    pub fn at(&self, kind: SyntaxKind) -> (r: bool)
        requires
            self.wf(),
        ensures
            r == (self.current_spec() == Some(kind)),
    {
        match self.current() {
            Some(k) => k == kind,
            None => false,
        }
    }

    /// Whether no token is left.
    pub fn at_eof(&self) -> (r: bool)
        requires
            self.wf(),
        ensures
            r == (self.current_spec() is None),
    {
        self.pos >= self.input.len()
    }

    /// Whether the current token's kind is in `kinds`.
    pub fn at_ts(&self, kinds: TokenSet) -> (r: bool)
        requires
            self.wf(),
        ensures
            r == (self.current_spec() is Some && kinds.has(self.current_spec()->0)),
    {
        match self.current() {
            Some(current) => kinds.contains(current),
            None => false,
        }
    }

    /// Whether the token `n` places after the current one has kind `kind`.
    pub fn nth_at(&self, n: usize, kind: SyntaxKind) -> (r: bool)
        requires
            self.wf(),
        ensures
            r == (self.position() + n < self.input().len() && self.input()[self.position() + n]
                == kind),
    {
        if n < self.input.len() && self.pos < self.input.len() - n {
            self.input[self.pos + n] == kind
        } else {
            false
        }
    }

    /// Opens a node here.
    pub fn start(&mut self) -> (m: Marker)
        requires
            old(self).wf(),
        ensures
            final(self).wf(),
            final(self).input() == old(self).input(),
            final(self).position() == old(self).position(),
            final(self).errors() == old(self).errors(),
            final(self).events() == old(self).events().push(EventRaw::Tombstone),
            m.pos() == old(self).events().len(),
            final(self).open_markers() == old(self).open_markers().insert(m.pos()),
            !old(self).open_markers().contains(m.pos()),
            final(self).progressed_from(old(self)),
            final(self).is_unfinished() == old(self).is_unfinished(),
    {
        let pos = self.events.len();
        proof {
            lemma_tokens_of_push(self.events@, EventRaw::Tombstone);
        }
        self.events.push(EventRaw::Tombstone);
        self.open = Ghost(self.open@.insert(pos as int));
        Marker { pos }
    }

    /// Records the current token, which must exist, and moves past it.
    fn push_token(&mut self, kind: SyntaxKind)
        requires
            old(self).wf(),
            old(self).current_spec() == Some(kind),
        ensures
            final(self).advanced_from(old(self)),
            final(self).events() == old(self).events().push(EventRaw::Token { kind }),
            final(self).position() == old(self).position() + 1,
            final(self).errors() == old(self).errors(),
            final(self).is_unfinished() == old(self).is_unfinished(),
    {
        proof {
            lemma_tokens_of_push(self.events@, EventRaw::Token { kind });
            lemma_events_ok_push(self.events@, self.errors@.len(), self.open@, EventRaw::Token { kind }, self.errors@.len());
            assert(self.input@.take(self.pos + 1) =~= self.input@.take(self.pos as int).push(kind));
        }
        self.events.push(EventRaw::Token { kind });
        let n = self.input.len();
        assert(self.pos < n);
        self.pos = self.pos + 1;
    }

    /// Reads the current token if it has kind `kind`.
    pub fn eat(&mut self, kind: SyntaxKind) -> (r: bool)
        requires
            old(self).wf(),
        ensures
            final(self).advanced_from(old(self)),
            r ==> final(self).events() == old(self).events().push(EventRaw::Token { kind }),
            r == (old(self).current_spec() == Some(kind)),
            r ==> final(self).position() == old(self).position() + 1,
            !r ==> *final(self) == *old(self),
            final(self).errors() == old(self).errors(),
            final(self).is_unfinished() == old(self).is_unfinished(),
    {
        if !self.at(kind) {
            return false;
        }
        self.push_token(kind);
        true
    }

    /// Reads whitespace and comments.
    pub fn eat_trivia(&mut self)
        requires
            old(self).wf(),
        ensures
            final(self).advanced_from(old(self)),
            final(self).errors() == old(self).errors(),
            final(self).is_unfinished() == old(self).is_unfinished(),
            !(final(self).current_spec() is Some && final(self).current_spec()->0.spec_is_trivia()),
            !(old(self).current_spec() is Some && old(self).current_spec()->0.spec_is_trivia())
                ==> *final(self) == *old(self),
            final(self).events() == old(self).events() + token_events(
                old(self).input().subrange(old(self).position(), final(self).position()),
            ),
            forall|i: int|
                old(self).position() <= i < final(self).position() ==> (#[trigger] old(
                    self,
                ).input()[i]).spec_is_trivia(),
            final(self).position() == trivia_end(old(self).input(), old(self).position()),
    {
        loop
            invariant
                self.advanced_from(old(self)),
                self.errors() == old(self).errors(),
                self.is_unfinished() == old(self).is_unfinished(),
                !(old(self).current_spec() is Some && old(self).current_spec()->0.spec_is_trivia())
                    ==> *self == *old(self),
                self.events() == old(self).events() + token_events(
                    old(self).input().subrange(old(self).position(), self.position()),
                ),
                forall|i: int|
                    old(self).position() <= i < self.position() ==> (#[trigger] old(
                        self,
                    ).input()[i]).spec_is_trivia(),
            ensures
                self.advanced_from(old(self)),
                self.errors() == old(self).errors(),
                self.is_unfinished() == old(self).is_unfinished(),
                !(self.current_spec() is Some && self.current_spec()->0.spec_is_trivia()),
                !(old(self).current_spec() is Some && old(self).current_spec()->0.spec_is_trivia())
                    ==> *self == *old(self),
                self.events() == old(self).events() + token_events(
                    old(self).input().subrange(old(self).position(), self.position()),
                ),
                forall|i: int|
                    old(self).position() <= i < self.position() ==> (#[trigger] old(
                        self,
                    ).input()[i]).spec_is_trivia(),
            decreases self.remaining(),
        {
            match self.current() {
                Some(kind) => {
                    if kind.is_trivia() {
                        let ghost before = self.events();
                        self.push_token(kind);
                        proof {
                            assert(self.events() =~= old(self).events() + token_events(
                                old(self).input().subrange(old(self).position(), self.position()),
                            ));
                        }
                    } else {
                        break;
                    }
                },
                None => break,
            }
        }
        proof {
            lemma_trivia_end(old(self).input(), old(self).position());
        }
    }

    /// Reads the current token, which must have kind `kind`.
    pub fn bump(&mut self, kind: SyntaxKind)
        requires
            old(self).wf(),
            old(self).current_spec() == Some(kind),
        ensures
            final(self).advanced_from(old(self)),
            final(self).events() == old(self).events().push(EventRaw::Token { kind }),
            final(self).position() == old(self).position() + 1,
            final(self).errors() == old(self).errors(),
            final(self).is_unfinished() == old(self).is_unfinished(),
    {
        self.eat(kind);
    }

    /// Reads the current token, which must exist.
    pub fn bump_any(&mut self)
        requires
            old(self).wf(),
            old(self).current_spec() is Some,
        ensures
            final(self).advanced_from(old(self)),
            final(self).events() == old(self).events().push(
                EventRaw::Token { kind: old(self).current_spec()->0 },
            ),
            final(self).position() == old(self).position() + 1,
            final(self).errors() == old(self).errors(),
            final(self).is_unfinished() == old(self).is_unfinished(),
    {
        let kind = self.input[self.pos];
        self.push_token(kind);
    }

    /// Records an error with no text range, here.
    pub fn error(&mut self, message: Message)
        requires
            old(self).wf(),
        ensures
            final(self).advanced_from(old(self)),
            final(self).position() == old(self).position(),
            final(self).errors() == old(self).errors().push(message),
            final(self).is_unfinished() == old(self).is_unfinished(),
            final(self).events() == old(self).events().push(
                EventRaw::EmptyError { message_index: old(self).errors().len() as usize },
            ),
    {
        let message_index = self.errors.len();
        self.errors.push(message);
        let e = EventRaw::EmptyError { message_index };
        proof {
            lemma_tokens_of_push(self.events@, e);
        }
        self.events.push(e);
    }

    /// Begins an error that covers the tokens read until `finish_error`.
    pub fn start_error(&mut self)
        requires
            old(self).wf(),
        ensures
            final(self).advanced_from(old(self)),
            final(self).events() == old(self).events().push(EventRaw::StartError),
            final(self).input() == old(self).input(),
            final(self).position() == old(self).position(),
            final(self).errors() == old(self).errors(),
            final(self).is_unfinished() == old(self).is_unfinished(),
    {
        proof {
            lemma_tokens_of_push(self.events@, EventRaw::StartError);
        }
        self.events.push(EventRaw::StartError);
    }

    /// Ends the error begun by `start_error`, with `message`.
    pub fn finish_error(&mut self, message: Message)
        requires
            old(self).wf(),
        ensures
            final(self).advanced_from(old(self)),
            final(self).position() == old(self).position(),
            final(self).errors() == old(self).errors().push(message),
            final(self).is_unfinished() == old(self).is_unfinished(),
            final(self).events() == old(self).events().push(
                EventRaw::FinishError { message_index: old(self).errors().len() as usize },
            ),
    {
        let message_index = self.errors.len();
        self.errors.push(message);
        let e = EventRaw::FinishError { message_index };
        proof {
            lemma_tokens_of_push(self.events@, e);
        }
        self.events.push(e);
    }

    /// Notes that parsing reached a construct whose error recovery does not exist.
    pub fn mark_unfinished(&mut self)
        requires
            old(self).wf(),
        ensures
            final(self).advanced_from(old(self)),
            final(self).position() == old(self).position(),
            final(self).errors() == old(self).errors(),
            final(self).is_unfinished(),
    {
        self.unfinished = true;
    }

    /// Gives up: notes that parsing reached a construct whose error recovery does not exist,
    /// and reads the rest of the input.
    pub fn abandon(&mut self)
        requires
            old(self).wf(),
        ensures
            final(self).advanced_from(old(self)),
            final(self).position() == final(self).input().len(),
            final(self).errors() == old(self).errors(),
            final(self).is_unfinished(),
            final(self).events() == old(self).events() + token_events(
                old(self).input().subrange(old(self).position(), old(self).input().len() as int),
            ),
    {
        self.unfinished = true;
        while self.pos < self.input.len()
            invariant
                self.advanced_from(old(self)),
                self.errors() == old(self).errors(),
                self.is_unfinished(),
                self.events() == old(self).events() + token_events(
                    old(self).input().subrange(old(self).position(), self.position()),
                ),
            decreases self.remaining(),
        {
            let kind = self.input[self.pos];
            self.push_token(kind);
            proof {
                assert(self.events() =~= old(self).events() + token_events(
                    old(self).input().subrange(old(self).position(), self.position()),
                ));
            }
        }
    }

    /// Whether parsing reached a construct whose error recovery does not exist.
    pub fn unfinished(&self) -> (r: bool)
        ensures
            r == self.is_unfinished(),
    {
        self.unfinished
    }

    /// Ends parsing, which must have read every token and completed every marker.
    pub fn finish(self) -> (r: Output)
        requires
            self.wf(),
            self.position() == self.input().len(),
            self.open_markers() == Set::<int>::empty(),
        ensures
            r.events() == self.events(),
            r.messages() == self.errors(),
            r.wf(),
            tokens_of(r.events()) == self.input(),
    {
        assert(self.input@.take(self.pos as int) =~= self.input@);
        Output::new(self.events, self.errors)
    }
}

impl Marker {
    /// Completes the node opened by `self`, with kind `kind`.
    pub fn complete(self, p: &mut Parser, kind: SyntaxKind) -> (cm: CompletedMarker)
        requires
            old(p).wf(),
            old(p).owns(&self),
        ensures
            final(p).wf(),
            final(p).input() == old(p).input(),
            final(p).position() == old(p).position(),
            final(p).errors() == old(p).errors(),
            final(p).is_unfinished() == old(p).is_unfinished(),
            final(p).open_markers() == old(p).open_markers().remove(self.pos()),
            final(p).events() == old(p).events().update(
                self.pos(),
                EventRaw::StartNode { kind, forward_parent: None },
            ).push(EventRaw::FinishNode),
            cm.pos() == self.pos(),
            self.pos() < old(p).events().len(),
            final(p).has_completed(&cm),
            final(p).progressed_from(old(p)),
    {
        let pos = self.pos;
        let ghost before = p.events@;
        let e = EventRaw::StartNode { kind, forward_parent: None };
        proof {
            lemma_tokens_of_update(before, pos as int, e);
            lemma_tokens_of_push(before.update(pos as int, e), EventRaw::FinishNode);
        }
        p.events.set(pos, e);
        p.events.push(EventRaw::FinishNode);
        p.open = Ghost(p.open@.remove(pos as int));
        proof {
            assert forall|i: int| 0 <= i < p.events@.len() implies ((
            #[trigger] p.events@[i] is Tombstone) <==> p.open@.contains(i)) by {
                if i < before.len() && i != pos {
                    assert(p.events@[i] == before[i]);
                }
            }
            assert forall|i: int| 0 <= i < p.events@.len() implies match #[trigger] p.events@[i] {
                EventRaw::EmptyError { message_index } => message_index < p.errors@.len(),
                EventRaw::FinishError { message_index } => message_index < p.errors@.len(),
                EventRaw::StartNode { forward_parent: Some(f), .. } => {
                    &&& f > 0
                    &&& i + f < p.events@.len()
                    &&& (p.events@[i + f] is StartNode || p.events@[i + f] is Tombstone)
                },
                _ => true,
            } by {
                if i < before.len() && i != pos {
                    assert(p.events@[i] == before[i]);
                    if let EventRaw::StartNode { forward_parent: Some(f), .. } = before[i] {
                        assert(before[i + f] is StartNode || before[i + f] is Tombstone);
                        if i + f != pos {
                            assert(p.events@[i + f] == before[i + f]);
                        }
                    }
                }
            }
        }
        CompletedMarker { pos }
    }
}

impl CompletedMarker {
    /// Opens a node that will enclose the completed node `self`.
    pub fn precede(self, p: &mut Parser) -> (m: Marker)
        requires
            old(p).wf(),
            old(p).has_completed(&self),
        ensures
            final(p).wf(),
            final(p).input() == old(p).input(),
            final(p).position() == old(p).position(),
            final(p).errors() == old(p).errors(),
            final(p).is_unfinished() == old(p).is_unfinished(),
            final(p).open_markers() == old(p).open_markers().insert(m.pos()),
            m.pos() == old(p).events().len(),
            !old(p).open_markers().contains(m.pos()),
            final(p).progressed_from(old(p)),
            final(p).events().len() == old(p).events().len() + 1,
            forall|i: int|
                0 <= i < old(p).events().len() && (#[trigger] old(p).events()[i]) is StartNode
                    ==> final(p).events()[i] is StartNode,
            final(p).events() == old(p).events().update(
                self.pos(),
                EventRaw::StartNode {
                    kind: old(p).events()[self.pos()]->StartNode_kind,
                    forward_parent: Some((old(p).events().len() - self.pos()) as usize),
                },
            ).push(EventRaw::Tombstone),
    {
        let ghost events0 = p.events();
        let new_pos = p.start();
        let idx = self.pos;
        let ghost before = p.events@;
        match p.events[idx] {
            EventRaw::StartNode { kind, forward_parent: _ } => {
                let forward = new_pos.pos - idx;
                let e = EventRaw::StartNode { kind, forward_parent: Some(forward) };
                proof {
                    lemma_tokens_of_update(before, idx as int, e);
                }
                p.events.set(idx, e);
                proof {
                    assert forall|i: int| 0 <= i < p.events@.len() implies ((
                    #[trigger] p.events@[i] is Tombstone) <==> p.open@.contains(i)) by {
                        if i != idx {
                            assert(p.events@[i] == before[i]);
                        }
                    }
                    assert forall|i: int| 0 <= i < p.events@.len() implies match #[trigger] p.events@[i] {
                        EventRaw::EmptyError { message_index } => message_index < p.errors@.len(),
                        EventRaw::FinishError { message_index } => message_index < p.errors@.len(),
                        EventRaw::StartNode { forward_parent: Some(f), .. } => {
                            &&& f > 0
                            &&& i + f < p.events@.len()
                            &&& (p.events@[i + f] is StartNode || p.events@[i + f] is Tombstone)
                        },
                        _ => true,
                    } by {
                        if i != idx {
                            assert(p.events@[i] == before[i]);
                            if let EventRaw::StartNode { forward_parent: Some(f), .. } = before[i] {
                                assert(before[i + f] is StartNode || before[i + f] is Tombstone);
                                if i + f != idx {
                                    assert(p.events@[i + f] == before[i + f]);
                                }
                            }
                        }
                    }
                }
                proof {
                    assert(p.events() =~= events0.update(
                        self.pos(),
                        EventRaw::StartNode {
                            kind: events0[self.pos()]->StartNode_kind,
                            forward_parent: Some((events0.len() - self.pos()) as usize),
                        },
                    ).push(EventRaw::Tombstone));
                }
            },
            _ => {},
        }
        new_pos
    }
}

/// What the parser recorded: the events, and the messages of the errors among them.
pub struct Output {
    events: Vec<EventRaw>,
    errors: Vec<Message>,
}

impl Output {
    pub closed spec fn events(&self) -> Seq<EventRaw> {
        self.events@
    }

    pub closed spec fn messages(&self) -> Seq<Message> {
        self.errors@
    }

    /// No node is left open, every error names a message, and every forward parent names a node
    /// start.
    pub open spec fn wf(&self) -> bool {
        forall|i: int|
            0 <= i < self.events().len() ==> match #[trigger] self.events()[i] {
                EventRaw::Tombstone => false,
                EventRaw::EmptyError { message_index } => message_index < self.messages().len(),
                EventRaw::FinishError { message_index } => message_index < self.messages().len(),
                EventRaw::StartNode { forward_parent: Some(f), .. } => {
                    &&& f > 0
                    &&& i + f < self.events().len()
                    &&& self.events()[i + f] is StartNode
                },
                _ => true,
            }
    }

    fn new(events: Vec<EventRaw>, errors: Vec<Message>) -> (r: Output)
        requires
            forall|i: int|
                0 <= i < events@.len() ==> match #[trigger] events@[i] {
                    EventRaw::Tombstone => false,
                    EventRaw::EmptyError { message_index } => message_index < errors@.len(),
                    EventRaw::FinishError { message_index } => message_index < errors@.len(),
                    EventRaw::StartNode { forward_parent: Some(f), .. } => {
                        &&& f > 0
                        &&& i + f < events@.len()
                        &&& events@[i + f] is StartNode
                    },
                    _ => true,
                },
        ensures
            r.events() == events@,
            r.messages() == errors@,
            r.wf(),
    {
        Output { events, errors }
    }

    /// The events and the messages.
    pub fn into_parts(self) -> (r: (Vec<EventRaw>, Vec<Message>))
        ensures
            r.0@ == self.events(),
            r.1@ == self.messages(),
    {
        (self.events, self.errors)
    }

    pub fn event_count(&self) -> (r: usize)
        ensures
            r == self.events().len(),
    {
        self.events.len()
    }

    /// The event at `index`, with its message if it has one.
    pub fn event(&self, index: usize) -> (r: (EventRaw, Option<Message>))
        requires
            self.wf(),
            index < self.events().len(),
        ensures
            r.0 == self.events()[index as int],
            r.1 == match r.0 {
                EventRaw::EmptyError { message_index } => Some(self.messages()[message_index as int]),
                EventRaw::FinishError { message_index } => Some(self.messages()[message_index as int]),
                _ => None,
            },
    {
        let e = self.events[index];
        let m = match e {
            EventRaw::EmptyError { message_index } => Some(self.errors[message_index]),
            EventRaw::FinishError { message_index } => Some(self.errors[message_index]),
            _ => None,
        };
        (e, m)
    }
}

} // verus!
