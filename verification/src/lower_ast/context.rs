use crate::ir::item::ScopeIndex;
use crate::ir::storage::RawData;
use crate::ir::ModuleBuilder;
use crate::parser::state::Message;
use crate::parser::syntax_error::SyntaxError;
use vstd::prelude::*;

verus! {

/// Where a text range starts, in bytes.
pub uninterp spec fn text_range_start(r: rowan::TextRange) -> u32;

/// Where a text range ends, in bytes.
pub uninterp spec fn text_range_end(r: rowan::TextRange) -> u32;

/// `TextRange::start`, as a number of bytes.
#[verifier::external_body]
fn range_start(r: rowan::TextRange) -> (s: u32)
    ensures
        s == text_range_start(r),
{
    u32::from(r.start())
}

/// `TextRange::end`, as a number of bytes.
#[verifier::external_body]
fn range_end(r: rowan::TextRange) -> (e: u32)
    ensures
        e == text_range_end(r),
{
    u32::from(r.end())
}

/// How a new scope relates to the one it opens in.
pub enum ScopeKind {
    /// A scope nested in the current one: still in a loop if the current one is.
    Nest,
    /// A scope of its own, such as a function body: not in a loop.
    New,
    /// The body of a loop.
    Loop,
}

/// A scope that is open; `finish` closes it and gives back the scope it opened in.
#[must_use]
pub struct ScopeMarker {
    current: ScopeIndex,
    in_loop: bool,
}

impl ScopeMarker {
    /// The scope that was current when this one was opened.
    pub closed spec fn saved_scope(&self) -> u32 {
        self.current.value()
    }

    /// Whether the code was in a loop when this scope was opened.
    pub closed spec fn saved_in_loop(&self) -> bool {
        self.in_loop
    }

    /// Closes the scope: the scope it opened in is current again, in a loop or not as it was.
    pub fn finish(self, ctx: &mut Context)
        ensures
            final(ctx).current() == self.saved_scope(),
            final(ctx).in_loop() == self.saved_in_loop(),
            final(ctx).next() == old(ctx).next(),
            final(ctx).errors() == old(ctx).errors(),
            final(ctx).spec_builder() == old(ctx).spec_builder(),
    {
        ctx.current_scope = self.current;
        ctx.in_loop_scope = self.in_loop;
    }
}

/// What lowering a program keeps track of: the module being built, the errors found, the
/// current scope and the number the next scope gets, and whether the code is in a loop.
pub struct Context {
    pub builder: ModuleBuilder,
    errors: Vec<SyntaxError>,
    current_scope: ScopeIndex,
    next_scope: ScopeIndex,
    in_loop_scope: bool,
}

impl Context {
    pub closed spec fn current(&self) -> u32 {
        self.current_scope.value()
    }

    pub closed spec fn next(&self) -> u32 {
        self.next_scope.value()
    }

    pub closed spec fn in_loop(&self) -> bool {
        self.in_loop_scope
    }

    pub closed spec fn errors(&self) -> Seq<SyntaxError> {
        self.errors@
    }

    pub closed spec fn spec_builder(&self) -> ModuleBuilder {
        self.builder
    }

    /// The outermost scope, 1, is current; the next scope gets 2; not in a loop, no error,
    /// nothing built.
    pub fn new() -> (r: Self)
        ensures
            r.current() == 1,
            r.next() == 2,
            !r.in_loop(),
            r.errors() == Seq::<SyntaxError>::empty(),
            r.spec_builder().entries() == Seq::<RawData>::empty(),
            r.spec_builder().spec_functions().len() == 0,
    {
        let current_scope = ScopeIndex::new();
        Self {
            builder: ModuleBuilder::new(),
            errors: Vec::new(),
            current_scope,
            next_scope: current_scope.make_next(),
            in_loop_scope: false,
        }
    }

    /// The module built and the errors found, in the order they were found.
    pub fn finish(self) -> (r: (ModuleBuilder, Vec<SyntaxError>))
        ensures
            r.0 == self.spec_builder(),
            r.1@ == self.errors(),
    {
        let Context { builder, errors, current_scope: _, next_scope: _, in_loop_scope: _ } = self;
        (builder, errors)
    }

    pub fn is_in_loop(&self) -> (r: bool)
        ensures
            r == self.in_loop(),
    {
        self.in_loop_scope
    }

    pub fn scope_index(&self) -> (r: ScopeIndex)
        ensures
            r.value() == self.current(),
    {
        self.current_scope
    }

    /// Records an error with `message` over `range`.
    pub fn push_error(&mut self, message: Message, range: rowan::TextRange)
        ensures
            final(self).errors().len() == old(self).errors().len() + 1,
            final(self).errors().drop_last() == old(self).errors(),
            final(self).errors().last()@ == (message, text_range_start(range), text_range_end(range)),
            final(self).current() == old(self).current(),
            final(self).next() == old(self).next(),
            final(self).in_loop() == old(self).in_loop(),
            final(self).spec_builder() == old(self).spec_builder(),
    {
        let start = range_start(range);
        let end = range_end(range);
        self.errors.push(SyntaxError::new(message, start, end));
    }

    /// Opens a scope: it gets the next number, which moves on by one, and is in a loop as
    /// `kind` says. The marker keeps the scope it opened in. The next number must not be
    /// `u32::MAX` yet.
    pub fn start_scope(&mut self, kind: ScopeKind) -> (m: ScopeMarker)
        requires
            old(self).next() < u32::MAX,
        ensures
            final(self).current() == old(self).next(),
            final(self).next() == old(self).next() + 1,
            final(self).in_loop() == match kind {
                ScopeKind::Nest => old(self).in_loop(),
                ScopeKind::New => false,
                ScopeKind::Loop => true,
            },
            m.saved_scope() == old(self).current(),
            m.saved_in_loop() == old(self).in_loop(),
            final(self).errors() == old(self).errors(),
            final(self).spec_builder() == old(self).spec_builder(),
    {
        let current = self.current_scope;
        let in_loop = self.in_loop_scope;
        self.current_scope = self.next_scope;
        self.next_scope = self.next_scope.make_next();
        match kind {
            ScopeKind::Nest => ScopeMarker { current, in_loop },
            ScopeKind::New => {
                self.in_loop_scope = false;
                ScopeMarker { current, in_loop }
            },
            ScopeKind::Loop => {
                self.in_loop_scope = true;
                ScopeMarker { current, in_loop }
            },
        }
    }
}

} // verus!
