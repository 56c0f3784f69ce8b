use crate::text::{
    byte_len, byte_offset, char_len_utf8, char_width, lemma_byte_len_encode, lemma_byte_offset_full,
    lemma_byte_offset_mono, lemma_byte_offset_step,
};
use super::spec::run_end;
use vstd::prelude::*;
use vstd::string::StringSliceAdditionalSpecFns;
use vstd::utf8::encode_utf8;

verus! {

/// A reading position in source text. It remembers where the current token began and how many
/// bytes the token has so far.
pub(crate) struct Cursor {
    pub(crate) chars: Vec<char>,
    pub(crate) pos: usize,
    pub(crate) start: usize,
    pub(crate) token_len: u32,
}

impl Cursor {
    /// The source text, char by char.
    pub(crate) open spec fn src(&self) -> Seq<char> {
        self.chars@
    }

    pub(crate) open spec fn wf(&self) -> bool {
        &&& self.start <= self.pos <= self.chars@.len()
        &&& byte_len(self.chars@) <= u32::MAX
        &&& self.token_len == byte_offset(self.chars@, self.pos as int) - byte_offset(
            self.chars@,
            self.start as int,
        )
    }

    /// `self` was obtained from `old` by reading on within the same token.
    pub(crate) open spec fn advanced_from(&self, old: &Cursor) -> bool {
        &&& self.wf()
        &&& self.chars@ == old.chars@
        &&& self.start == old.start
        &&& old.pos <= self.pos
    }

    /// A cursor at the beginning of `source`.
    ///
    /// The source must not be longer than `u32::MAX` bytes.
    pub(crate) fn new(source: &str) -> (r: Cursor)
        requires
            source.spec_bytes().len() <= u32::MAX,
        ensures
            r.wf(),
            r.src() == source@,
            r.pos == 0,
            r.start == 0,
    {
        broadcast use vstd::string::axiom_spec_iter;

        let mut chars: Vec<char> = Vec::new();
        for c in iter: source.chars()
            invariant
                chars@ == iter.seq().take(iter.index() as int),
                iter.seq() == source@,
        {
            chars.push(c);
            assert(chars@ =~= iter.seq().take(iter.index() + 1));
        }
        proof {
            assert(chars@ =~= source@);
            lemma_byte_len_encode(source@);
            assert(source.spec_bytes() == encode_utf8(source@));
            assert(byte_len(chars@) <= u32::MAX);
        }
        Cursor { chars, pos: 0, start: 0, token_len: 0 }
    }

    /// The last char read. (Only for checking assumptions.)
    pub(crate) fn prev(&self) -> (r: char)
        requires
            self.wf(),
            self.pos > 0,
        ensures
            r == self.src()[self.pos - 1],
    {
        self.chars[self.pos - 1]
    }

    /// Reads the next char, if any.
    pub(crate) fn next(&mut self) -> (r: Option<char>)
        requires
            old(self).wf(),
        ensures
            final(self).advanced_from(old(self)),
            old(self).pos < old(self).src().len() ==> final(self).pos == old(self).pos + 1 && r
                == Some(old(self).src()[old(self).pos as int]),
            old(self).pos >= old(self).src().len() ==> final(self).pos == old(self).pos && r
                is None,
    {
        if self.pos < self.chars.len() {
            let c = self.chars[self.pos];
            proof {
                lemma_byte_offset_step(self.chars@, self.pos as int);
                lemma_byte_offset_mono(self.chars@, self.pos + 1, self.chars@.len() as int);
                lemma_byte_offset_mono(self.chars@, self.start as int, self.pos as int);
                lemma_byte_offset_full(self.chars@);
            }
            self.token_len = self.token_len + char_len_utf8(c);
            self.pos = self.pos + 1;
            Some(c)
        } else {
            None
        }
    }

    /// Reads on while the next char satisfies `pred` (whose meaning is `p`), or up to the end.
    pub(crate) fn eat_while<F: Fn(char) -> bool>(
        &mut self,
        pred: F,
        Ghost(p): Ghost<spec_fn(char) -> bool>,
    )
        requires
            old(self).wf(),
            forall|c: char| pred.requires((c,)),
            forall|c: char, r: bool| pred.ensures((c,), r) ==> r == p(c),
        ensures
            final(self).advanced_from(old(self)),
            final(self).pos == run_end(old(self).src(), old(self).pos as int, p),
    {
        let ghost s = self.chars@;
        let ghost first = self.pos as int;
        while self.pos < self.chars.len()
            invariant_except_break
                self.advanced_from(old(self)),
                s == self.chars@,
                first == old(self).pos,
                run_end(s, first, p) == run_end(s, self.pos as int, p),
                forall|c: char| pred.requires((c,)),
                forall|c: char, r: bool| pred.ensures((c,), r) ==> r == p(c),
            ensures
                self.advanced_from(old(self)),
                self.pos as int == run_end(s, first, p),
            decreases self.chars@.len() - self.pos,
        {
            let c = self.chars[self.pos];
            if pred(c) {
                self.next();
            } else {
                break;
            }
        }
    }

    /// The next char, without reading it.
    pub(crate) fn peek(&self) -> (r: Option<char>)
        requires
            self.wf(),
        ensures
            self.pos < self.src().len() ==> r == Some(self.src()[self.pos as int]),
            self.pos >= self.src().len() ==> r is None,
    {
        if self.pos < self.chars.len() {
            Some(self.chars[self.pos])
        } else {
            None
        }
    }

    /// Ends the current token with kind `kind`; the next token begins where reading stopped.
    pub(crate) fn bump(&mut self, kind: crate::token::TokenKind) -> (r: crate::token::Token)
        requires
            old(self).wf(),
        ensures
            final(self).wf(),
            final(self).src() == old(self).src(),
            final(self).pos == old(self).pos,
            final(self).start == old(self).pos,
            r.kind == kind,
            r.len == byte_offset(old(self).src(), old(self).pos as int) - byte_offset(
                old(self).src(),
                old(self).start as int,
            ),
    {
        let len = self.token_len;
        self.start = self.pos;
        self.token_len = 0;
        crate::token::Token { kind, len }
    }
}

} // verus!
