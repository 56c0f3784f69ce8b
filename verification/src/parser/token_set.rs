use crate::syntax_kind::SyntaxKind;
use vstd::prelude::*;

verus! {

/// A set of syntax kinds, one bit per kind.
#[derive(Clone, Copy, Debug, PartialEq, Eq, Structural)]
pub struct TokenSet(u128);

/// Bit `i` of `a` is set.
pub open spec fn bit_set(a: u128, i: u8) -> bool {
    (a >> (i as u128)) & 1 == 1
}

proof fn lemma_bits(a: u128, b: u128, i: u8, j: u8)
    by (bit_vector)
    requires
        i < 128,
        j < 128,
    ensures
        ((a | (1u128 << (j as u128))) >> (i as u128)) & 1 == 1 <==> ((a >> (i as u128)) & 1 == 1
            || i == j),
        ((a | b) >> (i as u128)) & 1 == 1 <==> ((a >> (i as u128)) & 1 == 1 || (b >> (
        i as u128)) & 1 == 1),
        (0u128 >> (i as u128)) & 1 != 1,
{
}

impl TokenSet {
    pub closed spec fn has(self, k: SyntaxKind) -> bool {
        bit_set(self.0, k.index())
    }

    /// The set of the kinds in `kinds`.
    pub fn new(kinds: Vec<SyntaxKind>) -> (r: TokenSet)
        ensures
            forall|k: SyntaxKind| r.has(k) <==> kinds@.contains(k),
    {
        let mut bits: u128 = 0;
        let mut i: usize = 0;
        assert forall|k: SyntaxKind| bit_set(bits, k.index()) <==> kinds@.take(0).contains(k) by {
            crate::syntax_kind::lemma_index_bound(k);
            lemma_bits(0, 0, k.index(), 0);
        }
        while i < kinds.len()
            invariant
                i <= kinds@.len(),
                forall|k: SyntaxKind|
                    bit_set(bits, k.index()) <==> kinds@.take(i as int).contains(k),
            decreases kinds@.len() - i,
        {
            let k = kinds[i];
            let j = k.as_u8();
            let next = bits | (1u128 << (j as u128));
            proof {
                assert forall|k2: SyntaxKind|
                    bit_set(next, k2.index()) <==> kinds@.take(i + 1).contains(k2) by {
                    crate::syntax_kind::lemma_index_bound(k2);
                    crate::syntax_kind::lemma_index_bound(k);
                    lemma_bits(bits, 0, k2.index(), j);
                    assert(bit_set(next, k2.index()) <==> (bit_set(bits, k2.index()) || k2.index() == j));
                    crate::syntax_kind::lemma_index_injective(k2, k);
                    assert(k2.index() == j <==> k2 == k);
                    assert(kinds@.take(i + 1)[i as int] == k);
                    assert(kinds@.take(i + 1) =~= kinds@.take(i as int).push(k));
                    if kinds@.take(i as int).contains(k2) {
                        let w = choose|w: int|
                            0 <= w < kinds@.take(i as int).len() && #[trigger] kinds@.take(i as int)[w] == k2;
                        assert(kinds@.take(i + 1)[w] == k2);
                    }
                    if kinds@.take(i + 1).contains(k2) && k2 != k {
                        let w = choose|w: int|
                            0 <= w < kinds@.take(i + 1).len() && #[trigger] kinds@.take(i + 1)[w] == k2;
                        assert(kinds@.take(i as int)[w] == k2);
                    }
                }
            }
            bits = next;
            i = i + 1;
        }
        assert(kinds@.take(kinds@.len() as int) =~= kinds@);
        TokenSet(bits)
    }

    /// The kinds of both sets.
    pub fn union(self, other: TokenSet) -> (r: TokenSet)
        ensures
            forall|k: SyntaxKind| r.has(k) <==> self.has(k) || other.has(k),
    {
        let r = TokenSet(self.0 | other.0);
        assert forall|k: SyntaxKind| r.has(k) <==> self.has(k) || other.has(k) by {
            crate::syntax_kind::lemma_index_bound(k);
            lemma_bits(self.0, other.0, k.index(), 0);
        }
        r
    }

    /// The kinds of `self` and those of `kinds`.
    pub fn unions(self, kinds: Vec<SyntaxKind>) -> (r: TokenSet)
        ensures
            forall|k: SyntaxKind| r.has(k) <==> self.has(k) || kinds@.contains(k),
    {
        self.union(TokenSet::new(kinds))
    }

    pub fn contains(&self, kind: SyntaxKind) -> (r: bool)
        ensures
            r == self.has(kind),
    {
        let j = kind.as_u8();
        (self.0 >> (j as u128)) & 1 == 1
    }
}

} // verus!
