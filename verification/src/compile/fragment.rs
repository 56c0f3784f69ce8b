use super::icode_source::ICodeSource;
use vstd::prelude::*;

verus! {

/// Positions of jumps that are still to be patched, kept in a `smallvec::SmallVec` with room
/// for four inline.
#[verifier::external_body]
pub struct JumpPositions {
    v: smallvec::SmallVec<[u32; 4]>,
}

/// The positions that `p` holds, in order.
pub uninterp spec fn positions_of(p: JumpPositions) -> Seq<u32>;

/// `SmallVec::new`: no positions.
#[verifier::external_body]
fn positions_new() -> (r: JumpPositions)
    ensures
        positions_of(r) == Seq::<u32>::empty(),
{
    JumpPositions { v: smallvec::SmallVec::new() }
}

/// `SmallVec::push`: `x` added at the end.
#[verifier::external_body]
fn positions_push(p: &mut JumpPositions, x: u32)
    ensures
        positions_of(*final(p)) == positions_of(*old(p)).push(x),
{
    p.v.push(x);
}

/// `SmallVec::clear`: no positions left.
#[verifier::external_body]
fn positions_clear(p: &mut JumpPositions)
    ensures
        positions_of(*final(p)) == Seq::<u32>::empty(),
{
    p.v.clear();
}

/// `SmallVec::to_vec`: the positions, copied into a vector.
#[verifier::external_body]
fn positions_to_vec(p: &JumpPositions) -> (r: Vec<u32>)
    ensures
        r@ == positions_of(*p),
{
    p.v.to_vec()
}

/// A piece of intermediate code, with the positions of the jumps in it that still jump to the
/// end of the piece (forward) or to its start (backward). Those positions hold tombstones until
/// they are patched.
pub struct Fragment {
    code: Vec<ICodeSource>,
    forward_jump_pos: JumpPositions,
    backward_jump_pos: JumpPositions,
}

impl Fragment {
    pub closed spec fn code_spec(&self) -> Seq<ICodeSource> {
        self.code@
    }

    pub closed spec fn forward(&self) -> Seq<u32> {
        positions_of(self.forward_jump_pos)
    }

    pub closed spec fn backward(&self) -> Seq<u32> {
        positions_of(self.backward_jump_pos)
    }

    /// Every jump position lies in the code and holds a tombstone, no position is both a
    /// forward and a backward one, and the code's positions fit in `u32`.
    pub open spec fn wf(&self) -> bool {
        &&& self.code_spec().len() <= u32::MAX
        &&& forall|i: int|
            0 <= i < self.forward().len() ==> #[trigger] self.forward()[i] < self.code_spec().len()
                && self.code_spec()[self.forward()[i] as int] is Tombstone
        &&& forall|i: int|
            0 <= i < self.backward().len() ==> #[trigger] self.backward()[i]
                < self.code_spec().len() && self.code_spec()[self.backward()[i] as int] is Tombstone
        &&& forall|i: int, j: int|
            0 <= i < self.forward().len() && 0 <= j < self.backward().len() ==> #[trigger] self.forward()[i]
                != #[trigger] self.backward()[j]
    }

    pub fn new() -> (r: Self)
        ensures
            r.wf(),
            r.code_spec() == Seq::<ICodeSource>::empty(),
            r.forward() == Seq::<u32>::empty(),
            r.backward() == Seq::<u32>::empty(),
    {
        Fragment {
            code: Vec::new(),
            forward_jump_pos: positions_new(),
            backward_jump_pos: positions_new(),
        }
    }

    /// Sets every forward jump to jump `offset` past the end of the fragment: the jump at
    /// position `p` gets the distance `len - p - 1 + offset`.
    pub fn patch_forward_jump(&mut self, offset: isize)
        requires
            old(self).wf(),
            old(self).code_spec().len() <= isize::MAX,
            forall|i: int|
                0 <= i < old(self).forward().len() ==> isize::MIN <= old(self).code_spec().len()
                    - #[trigger] old(self).forward()[i] - 1 + offset <= isize::MAX,
        ensures
            final(self).wf(),
            final(self).code_spec().len() == old(self).code_spec().len(),
            forall|p: int|
                0 <= p < old(self).code_spec().len() ==> #[trigger] final(self).code_spec()[p]
                    == if old(self).forward().contains(p as u32) {
                    ICodeSource::Jump((old(self).code_spec().len() - p - 1 + offset) as isize)
                } else {
                    old(self).code_spec()[p]
                },
            final(self).forward() == Seq::<u32>::empty(),
            final(self).backward() == old(self).backward(),
    {
        let len = self.code.len();
        let positions = positions_to_vec(&self.forward_jump_pos);
        let ghost fw = positions@;
        let mut k: usize = 0;
        while k < positions.len()
            invariant
                positions@ == fw,
                fw == old(self).forward(),
                len == old(self).code_spec().len(),
                self.code@.len() == len,
                self.forward() == fw,
                self.backward() == old(self).backward(),
                old(self).wf(),
                len <= isize::MAX,
                k <= fw.len(),
                forall|i: int|
                    0 <= i < fw.len() ==> isize::MIN <= len - #[trigger] fw[i] - 1 + offset
                        <= isize::MAX,
                forall|p: int|
                    0 <= p < len ==> #[trigger] self.code@[p] == if fw.take(k as int).contains(
                        p as u32,
                    ) {
                        ICodeSource::Jump((len - p - 1 + offset) as isize)
                    } else {
                        old(self).code_spec()[p]
                    },
            decreases fw.len() - k,
        {
            let pos = positions[k] as usize;
            assert(fw[k as int] < len);
            let back = (len - pos - 1) as isize;
            let distance = back + offset;
            let ghost prev = self.code@;
            self.code.set(pos, ICodeSource::Jump(distance));
            proof {
                assert forall|p: int| 0 <= p < len implies #[trigger] self.code@[p] == if fw.take(
                    k + 1,
                ).contains(p as u32) {
                    ICodeSource::Jump((len - p - 1 + offset) as isize)
                } else {
                    old(self).code_spec()[p]
                } by {
                    assert(fw.take(k + 1) =~= fw.take(k as int).push(fw[k as int]));
                    assert(prev[p] == if fw.take(k as int).contains(p as u32) {
                        ICodeSource::Jump((len - p - 1 + offset) as isize)
                    } else {
                        old(self).code_spec()[p]
                    });
                    if p == pos {
                        assert(fw.take(k + 1)[k as int] == p as u32);
                    } else {
                        if fw.take(k + 1).contains(p as u32) {
                            let w = choose|w: int| 0 <= w < k + 1 && #[trigger] fw.take(k + 1)[w] == p as u32;
                            assert(w < k);
                            assert(fw.take(k as int)[w] == p as u32);
                        }
                        if fw.take(k as int).contains(p as u32) {
                            let w = choose|w: int| 0 <= w < k && #[trigger] fw.take(k as int)[w] == p as u32;
                            assert(fw.take(k + 1)[w] == p as u32);
                        }
                    }
                }
            }
            k = k + 1;
        }
        positions_clear(&mut self.forward_jump_pos);
        proof {
            assert(fw.take(fw.len() as int) =~= fw);
            assert forall|i: int| 0 <= i < self.backward().len() implies #[trigger] self.backward()[i]
                < self.code_spec().len() && self.code_spec()[self.backward()[i] as int] is Tombstone by {
                let b = self.backward()[i];
                assert(old(self).backward()[i] == b);
                if fw.contains(b) {
                    let w = choose|w: int| 0 <= w < fw.len() && #[trigger] fw[w] == b;
                    assert(old(self).forward()[w] != old(self).backward()[i]);
                }
            }
        }
    }

    /// Sets every backward jump to jump to `offset` from the start of the fragment: the jump
    /// at position `p` gets the distance `offset - p`.
    pub fn patch_backward_jump(&mut self, offset: isize)
        requires
            old(self).wf(),
            old(self).code_spec().len() <= isize::MAX,
            forall|i: int|
                0 <= i < old(self).backward().len() ==> isize::MIN <= offset
                    - #[trigger] old(self).backward()[i] <= isize::MAX,
        ensures
            final(self).wf(),
            final(self).code_spec().len() == old(self).code_spec().len(),
            forall|p: int|
                0 <= p < old(self).code_spec().len() ==> #[trigger] final(self).code_spec()[p]
                    == if old(self).backward().contains(p as u32) {
                    ICodeSource::Jump((offset - p) as isize)
                } else {
                    old(self).code_spec()[p]
                },
            final(self).backward() == Seq::<u32>::empty(),
            final(self).forward() == old(self).forward(),
    {
        let len = self.code.len();
        let positions = positions_to_vec(&self.backward_jump_pos);
        let ghost bw = positions@;
        let mut k: usize = 0;
        while k < positions.len()
            invariant
                positions@ == bw,
                bw == old(self).backward(),
                len == old(self).code_spec().len(),
                self.code@.len() == len,
                self.backward() == bw,
                self.forward() == old(self).forward(),
                old(self).wf(),
                len <= isize::MAX,
                k <= bw.len(),
                forall|i: int|
                    0 <= i < bw.len() ==> isize::MIN <= offset - #[trigger] bw[i] <= isize::MAX,
                forall|p: int|
                    0 <= p < len ==> #[trigger] self.code@[p] == if bw.take(k as int).contains(
                        p as u32,
                    ) {
                        ICodeSource::Jump((offset - p) as isize)
                    } else {
                        old(self).code_spec()[p]
                    },
            decreases bw.len() - k,
        {
            let pos = positions[k];
            assert(bw[k as int] < len);
            let back = pos as isize;
            let distance = offset - back;
            let ghost prev = self.code@;
            self.code.set(pos as usize, ICodeSource::Jump(distance));
            proof {
                assert forall|p: int| 0 <= p < len implies #[trigger] self.code@[p] == if bw.take(
                    k + 1,
                ).contains(p as u32) {
                    ICodeSource::Jump((offset - p) as isize)
                } else {
                    old(self).code_spec()[p]
                } by {
                    assert(bw.take(k + 1) =~= bw.take(k as int).push(bw[k as int]));
                    assert(prev[p] == if bw.take(k as int).contains(p as u32) {
                        ICodeSource::Jump((offset - p) as isize)
                    } else {
                        old(self).code_spec()[p]
                    });
                    if p == pos {
                        assert(bw.take(k + 1)[k as int] == p as u32);
                    } else {
                        if bw.take(k + 1).contains(p as u32) {
                            let w = choose|w: int| 0 <= w < k + 1 && #[trigger] bw.take(k + 1)[w] == p as u32;
                            assert(w < k);
                            assert(bw.take(k as int)[w] == p as u32);
                        }
                        if bw.take(k as int).contains(p as u32) {
                            let w = choose|w: int| 0 <= w < k && #[trigger] bw.take(k as int)[w] == p as u32;
                            assert(bw.take(k + 1)[w] == p as u32);
                        }
                    }
                }
            }
            k = k + 1;
        }
        positions_clear(&mut self.backward_jump_pos);
        proof {
            assert(bw.take(bw.len() as int) =~= bw);
            assert forall|i: int| 0 <= i < self.forward().len() implies #[trigger] self.forward()[i]
                < self.code_spec().len() && self.code_spec()[self.forward()[i] as int] is Tombstone by {
                let f = self.forward()[i];
                assert(old(self).forward()[i] == f);
                if bw.contains(f) {
                    let w = choose|w: int| 0 <= w < bw.len() && #[trigger] bw[w] == f;
                    assert(old(self).forward()[i] != old(self).backward()[w]);
                }
            }
        }
    }

    pub fn len(&self) -> (r: usize)
        ensures
            r == self.code_spec().len(),
    {
        self.code.len()
    }

    /// Adds `code` at the end.
    pub fn append(&mut self, code: ICodeSource)
        requires
            old(self).wf(),
            old(self).code_spec().len() < u32::MAX,
        ensures
            final(self).wf(),
            final(self).code_spec() == old(self).code_spec().push(code),
            final(self).forward() == old(self).forward(),
            final(self).backward() == old(self).backward(),
    {
        self.code.push(code);
        proof {
            assert forall|i: int| 0 <= i < self.forward().len() implies #[trigger] self.forward()[i]
                < self.code_spec().len() && self.code_spec()[self.forward()[i] as int] is Tombstone by {
                assert(old(self).forward()[i] < old(self).code_spec().len());
            }
            assert forall|i: int| 0 <= i < self.backward().len() implies #[trigger] self.backward()[i]
                < self.code_spec().len() && self.code_spec()[self.backward()[i] as int] is Tombstone by {
                assert(old(self).backward()[i] < old(self).code_spec().len());
            }
        }
    }

    /// Adds the instructions of `code` at the end, in order.
    pub fn append_many(&mut self, code: Vec<ICodeSource>)
        requires
            old(self).wf(),
            old(self).code_spec().len() + code@.len() <= u32::MAX,
        ensures
            final(self).wf(),
            final(self).code_spec() == old(self).code_spec() + code@,
            final(self).forward() == old(self).forward(),
            final(self).backward() == old(self).backward(),
    {
        let mut code = code;
        self.code.append(&mut code);
        proof {
            assert forall|i: int| 0 <= i < self.forward().len() implies #[trigger] self.forward()[i]
                < self.code_spec().len() && self.code_spec()[self.forward()[i] as int] is Tombstone by {
                assert(old(self).forward()[i] < old(self).code_spec().len());
            }
            assert forall|i: int| 0 <= i < self.backward().len() implies #[trigger] self.backward()[i]
                < self.code_spec().len() && self.code_spec()[self.backward()[i] as int] is Tombstone by {
                assert(old(self).backward()[i] < old(self).code_spec().len());
            }
        }
    }

    /// Adds a tombstone at the end, to be patched later as a forward jump.
    pub fn append_forward_jump(&mut self)
        requires
            old(self).wf(),
            old(self).code_spec().len() < u32::MAX,
        ensures
            final(self).wf(),
            final(self).code_spec() == old(self).code_spec().push(ICodeSource::Tombstone),
            final(self).forward() == old(self).forward().push(old(self).code_spec().len() as u32),
            final(self).backward() == old(self).backward(),
    {
        self.code.push(ICodeSource::Tombstone);
        let pos = self.code.len() - 1;
        positions_push(&mut self.forward_jump_pos, pos as u32);
        proof {
            self.lemma_wf_after_jump(*old(self), true);
        }
    }

    /// Adds a tombstone at the end, to be patched later as a backward jump.
    pub fn append_backward_jump(&mut self)
        requires
            old(self).wf(),
            old(self).code_spec().len() < u32::MAX,
        ensures
            final(self).wf(),
            final(self).code_spec() == old(self).code_spec().push(ICodeSource::Tombstone),
            final(self).backward() == old(self).backward().push(
                old(self).code_spec().len() as u32,
            ),
            final(self).forward() == old(self).forward(),
    {
        self.code.push(ICodeSource::Tombstone);
        let pos = self.code.len() - 1;
        positions_push(&mut self.backward_jump_pos, pos as u32);
        proof {
            self.lemma_wf_after_jump(*old(self), false);
        }
    }

    proof fn lemma_wf_after_jump(&self, before: Fragment, forward: bool)
        requires
            before.wf(),
            before.code_spec().len() < u32::MAX,
            self.code_spec() == before.code_spec().push(ICodeSource::Tombstone),
            forward ==> self.forward() == before.forward().push(before.code_spec().len() as u32)
                && self.backward() == before.backward(),
            !forward ==> self.backward() == before.backward().push(
                before.code_spec().len() as u32,
            ) && self.forward() == before.forward(),
        ensures
            self.wf(),
    {
        let n = before.code_spec().len();
        assert forall|i: int| 0 <= i < self.forward().len() implies #[trigger] self.forward()[i]
            < self.code_spec().len() && self.code_spec()[self.forward()[i] as int] is Tombstone by {
            if i < before.forward().len() {
                assert(self.forward()[i] == before.forward()[i]);
                assert(before.forward()[i] < n);
            }
        }
        assert forall|i: int| 0 <= i < self.backward().len() implies #[trigger] self.backward()[i]
            < self.code_spec().len() && self.code_spec()[self.backward()[i] as int] is Tombstone by {
            if i < before.backward().len() {
                assert(self.backward()[i] == before.backward()[i]);
                assert(before.backward()[i] < n);
            }
        }
        assert forall|i: int, j: int|
            0 <= i < self.forward().len() && 0 <= j < self.backward().len() implies #[trigger] self.forward()[i]
            != #[trigger] self.backward()[j] by {
            if i < before.forward().len() && j < before.backward().len() {
                assert(self.forward()[i] == before.forward()[i]);
                assert(self.backward()[j] == before.backward()[j]);
                assert(before.forward()[i] != before.backward()[j]);
            } else if i < before.forward().len() {
                assert(self.forward()[i] == before.forward()[i]);
                assert(before.forward()[i] < n);
            } else if j < before.backward().len() {
                assert(self.backward()[j] == before.backward()[j]);
                assert(before.backward()[j] < n);
            }
        }
    }

    /// Adds `fragment` at the end: its code, and its jump positions moved past this
    /// fragment's code.
    pub fn append_fragment(&mut self, fragment: Fragment)
        requires
            old(self).wf(),
            fragment.wf(),
            old(self).code_spec().len() + fragment.code_spec().len() <= u32::MAX,
        ensures
            final(self).wf(),
            final(self).code_spec() == old(self).code_spec() + fragment.code_spec(),
            final(self).forward() == old(self).forward() + fragment.forward().map_values(
                |p: u32| (p + old(self).code_spec().len()) as u32,
            ),
            final(self).backward() == old(self).backward() + fragment.backward().map_values(
                |p: u32| (p + old(self).code_spec().len()) as u32,
            ),
    {
        let len = self.code.len() as u32;
        let ghost n = old(self).code_spec().len();
        let ghost orig = fragment;
        let mut fragment = fragment;
        let other_forward = positions_to_vec(&fragment.forward_jump_pos);
        let other_backward = positions_to_vec(&fragment.backward_jump_pos);
        let ghost other_code = fragment.code@;
        self.code.append(&mut fragment.code);
        let mut k: usize = 0;
        while k < other_backward.len()
            invariant
                k <= other_backward@.len(),
                other_backward@ == orig.backward(),
                len == n,
                n + other_code.len() <= u32::MAX,
                orig.wf(),
                other_code == orig.code_spec(),
                self.code_spec() == old(self).code_spec() + other_code,
                self.forward() == old(self).forward(),
                self.backward() == old(self).backward() + other_backward@.take(k as int).map_values(
                    |p: u32| (p + n) as u32,
                ),
            decreases other_backward@.len() - k,
        {
            assert(other_backward@[k as int] < other_code.len());
            positions_push(&mut self.backward_jump_pos, other_backward[k] + len);
            proof {
                assert(other_backward@.take(k + 1).map_values(|p: u32| (p + n) as u32)
                    =~= other_backward@.take(k as int).map_values(|p: u32| (p + n) as u32).push(
                    (other_backward@[k as int] + n) as u32,
                ));
            }
            k = k + 1;
        }
        let mut k: usize = 0;
        while k < other_forward.len()
            invariant
                k <= other_forward@.len(),
                other_forward@ == orig.forward(),
                other_backward@ == orig.backward(),
                len == n,
                n + other_code.len() <= u32::MAX,
                orig.wf(),
                other_code == orig.code_spec(),
                self.code_spec() == old(self).code_spec() + other_code,
                self.backward() == old(self).backward() + other_backward@.map_values(
                    |p: u32| (p + n) as u32,
                ),
                self.forward() == old(self).forward() + other_forward@.take(k as int).map_values(
                    |p: u32| (p + n) as u32,
                ),
            decreases other_forward@.len() - k,
        {
            assert(other_forward@[k as int] < other_code.len());
            positions_push(&mut self.forward_jump_pos, other_forward[k] + len);
            proof {
                assert(other_forward@.take(k + 1).map_values(|p: u32| (p + n) as u32)
                    =~= other_forward@.take(k as int).map_values(|p: u32| (p + n) as u32).push(
                    (other_forward@[k as int] + n) as u32,
                ));
            }
            k = k + 1;
        }
        proof {
            assert(other_backward@.take(other_backward@.len() as int) =~= other_backward@);
            assert(other_forward@.take(other_forward@.len() as int) =~= other_forward@);
            let ob = old(self).backward();
            let of = old(self).forward();
            let fb = orig.backward();
            let ff = orig.forward();
            assert forall|i: int| 0 <= i < self.forward().len() implies #[trigger] self.forward()[i]
                < self.code_spec().len() && self.code_spec()[self.forward()[i] as int] is Tombstone by {
                if i < of.len() {
                    assert(self.forward()[i] == of[i]);
                    assert(of[i] < n);
                } else {
                    assert(self.forward()[i] == (ff[i - of.len()] + n) as u32);
                    assert(ff[i - of.len()] < other_code.len());
                }
            }
            assert forall|i: int| 0 <= i < self.backward().len() implies #[trigger] self.backward()[i]
                < self.code_spec().len() && self.code_spec()[self.backward()[i] as int] is Tombstone by {
                if i < ob.len() {
                    assert(self.backward()[i] == ob[i]);
                    assert(ob[i] < n);
                } else {
                    assert(self.backward()[i] == (fb[i - ob.len()] + n) as u32);
                    assert(fb[i - ob.len()] < other_code.len());
                }
            }
            assert forall|i: int, j: int|
                0 <= i < self.forward().len() && 0 <= j < self.backward().len() implies #[trigger] self.forward()[i]
                != #[trigger] self.backward()[j] by {
                if i < of.len() && j < ob.len() {
                    assert(self.forward()[i] == of[i]);
                    assert(self.backward()[j] == ob[j]);
                    assert(of[i] != ob[j]);
                } else if i < of.len() {
                    assert(self.forward()[i] == of[i]);
                    assert(of[i] < n);
                    assert(self.backward()[j] == (fb[j - ob.len()] + n) as u32);
                } else if j < ob.len() {
                    assert(self.backward()[j] == ob[j]);
                    assert(ob[j] < n);
                    assert(self.forward()[i] == (ff[i - of.len()] + n) as u32);
                } else {
                    assert(self.forward()[i] == (ff[i - of.len()] + n) as u32);
                    assert(self.backward()[j] == (fb[j - ob.len()] + n) as u32);
                    assert(ff[i - of.len()] != fb[j - ob.len()]);
                    assert(ff[i - of.len()] < other_code.len());
                    assert(fb[j - ob.len()] < other_code.len());
                }
            }
        }
    }

    /// The code, once no jump is left to patch.
    pub fn finish(self) -> (r: Vec<ICodeSource>)
        requires
            self.wf(),
            self.forward().len() == 0,
            self.backward().len() == 0,
        ensures
            r@ == self.code_spec(),
            r@.len() <= u32::MAX,
    {
        self.code
    }

    /// The code so far.
    pub fn code(&self) -> (r: &[ICodeSource])
        ensures
            r@ == self.code_spec(),
    {
        self.code.as_slice()
    }

    /// The positions of the forward jumps still to patch.
    pub fn forward_jump_pos(&self) -> (r: Vec<u32>)
        ensures
            r@ == self.forward(),
    {
        positions_to_vec(&self.forward_jump_pos)
    }

    /// The positions of the backward jumps still to patch.
    pub fn backward_jump_pos(&self) -> (r: Vec<u32>)
        ensures
            r@ == self.backward(),
    {
        positions_to_vec(&self.backward_jump_pos)
    }
}

} // verus!
