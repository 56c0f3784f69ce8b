use vstd::prelude::*;

verus! {

/// A stack of counters, one per open section; only the innermost one counts.
#[derive(Debug)]
pub struct NestedCounter {
    stack: Vec<usize>,
}

impl NestedCounter {
    /// The counts of the open sections, outermost first.
    pub closed spec fn view(&self) -> Seq<usize> {
        self.stack@
    }

    pub fn new() -> (r: Self)
        ensures
            r@ == Seq::<usize>::empty(),
    {
        NestedCounter { stack: Vec::new() }
    }

    /// Opens a section whose count starts at 0.
    pub fn start_section(&mut self)
        ensures
            final(self)@ == old(self)@.push(0),
    {
        self.stack.push(0);
    }

    /// Closes the innermost section, which must exist, and returns its count.
    pub fn end_section(&mut self) -> (r: usize)
        requires
            old(self)@.len() > 0,
        ensures
            r == old(self)@.last(),
            final(self)@ == old(self)@.drop_last(),
    {
        match self.stack.pop() {
            Some(count) => count,
            None => 0,
        }
    }

    /// Adds `count` to the innermost section's count, if a section is open.
    pub fn increment(&mut self, count: usize)
        requires
            old(self)@.len() > 0 ==> old(self)@.last() + count <= usize::MAX,
        ensures
            old(self)@.len() == 0 ==> final(self)@ == old(self)@,
            old(self)@.len() > 0 ==> final(self)@ == old(self)@.drop_last().push(
                (old(self)@.last() + count) as usize,
            ),
    {
        let n = self.stack.len();
        if n > 0 {
            let last = self.stack[n - 1];
            self.stack.set(n - 1, last + count);
            assert(self.stack@ =~= old(self)@.drop_last().push((old(self)@.last() + count) as usize));
        }
    }

    /// Takes `count` from the innermost section's count, if a section is open.
    pub fn decrement(&mut self, count: usize)
        requires
            old(self)@.len() > 0 ==> old(self)@.last() >= count,
        ensures
            old(self)@.len() == 0 ==> final(self)@ == old(self)@,
            old(self)@.len() > 0 ==> final(self)@ == old(self)@.drop_last().push(
                (old(self)@.last() - count) as usize,
            ),
    {
        let n = self.stack.len();
        if n > 0 {
            let last = self.stack[n - 1];
            self.stack.set(n - 1, last - count);
            assert(self.stack@ =~= old(self)@.drop_last().push((old(self)@.last() - count) as usize));
        }
    }

    /// The innermost section's count, if a section is open.
    pub fn get_current_count(&self) -> (r: Option<usize>)
        ensures
            self@.len() == 0 ==> r is None,
            self@.len() > 0 ==> r == Some(self@.last()),
    {
        let n = self.stack.len();
        if n > 0 {
            Some(self.stack[n - 1])
        } else {
            None
        }
    }
}

/// Opening a section, counting `k` in it and closing it gives back `k` and leaves the enclosing
/// counts as they were.
pub proof fn law_section_round_trip(counts: Seq<usize>, k: usize)
    ensures
        ({
            let opened = counts.push(0);
            let counted = opened.drop_last().push((opened.last() + k) as usize);
            counted.last() == k && counted.drop_last() == counts
        }),
{
    assert(counts.push(0).drop_last() =~= counts);
    assert(counts.push(k).drop_last() =~= counts);
}

/// Counting `k` and taking `k` back leaves the counts as they were.
pub proof fn law_increment_decrement(counts: Seq<usize>, k: usize)
    requires
        counts.len() > 0,
        counts.last() + k <= usize::MAX,
    ensures
        ({
            let up = counts.drop_last().push((counts.last() + k) as usize);
            let down = up.drop_last().push((up.last() - k) as usize);
            down == counts
        }),
{
    let up = counts.drop_last().push((counts.last() + k) as usize);
    assert(up.drop_last() =~= counts.drop_last());
    assert(counts.drop_last().push(counts.last()) =~= counts);
}

} // verus!
