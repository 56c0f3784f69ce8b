use core::marker::PhantomData;
use vstd::prelude::*;
use vstd::std_specs::cmp::PartialEqSpecImpl;
use vstd::string::StringExecFns;
use crate::display::{after_last_colon, decimal, push_after_last_colon, push_decimal};

verus! {

/// The position of one value in an `Arena`, counted from 1.
pub struct Index<T> {
    raw: u32,
    phantom: PhantomData<T>,
}

impl<T> Index<T> {
    /// The raw number of the index; never 0.
    pub closed spec fn raw(&self) -> u32 {
        self.raw
    }

    /// An index is never 0.
    #[verifier::type_invariant]
    pub open spec fn nonzero(&self) -> bool {
        self.raw() != 0
    }

    /// An index with raw number `raw`, which must not be 0.
    pub fn new(raw: u32) -> (r: Self)
        requires
            raw != 0,
        ensures
            r.raw() == raw,
    {
        Index { raw, phantom: PhantomData }
    }

    pub fn as_u32(&self) -> (r: u32)
        ensures
            r == self.raw(),
    {
        self.raw
    }

    /// `Index::<name>(raw)`, where `name` is what follows the last `:` of `type_path`, the
    /// name of `T`.
    pub fn debug_text(&self, type_path: &str) -> (r: String)
        ensures
            r@ == "Index::<"@ + after_last_colon(type_path@) + ">("@ + decimal(self.raw() as nat)
                + ")"@,
    {
        let mut s = String::from_str("Index::<");
        push_after_last_colon(&mut s, type_path);
        s.append(">(");
        push_decimal(&mut s, self.raw as u64);
        s.append(")");
        s
    }
}

impl<T> Clone for Index<T> {
    fn clone(&self) -> (r: Self)
        ensures
            r.raw() == self.raw(),
    {
        proof {
            use_type_invariant(self);
        }
        Index { raw: self.raw, phantom: PhantomData }
    }
}

impl<T> Copy for Index<T> {
}

impl<T> PartialEq for Index<T> {
    fn eq(&self, other: &Self) -> (r: bool) {
        self.raw == other.raw
    }
}

impl<T> Eq for Index<T> {
}

impl<T> PartialEqSpecImpl for Index<T> {
    open spec fn obeys_eq_spec() -> bool {
        true
    }

    open spec fn eq_spec(&self, other: &Self) -> bool {
        self.raw() == other.raw()
    }
}

/// A run of consecutive values in an `Arena`: the raw numbers from `start` up to, not
/// including, `end`, counted from 1.
pub struct Slice<T> {
    start: u32,
    end: u32,
    phantom: PhantomData<T>,
}

impl<T> Slice<T> {
    pub closed spec fn start(&self) -> u32 {
        self.start
    }

    pub closed spec fn end(&self) -> u32 {
        self.end
    }

    /// A slice from `start` to `end`; both must be non-zero and `start` must not exceed `end`.
    pub fn new(start: u32, end: u32) -> (r: Self)
        requires
            start != 0,
            end != 0,
            start <= end,
        ensures
            r.start() == start,
            r.end() == end,
    {
        Slice { start, end, phantom: PhantomData }
    }

    /// Number of values in the slice.
    pub fn len(&self) -> (r: usize)
        requires
            self.start() <= self.end(),
        ensures
            r == self.end() - self.start(),
    {
        (self.end - self.start) as usize
    }

    pub fn is_empty(&self) -> (r: bool)
        ensures
            r == (self.start() == self.end()),
    {
        self.start == self.end
    }

    /// The raw numbers of the first value and of the one after the last.
    pub(crate) fn bounds(&self) -> (r: (u32, u32))
        ensures
            r == (self.start(), self.end()),
    {
        (self.start, self.end)
    }

    /// `Slice::<name>(start..end)`, where `name` is what follows the last `:` of `type_path`,
    /// the name of `T`.
    pub fn debug_text(&self, type_path: &str) -> (r: String)
        ensures
            r@ == "Slice::<"@ + after_last_colon(type_path@) + ">("@ + decimal(self.start() as nat)
                + ".."@ + decimal(self.end() as nat) + ")"@,
    {
        let mut s = String::from_str("Slice::<");
        push_after_last_colon(&mut s, type_path);
        s.append(">(");
        push_decimal(&mut s, self.start as u64);
        s.append("..");
        push_decimal(&mut s, self.end as u64);
        s.append(")");
        s
    }

    /// Start and end packed into one number: the start in the high 32 bits.
    pub fn as_u64(&self) -> (r: u64)
        ensures
            r == self.start() as u64 * 0x1_0000_0000 + self.end() as u64,
    {
        let s = self.start as u64;
        let e = self.end as u64;
        let r = s << 32u64 | e;
        assert(s << 32u64 | e == s * 0x1_0000_0000 + e) by (bit_vector)
            requires
                s < 0x1_0000_0000,
                e < 0x1_0000_0000,
        ;
        r
    }
}

impl<T> Clone for Slice<T> {
    fn clone(&self) -> (r: Self)
        ensures
            r.start() == self.start(),
            r.end() == self.end(),
    {
        Slice { start: self.start, end: self.end, phantom: PhantomData }
    }
}

impl<T> Copy for Slice<T> {
}

impl<T> PartialEq for Slice<T> {
    fn eq(&self, other: &Self) -> (r: bool) {
        self.start == other.start && self.end == other.end
    }
}

impl<T> Eq for Slice<T> {
}

impl<T> PartialEqSpecImpl for Slice<T> {
    open spec fn obeys_eq_spec() -> bool {
        true
    }

    open spec fn eq_spec(&self, other: &Self) -> bool {
        self.start() == other.start() && self.end() == other.end()
    }
}

/// Values stored one after another; an `Index` or a `Slice` names them.
pub struct Arena<T> {
    data: Vec<T>,
}

impl<T> Arena<T> {
    /// The values, in the order they were allocated.
    pub closed spec fn view(&self) -> Seq<T> {
        self.data@
    }

    pub fn new() -> (r: Self)
        ensures
            r@ == Seq::<T>::empty(),
    {
        Arena { data: Vec::new() }
    }

    /// Stores `value` at the end; returns its index, which is the new number of values.
    ///
    /// The arena must not already hold `u32::MAX` values.
    pub fn alloc_value(&mut self, value: T) -> (r: Index<T>)
        requires
            old(self)@.len() < u32::MAX,
        ensures
            final(self)@ == old(self)@.push(value),
            r.raw() == final(self)@.len(),
    {
        self.data.push(value);
        let next_index = self.data.len();
        Index::new(next_index as u32)
    }

    /// Stores `values` at the end, in order; returns the slice that holds them.
    ///
    /// The numbers of all values, counted from 1, and the one after them must fit in `u32`.
    pub fn alloc_many(&mut self, values: Vec<T>) -> (r: Slice<T>)
        requires
            old(self)@.len() + values@.len() + 1 <= u32::MAX,
        ensures
            final(self)@ == old(self)@ + values@,
            r.start() == old(self)@.len() + 1,
            r.end() == final(self)@.len() + 1,
    {
        let start = self.data.len() + 1;
        let mut values = values;
        self.data.append(&mut values);
        let end = self.data.len() + 1;
        Slice::new(start as u32, end as u32)
    }

    pub fn len(&self) -> (r: usize)
        ensures
            r == self@.len(),
    {
        self.data.len()
    }

    pub fn is_empty(&self) -> (r: bool)
        ensures
            r == (self@.len() == 0),
    {
        self.data.len() == 0
    }

    /// The value at `index`, which must be an index of this arena.
    pub fn get(&self, index: Index<T>) -> (r: &T)
        requires
            1 <= index.raw() <= self@.len(),
        ensures
            *r == self@[index.raw() - 1],
    {
        let raw = index.as_u32() as usize;
        &self.data[raw - 1]
    }

    /// The value at `index`, to be changed in place.
    pub fn get_mut(&mut self, index: Index<T>) -> (r: &mut T)
        requires
            1 <= index.raw() <= old(self)@.len(),
        ensures
            *r == old(self)@[index.raw() - 1],
            final(self)@ == old(self)@.update(index.raw() - 1, *final(r)),
    {
        let raw = index.as_u32() as usize;
        vstd::std_specs::vec::vec_index_mut(&mut self.data, raw - 1)
    }

    /// The values of `slice`, which must lie within this arena.
    pub fn get_slice(&self, slice: Slice<T>) -> (r: &[T])
        requires
            1 <= slice.start() <= slice.end() <= self@.len() + 1,
        ensures
            r@ == self@.subrange(slice.start() - 1, slice.end() - 1),
    {
        let start = slice.start as usize;
        let end = slice.end as usize;
        &self.data[(start - 1)..(end - 1)]
    }

    /// The values of `slice`, to be changed in place.
    pub fn get_slice_mut(&mut self, slice: Slice<T>) -> (r: &mut [T])
        requires
            1 <= slice.start() <= slice.end() <= old(self)@.len() + 1,
        ensures
            r@ == old(self)@.subrange(slice.start() - 1, slice.end() - 1),
            final(r)@.len() == r@.len(),
            final(self)@ == old(self)@.subrange(0, slice.start() - 1) + final(r)@ + old(
                self,
            )@.subrange(slice.end() - 1, old(self)@.len() as int),
    {
        let start = slice.start as usize;
        let end = slice.end as usize;
        vec_range_mut(&mut self.data, start - 1, end - 1)
    }

    /// Each value with its index, in order.
    pub fn iter(&self) -> (r: Vec<(Index<T>, &T)>)
        requires
            self@.len() <= u32::MAX,
        ensures
            r@.len() == self@.len(),
            forall|i: int|
                0 <= i < r@.len() ==> (#[trigger] r@[i]).0.raw() == i + 1 && *r@[i].1 == self@[i],
    {
        let mut r: Vec<(Index<T>, &T)> = Vec::new();
        let mut i: usize = 0;
        while i < self.data.len()
            invariant
                i <= self@.len() <= u32::MAX,
                r@.len() == i,
                forall|j: int|
                    0 <= j < i ==> (#[trigger] r@[j]).0.raw() == j + 1 && *r@[j].1 == self@[j],
            decreases self@.len() - i,
        {
            r.push((Index::new((i + 1) as u32), &self.data[i]));
            i = i + 1;
        }
        r
    }
}

/// `IndexMut` of `Vec` with a range: the sub-slice from `start` to `end`, to be changed in
/// place. The documentation of `std` gives that the slice holds those elements, keeps its length,
/// and that the vector afterwards holds what the slice was changed to.
#[verifier::external_body]
fn vec_range_mut<T>(v: &mut Vec<T>, start: usize, end: usize) -> (r: &mut [T])
    requires
        start <= end <= old(v)@.len(),
    ensures
        r@ == old(v)@.subrange(start as int, end as int),
        final(r)@.len() == r@.len(),
        final(v)@ == old(v)@.subrange(0, start as int) + final(r)@ + old(v)@.subrange(
            end as int,
            old(v)@.len() as int,
        ),
{
    &mut v[start..end]
}

/// What `alloc_value` and `alloc_many` hand out reads back what was stored: the index of a
/// value allocated is a valid index that `get` reads as that value, the slice of values
/// allocated together is a valid slice that `get_slice` reads as those values, and every index
/// handed out before still reads as it did.
pub proof fn law_allocations_read_back<T>(
    before: &Arena<T>,
    after_one: &Arena<T>,
    index: Index<T>,
    value: T,
    after_many: &Arena<T>,
    slice: Slice<T>,
    values: Seq<T>,
    earlier: Index<T>,
)
    requires
        after_one@ == before@.push(value),
        index.raw() == after_one@.len(),
        after_many@ == before@ + values,
        slice.start() == before@.len() + 1,
        slice.end() == after_many@.len() + 1,
        1 <= earlier.raw() <= before@.len(),
    ensures
        1 <= index.raw() <= after_one@.len(),
        after_one@[index.raw() - 1] == value,
        1 <= slice.start() <= slice.end() <= after_many@.len() + 1,
        after_many@.subrange(slice.start() - 1, slice.end() - 1) == values,
        after_one@[earlier.raw() - 1] == before@[earlier.raw() - 1],
        after_many@[earlier.raw() - 1] == before@[earlier.raw() - 1],
{
    assert(after_many@.subrange(slice.start() - 1, slice.end() - 1) =~= values);
}

} // verus!
