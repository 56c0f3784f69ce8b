use vstd::prelude::*;

pub mod icode;

verus! {

/// Identifier of a slot in the local variable table.
#[derive(Clone, Copy, Debug, PartialEq, Eq, PartialOrd, Ord, Hash, Structural)]
pub struct LocalId(usize);

impl LocalId {
    pub closed spec fn value(&self) -> usize {
        self.0
    }

    pub fn new(id: usize) -> (r: Self)
        ensures
            r.value() == id,
    {
        LocalId(id)
    }

    pub fn as_usize(&self) -> (r: usize)
        ensures
            r == self.value(),
    {
        self.0
    }
}

/// Local ids are equal exactly when their numbers are.
pub proof fn lemma_local_id_eq(a: LocalId, b: LocalId)
    ensures
        a == b <==> a.value() == b.value(),
{
}

/// A position in the code of one executable, counted from its start.
#[derive(Clone, Copy, Debug, PartialEq, Eq, PartialOrd, Ord, Hash, Structural)]
pub struct LocalAddress(u32);

impl LocalAddress {
    pub closed spec fn value(&self) -> u32 {
        self.0
    }

    pub fn new(start: u32) -> (r: Self)
        ensures
            r.value() == start,
    {
        LocalAddress(start)
    }

    pub fn as_u32(&self) -> (r: u32)
        ensures
            r == self.value(),
    {
        self.0
    }

    pub fn as_usize(&self) -> (r: usize)
        ensures
            r == self.value(),
    {
        self.0 as usize
    }

    /// Moves the address by `offset`, forwards or backwards. The result must stay within
    /// `0..=u32::MAX` (the address overflows otherwise).
    pub fn update_by_offset(&mut self, offset: i32)
        requires
            0 <= old(self).value() + offset <= u32::MAX,
        ensures
            final(self).value() == old(self).value() + offset,
    {
        if offset > 0 {
            let offset = offset as u32;
            self.0 = self.0 + offset;
        } else {
            let offset = if offset == i32::MIN {
                0x8000_0000u32
            } else {
                (-offset) as u32
            };
            self.0 = self.0 - offset;
        }
    }
}

/// A position in the code of the whole program: an executable's id in the high bits and a
/// local address in the low 31 bits.
#[derive(Clone, Copy, Debug, PartialEq, Eq, PartialOrd, Ord, Hash, Structural)]
pub struct Address(usize);

impl Address {
    pub closed spec fn value(&self) -> usize {
        self.0
    }

    /// The address of `local` in the executable with id `id`: `id` shifted left by 31 bits,
    /// or-ed with `local`. On a 64-bit target with `local` below 2^31 it is
    /// `id * 2^31 + local`.
    pub fn new(id: u32, local: LocalAddress) -> (r: Self)
        ensures
            r.value() == (((id as usize) << 31usize) | (local.value() as usize)),
            usize::BITS == 64 && local.value() < 0x8000_0000 ==> r.value() == id as int
                * 0x8000_0000 + local.value() as int,
    {
        let i = id as usize;
        let l = local.as_usize();
        let r = i << 31usize | l;
        proof {
            if usize::BITS == 64 && l < 0x8000_0000 {
                let i64 = i as u64;
                let l64 = l as u64;
                assert((i64 << 31u64) | l64 == i64 * 0x8000_0000 + l64) by (bit_vector)
                    requires
                        i64 < 0x1_0000_0000,
                        l64 < 0x8000_0000,
                ;
                assert(r == (i64 << 31u64) | l64) by (bit_vector)
                    requires
                        usize::BITS == 64,
                        i64 == i,
                        l64 == l,
                        r == i << 31usize | l,
                ;
            }
        }
        Address(r)
    }
}

/// Moving an address by an offset and back by its opposite gives the address back.
pub proof fn law_offset_round_trip(a: u32, offset: i32)
    requires
        0 <= a + offset <= u32::MAX,
        offset != i32::MIN,
    ensures
        0 <= (a + offset) + (-offset) <= u32::MAX,
        (a + offset) + (-offset) == a,
{
}

/// On a 64-bit target, the executable's id and the local address can be read back from an
/// address whose local part is below 2^31.
pub proof fn law_address_parts(id: u32, local: u32)
    requires
        local < 0x8000_0000,
    ensures
        (id * 0x8000_0000 + local) / 0x8000_0000 == id,
        (id * 0x8000_0000 + local) % 0x8000_0000 == local,
{
    assert((id * 0x8000_0000 + local) / 0x8000_0000 == id) by (nonlinear_arith)
        requires
            local < 0x8000_0000,
    ;
    assert((id * 0x8000_0000 + local) % 0x8000_0000 == local) by (nonlinear_arith)
        requires
            local < 0x8000_0000,
    ;
}

} // verus!

verus! {

/// A map from instruction positions and extra indices to text ranges, hashed with
/// `rustc_hash`'s hasher.
pub type RangeMap = std::collections::HashMap<(usize, usize), rowan::TextRange, rustc_hash::FxBuildHasher>;

/// The ranges that a map of positions to text ranges holds.
pub uninterp spec fn range_entries(m: RangeMap) -> Map<(usize, usize), rowan::TextRange>;

/// No entry.
pub open spec fn no_ranges() -> Map<(usize, usize), rowan::TextRange> {
    Map::empty()
}

/// `FxHashMap::default()`: no entry.
#[verifier::external_body]
fn ranges_new() -> (r: RangeMap)
    ensures
        range_entries(r) == no_ranges(),
{
    rustc_hash::FxHashMap::default()
}

/// `HashMap::insert`: `key` now maps to `range`; the range it mapped to before, if any.
#[verifier::external_body]
fn ranges_insert(m: &mut RangeMap, key: (usize, usize), range: rowan::TextRange) -> (r: Option<
    rowan::TextRange,
>)
    ensures
        range_entries(*final(m)) == range_entries(*old(m)).insert(key, range),
        r == (if range_entries(*old(m)).contains_key(key) {
            Some(range_entries(*old(m))[key])
        } else {
            None
        }),
{
    m.insert(key, range)
}

/// `HashMap::get`, copied out: the range that `key` maps to, if any.
#[verifier::external_body]
fn ranges_get(m: &RangeMap, key: (usize, usize)) -> (r: Option<rowan::TextRange>)
    ensures
        r == (if range_entries(*m).contains_key(key) {
            Some(range_entries(*m)[key])
        } else {
            None
        }),
{
    m.get(&key).cloned()
}

/// The source ranges of the instructions of an executable: for an instruction's position and
/// an extra index (which of its operands), the range of the source text it came from.
pub struct SourceInfo {
    data: RangeMap,
}

impl SourceInfo {
    pub closed spec fn view(&self) -> Map<(usize, usize), rowan::TextRange> {
        range_entries(self.data)
    }

    pub fn new() -> (r: Self)
        ensures
            r.view() == no_ranges(),
    {
        SourceInfo { data: ranges_new() }
    }

    /// Records `range` for the instruction at `index` and its operand `extra`; gives the range
    /// recorded there before, if any.
    pub fn insert(&mut self, index: usize, extra: usize, range: rowan::TextRange) -> (r: Option<
        rowan::TextRange,
    >)
        ensures
            final(self).view() == old(self).view().insert((index, extra), range),
            r == (if old(self).view().contains_key((index, extra)) {
                Some(old(self).view()[(index, extra)])
            } else {
                None
            }),
    {
        ranges_insert(&mut self.data, (index, extra), range)
    }

    /// The range recorded for the instruction at `index` and its operand `extra`, if any.
    pub fn get(&self, index: usize, extra: usize) -> (r: Option<rowan::TextRange>)
        ensures
            r == (if self.view().contains_key((index, extra)) {
                Some(self.view()[(index, extra)])
            } else {
                None
            }),
    {
        ranges_get(&self.data, (index, extra))
    }
}

impl Default for SourceInfo {
    fn default() -> (r: Self)
        ensures
            r.view() == no_ranges(),
    {
        Self::new()
    }
}

} // verus!
