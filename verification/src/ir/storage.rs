use super::item::{Effect, Symbol, TableKeyName, Value};
use crate::collections::arena::{Arena, Index, Slice};
use crate::collections::reversed;
use vstd::prelude::*;

verus! {

/// A token of the source, as the intermediate representation keeps it: its range and its text.
#[derive(Clone, PartialEq, Eq)]
pub struct SourceToken {
    range: rowan::TextRange,
    text: String,
}

impl SourceToken {
    pub closed spec fn spec_range(&self) -> rowan::TextRange {
        self.range
    }

    pub closed spec fn spec_text(&self) -> Seq<char> {
        self.text@
    }

    pub fn new(range: rowan::TextRange, text: String) -> (r: Self)
        ensures
            r.spec_range() == range,
            r.spec_text() == text@,
    {
        SourceToken { range, text }
    }

    /// The range of the token in the source.
    pub fn text_range(&self) -> (r: rowan::TextRange)
        ensures
            r == self.spec_range(),
    {
        self.range
    }

    /// The text of the token.
    pub fn text(&self) -> (r: &str)
        ensures
            r@ == self.spec_text(),
    {
        self.text.as_str()
    }
}

/// One entry of a storage, with the range of the syntax it comes from.
pub enum RawData {
    Value(rowan::TextRange, Value),
    Effect(rowan::TextRange, Effect),
    String(SourceToken, String),
    Symbol(SourceToken, Symbol),
}

/// The values, effects, strings and symbols of a module, which keys name.
pub struct Strage {
    arena: Arena<RawData>,
}

impl Strage {
    /// The entries, in the order they were added; a key's raw number `n` names entry `n - 1`.
    pub closed spec fn view(&self) -> Seq<RawData> {
        self.arena@
    }

    /// The entries that the raw numbers `start` up to, not including, `end` name.
    pub open spec fn entries(&self, start: u32, end: u32) -> Seq<RawData> {
        self@.subrange(start - 1, end - 1)
    }

    /// The raw numbers `start` up to, not including, `end` name entries of this storage.
    pub open spec fn holds_run(&self, start: u32, end: u32) -> bool {
        1 <= start <= end <= self@.len() + 1
    }

    /// The entry at position `pos`, counted from 0.
    pub(crate) fn entry(&self, pos: usize) -> (r: &RawData)
        requires
            pos < self@.len(),
            pos < u32::MAX,
        ensures
            *r == self@[pos as int],
    {
        let i = Index::new((pos + 1) as u32);
        self.arena.get(i)
    }
}

/// The symbols among `entries`, in order.
pub open spec fn symbols_of(entries: Seq<RawData>) -> Seq<(SourceToken, Symbol)>
    decreases entries.len(),
{
    if entries.len() == 0 {
        Seq::empty()
    } else {
        let rest = symbols_of(entries.drop_last());
        match entries.last() {
            RawData::Symbol(t, s) => rest.push((t, s)),
            _ => rest,
        }
    }
}

/// The effects among `entries`, in order.
pub open spec fn effects_of(entries: Seq<RawData>) -> Seq<(rowan::TextRange, Effect)>
    decreases entries.len(),
{
    if entries.len() == 0 {
        Seq::empty()
    } else {
        let rest = effects_of(entries.drop_last());
        match entries.last() {
            RawData::Effect(r, e) => rest.push((r, e)),
            _ => rest,
        }
    }
}

/// Names a value, or no value (raw number 0).
#[derive(Clone, Copy, PartialEq, Eq)]
pub struct ValueKey(Option<Index<RawData>>);

impl ValueKey {
    /// The raw number of the entry; 0 when there is none.
    pub closed spec fn raw(&self) -> u32 {
        match self.0 {
            Some(i) => i.raw(),
            None => 0,
        }
    }

    pub fn as_u32(&self) -> (r: u32)
        ensures
            r == self.raw(),
    {
        match self.0 {
            Some(i) => i.as_u32(),
            None => 0,
        }
    }

    /// The key names nothing, or a value of `strage`.
    pub open spec fn valid_in(&self, strage: &Strage) -> bool {
        self.raw() != 0 ==> self.raw() <= strage@.len() && strage@[self.raw() - 1] is Value
    }

    /// The value that the key names, with its range; none for the missing value.
    pub fn get<'s>(&self, strage: &'s Strage) -> (r: Option<(&'s rowan::TextRange, &'s Value)>)
        requires
            self.valid_in(strage),
        ensures
            self.raw() == 0 <==> r is None,
            r is Some ==> strage@[self.raw() - 1] == RawData::Value(*(r->0).0, *(r->0).1),
    {
        match self.0 {
            None => None,
            Some(i) => {
                proof {
                    use_type_invariant(&i);
                }
                match strage.arena.get(i) {
                    RawData::Value(ptr, value) => Some((ptr, value)),
                    _ => None,
                }
            },
        }
    }
}

/// Names a run of values.
#[derive(Clone, Copy, PartialEq, Eq)]
pub struct ValueSliceKey(Slice<RawData>);

impl ValueSliceKey {
    pub closed spec fn start(&self) -> u32 {
        self.0.start()
    }

    pub closed spec fn end(&self) -> u32 {
        self.0.end()
    }

    /// The key names values of `strage` only.
    pub open spec fn valid_in(&self, strage: &Strage) -> bool {
        &&& strage.holds_run(self.start(), self.end())
        &&& forall|j: int|
            0 <= j < self.end() - self.start() ==> #[trigger] strage.entries(
                self.start(),
                self.end(),
            )[j] is Value
    }

    /// `start` in the high 32 bits, `end` in the low ones.
    pub fn as_u64(&self) -> (r: u64)
        ensures
            r == self.start() as u64 * 0x1_0000_0000 + self.end() as u64,
    {
        self.0.as_u64()
    }

    pub fn len(&self) -> (r: usize)
        requires
            self.start() <= self.end(),
        ensures
            r == self.end() - self.start(),
    {
        self.0.len()
    }

    pub fn is_empty(&self) -> (r: bool)
        ensures
            r == (self.start() == self.end()),
    {
        self.0.is_empty()
    }

    /// The values that the key names, in order, with their ranges.
    pub fn get<'s>(&self, strage: &'s Strage) -> (r: Vec<(&'s rowan::TextRange, &'s Value)>)
        requires
            self.valid_in(strage),
        ensures
            r@.len() == self.end() - self.start(),
            forall|j: int|
                0 <= j < r@.len() ==> strage.entries(self.start(), self.end())[j]
                    == RawData::Value(*(#[trigger] r@[j]).0, *r@[j].1),
    {
        let data = strage.arena.get_slice(self.0);
        let mut r: Vec<(&'s rowan::TextRange, &'s Value)> = Vec::new();
        let mut j: usize = 0;
        while j < data.len()
            invariant
                data@ == strage.entries(self.start(), self.end()),
                self.valid_in(strage),
                j <= data@.len(),
                r@.len() == j,
                forall|k: int|
                    0 <= k < j ==> data@[k] == RawData::Value(*(#[trigger] r@[k]).0, *r@[k].1),
            decreases data@.len() - j,
        {
            match &data[j] {
                RawData::Value(ptr, value) => r.push((ptr, value)),
                _ => {},
            }
            j = j + 1;
        }
        r
    }
}

/// Names a run of effects.
#[derive(Clone, Copy, PartialEq, Eq)]
pub struct EffectsKey(Slice<RawData>);

impl EffectsKey {
    pub closed spec fn start(&self) -> u32 {
        self.0.start()
    }

    pub closed spec fn end(&self) -> u32 {
        self.0.end()
    }

    /// The key names effects of `strage` only.
    pub open spec fn valid_in(&self, strage: &Strage) -> bool {
        &&& strage.holds_run(self.start(), self.end())
        &&& forall|j: int|
            0 <= j < self.end() - self.start() ==> #[trigger] strage.entries(
                self.start(),
                self.end(),
            )[j] is Effect
    }

    /// `start` in the high 32 bits, `end` in the low ones.
    pub fn as_u64(&self) -> (r: u64)
        ensures
            r == self.start() as u64 * 0x1_0000_0000 + self.end() as u64,
    {
        self.0.as_u64()
    }

    pub fn len(&self) -> (r: usize)
        requires
            self.start() <= self.end(),
        ensures
            r == self.end() - self.start(),
    {
        self.0.len()
    }

    pub fn is_empty(&self) -> (r: bool)
        ensures
            r == (self.start() == self.end()),
    {
        self.0.is_empty()
    }

    /// The effects that the key names, in order, with their ranges.
    pub fn get<'s>(&self, strage: &'s Strage) -> (r: Vec<(&'s rowan::TextRange, &'s Effect)>)
        requires
            self.valid_in(strage),
        ensures
            r@.len() == self.end() - self.start(),
            forall|j: int|
                0 <= j < r@.len() ==> strage.entries(self.start(), self.end())[j]
                    == RawData::Effect(*(#[trigger] r@[j]).0, *r@[j].1),
    {
        let data = strage.arena.get_slice(self.0);
        let mut r: Vec<(&'s rowan::TextRange, &'s Effect)> = Vec::new();
        let mut j: usize = 0;
        while j < data.len()
            invariant
                data@ == strage.entries(self.start(), self.end()),
                self.valid_in(strage),
                j <= data@.len(),
                r@.len() == j,
                forall|k: int|
                    0 <= k < j ==> data@[k] == RawData::Effect(*(#[trigger] r@[k]).0, *r@[k].1),
            decreases data@.len() - j,
        {
            match &data[j] {
                RawData::Effect(ptr, effect) => r.push((ptr, effect)),
                _ => {},
            }
            j = j + 1;
        }
        r
    }
}

/// Names a string, or no string (raw number 0).
#[derive(Clone, Copy, PartialEq, Eq)]
pub struct StringKey(Option<Index<RawData>>);

impl StringKey {
    /// The raw number of the entry; 0 when there is none.
    pub closed spec fn raw(&self) -> u32 {
        match self.0 {
            Some(i) => i.raw(),
            None => 0,
        }
    }

    pub fn as_u64(&self) -> (r: u64)
        ensures
            r == self.raw(),
    {
        match self.0 {
            Some(i) => i.as_u32() as u64,
            None => 0,
        }
    }

    /// The key names nothing, or a string of `strage`.
    pub open spec fn valid_in(&self, strage: &Strage) -> bool {
        self.raw() != 0 ==> self.raw() <= strage@.len() && strage@[self.raw() - 1] is String
    }

    /// The string that the key names, with its token; none for the missing string.
    pub fn get<'s>(&self, strage: &'s Strage) -> (r: Option<(&'s SourceToken, &'s String)>)
        requires
            self.valid_in(strage),
        ensures
            self.raw() == 0 <==> r is None,
            r is Some ==> strage@[self.raw() - 1] == RawData::String(*(r->0).0, *(r->0).1),
    {
        match self.0 {
            None => None,
            Some(i) => {
                proof {
                    use_type_invariant(&i);
                }
                match strage.arena.get(i) {
                    RawData::String(token, string) => Some((token, string)),
                    _ => None,
                }
            },
        }
    }
}

/// Names a run of strings.
#[derive(Clone, Copy, PartialEq, Eq)]
pub struct StringSliceKey(Slice<RawData>);

impl StringSliceKey {
    pub closed spec fn start(&self) -> u32 {
        self.0.start()
    }

    pub closed spec fn end(&self) -> u32 {
        self.0.end()
    }

    /// The key names strings of `strage` only.
    pub open spec fn valid_in(&self, strage: &Strage) -> bool {
        &&& strage.holds_run(self.start(), self.end())
        &&& forall|j: int|
            0 <= j < self.end() - self.start() ==> #[trigger] strage.entries(
                self.start(),
                self.end(),
            )[j] is String
    }

    /// `start` in the high 32 bits, `end` in the low ones.
    pub fn as_u64(&self) -> (r: u64)
        ensures
            r == self.start() as u64 * 0x1_0000_0000 + self.end() as u64,
    {
        self.0.as_u64()
    }

    pub fn len(&self) -> (r: usize)
        requires
            self.start() <= self.end(),
        ensures
            r == self.end() - self.start(),
    {
        self.0.len()
    }

    pub fn is_empty(&self) -> (r: bool)
        ensures
            r == (self.start() == self.end()),
    {
        self.0.is_empty()
    }

    /// The strings that the key names, in order, with their tokens.
    pub fn get<'s>(&self, strage: &'s Strage) -> (r: Vec<(&'s SourceToken, &'s String)>)
        requires
            self.valid_in(strage),
        ensures
            r@.len() == self.end() - self.start(),
            forall|j: int|
                0 <= j < r@.len() ==> strage.entries(self.start(), self.end())[j]
                    == RawData::String(*(#[trigger] r@[j]).0, *r@[j].1),
    {
        let data = strage.arena.get_slice(self.0);
        let mut r: Vec<(&'s SourceToken, &'s String)> = Vec::new();
        let mut j: usize = 0;
        while j < data.len()
            invariant
                data@ == strage.entries(self.start(), self.end()),
                self.valid_in(strage),
                j <= data@.len(),
                r@.len() == j,
                forall|k: int|
                    0 <= k < j ==> data@[k] == RawData::String(*(#[trigger] r@[k]).0, *r@[k].1),
            decreases data@.len() - j,
        {
            match &data[j] {
                RawData::String(token, string) => r.push((token, string)),
                _ => {},
            }
            j = j + 1;
        }
        r
    }
}

/// Names a symbol, or no symbol (raw number 0).
#[derive(Clone, Copy, PartialEq, Eq)]
pub struct SymbolKey(Option<Index<RawData>>);

impl SymbolKey {
    /// The raw number of the entry; 0 when there is none.
    pub closed spec fn raw(&self) -> u32 {
        match self.0 {
            Some(i) => i.raw(),
            None => 0,
        }
    }

    pub fn as_u32(&self) -> (r: u32)
        ensures
            r == self.raw(),
    {
        match self.0 {
            Some(i) => i.as_u32(),
            None => 0,
        }
    }

    /// The key names nothing, or a symbol of `strage`.
    pub open spec fn valid_in(&self, strage: &Strage) -> bool {
        self.raw() != 0 ==> self.raw() <= strage@.len() && strage@[self.raw() - 1] is Symbol
    }

    /// The symbol that the key names, with its token; none for the missing symbol.
    pub fn get<'s>(&self, strage: &'s Strage) -> (r: Option<(&'s SourceToken, &'s Symbol)>)
        requires
            self.valid_in(strage),
        ensures
            self.raw() == 0 <==> r is None,
            r is Some ==> strage@[self.raw() - 1] == RawData::Symbol(*(r->0).0, *(r->0).1),
    {
        match self.0 {
            None => None,
            Some(i) => {
                proof {
                    use_type_invariant(&i);
                }
                match strage.arena.get(i) {
                    RawData::Symbol(token, symbol) => Some((token, symbol)),
                    _ => None,
                }
            },
        }
    }
}

/// Names a function: the run of its parameters' symbols and its effects.
#[derive(Clone, Copy, PartialEq, Eq)]
pub struct FunctionKey(Slice<RawData>);

impl FunctionKey {
    pub closed spec fn start(&self) -> u32 {
        self.0.start()
    }

    pub closed spec fn end(&self) -> u32 {
        self.0.end()
    }

    /// The key names a run of entries of `strage`.
    pub open spec fn valid_in(&self, strage: &Strage) -> bool {
        strage.holds_run(self.start(), self.end())
    }

    /// The raw numbers of the first entry and of the one after the last.
    pub(crate) fn bounds(&self) -> (r: (u32, u32))
        ensures
            r == (self.start(), self.end()),
    {
        self.0.bounds()
    }

    /// `start` in the high 32 bits, `end` in the low ones.
    pub fn as_u64(&self) -> (r: u64)
        ensures
            r == self.start() as u64 * 0x1_0000_0000 + self.end() as u64,
    {
        self.0.as_u64()
    }

    /// The parameters and the effects of the function, each in order: the symbols and the
    /// effects among its entries.
    pub fn get<'s>(&self, strage: &'s Strage) -> (r: (
        Vec<(&'s SourceToken, &'s Symbol)>,
        Vec<(&'s rowan::TextRange, &'s Effect)>,
    ))
        requires
            self.valid_in(strage),
        ensures
            r.0@.len() == symbols_of(strage.entries(self.start(), self.end())).len(),
            forall|j: int|
                0 <= j < r.0@.len() ==> symbols_of(strage.entries(self.start(), self.end()))[j]
                    == (*(#[trigger] r.0@[j]).0, *r.0@[j].1),
            r.1@.len() == effects_of(strage.entries(self.start(), self.end())).len(),
            forall|j: int|
                0 <= j < r.1@.len() ==> effects_of(strage.entries(self.start(), self.end()))[j]
                    == (*(#[trigger] r.1@[j]).0, *r.1@[j].1),
    {
        let data = strage.arena.get_slice(self.0);
        let ghost entries = data@;
        let mut symbols: Vec<(&'s SourceToken, &'s Symbol)> = Vec::new();
        let mut effects: Vec<(&'s rowan::TextRange, &'s Effect)> = Vec::new();
        let mut j: usize = 0;
        while j < data.len()
            invariant
                entries == data@,
                j <= data@.len(),
                symbols@.len() == symbols_of(entries.take(j as int)).len(),
                forall|k: int|
                    0 <= k < symbols@.len() ==> symbols_of(entries.take(j as int))[k] == (
                        *(#[trigger] symbols@[k]).0,
                        *symbols@[k].1,
                    ),
                effects@.len() == effects_of(entries.take(j as int)).len(),
                forall|k: int|
                    0 <= k < effects@.len() ==> effects_of(entries.take(j as int))[k] == (
                        *(#[trigger] effects@[k]).0,
                        *effects@[k].1,
                    ),
            decreases data@.len() - j,
        {
            proof {
                assert(entries.take(j + 1).drop_last() =~= entries.take(j as int));
            }
            match &data[j] {
                RawData::Symbol(token, symbol) => symbols.push((token, symbol)),
                RawData::Effect(ptr, effect) => effects.push((ptr, effect)),
                _ => {},
            }
            j = j + 1;
        }
        proof {
            assert(entries.take(j as int) =~= entries);
        }
        (symbols, effects)
    }
}


/// A value key names nothing, or a value placed before position `p`.
pub open spec fn value_key_before(s: Seq<RawData>, k: ValueKey, p: int) -> bool {
    k.raw() != 0 ==> k.raw() <= p && s[k.raw() - 1] is Value
}

/// A string key names nothing, or a string placed before position `p`.
pub open spec fn string_key_before(s: Seq<RawData>, k: StringKey, p: int) -> bool {
    k.raw() != 0 ==> k.raw() <= p && s[k.raw() - 1] is String
}

/// A symbol key names nothing, or a symbol placed before position `p`.
pub open spec fn symbol_key_before(s: Seq<RawData>, k: SymbolKey, p: int) -> bool {
    k.raw() != 0 ==> k.raw() <= p && s[k.raw() - 1] is Symbol
}

/// The raw numbers `start` up to `end` name entries placed before position `p`.
pub open spec fn run_before(start: u32, end: u32, p: int) -> bool {
    1 <= start <= end && end - 1 <= p
}

/// A key of a run of values names values placed before position `p`.
pub open spec fn values_key_before(s: Seq<RawData>, k: ValueSliceKey, p: int) -> bool {
    &&& run_before(k.start(), k.end(), p)
    &&& forall|q: int| k.start() - 1 <= q < k.end() - 1 ==> #[trigger] s[q] is Value
}

/// A key of a run of effects names effects placed before position `p`.
pub open spec fn effects_key_before(s: Seq<RawData>, k: EffectsKey, p: int) -> bool {
    &&& run_before(k.start(), k.end(), p)
    &&& forall|q: int| k.start() - 1 <= q < k.end() - 1 ==> #[trigger] s[q] is Effect
}

/// A key of a run of strings names strings placed before position `p`.
pub open spec fn strings_key_before(s: Seq<RawData>, k: StringSliceKey, p: int) -> bool {
    &&& run_before(k.start(), k.end(), p)
    &&& forall|q: int| k.start() - 1 <= q < k.end() - 1 ==> #[trigger] s[q] is String
}

/// A function key names entries placed before position `p`.
pub open spec fn function_key_before(k: FunctionKey, p: int) -> bool {
    run_before(k.start(), k.end(), p)
}

/// The fields of a table name values and strings placed before position `p`.
pub open spec fn fields_before(s: Seq<RawData>, fields: Seq<(TableKeyName, ValueKey)>, p: int) -> bool {
    forall|i: int|
        0 <= i < fields.len() ==> (match #[trigger] fields[i].0 {
            TableKeyName::Value(k) => value_key_before(s, k, p),
            TableKeyName::String(k) => string_key_before(s, k, p),
        }) && value_key_before(s, fields[i].1, p)
}

/// Every key of the effect names an entry, of the right kind, placed before position `p`.
pub open spec fn effect_refs_before(s: Seq<RawData>, e: Effect, p: int) -> bool {
    match e {
        Effect::MakeLocal { name, value } => symbol_key_before(s, name, p) && value_key_before(
            s,
            value,
            p,
        ),
        Effect::MakeFunc { name, func } => symbol_key_before(s, name, p) && function_key_before(
            func,
            p,
        ),
        Effect::SetLocal { local, value } => symbol_key_before(s, local, p) && value_key_before(
            s,
            value,
            p,
        ),
        Effect::SetIndex { target, index, value } => value_key_before(s, target, p)
            && value_key_before(s, index, p) && value_key_before(s, value, p),
        Effect::SetField { target, field, value } => value_key_before(s, target, p)
            && string_key_before(s, field, p) && value_key_before(s, value, p),
        Effect::SetFieldFunc { table, path, func } => symbol_key_before(s, table, p)
            && strings_key_before(s, path, p) && function_key_before(func, p),
        Effect::SetMethod { table, path, name, func } => symbol_key_before(s, table, p)
            && strings_key_before(s, path, p) && string_key_before(s, name, p)
            && function_key_before(func, p),
        Effect::Branch { condition, then, else_ } => value_key_before(s, condition, p)
            && effects_key_before(s, then, p) && effects_key_before(s, else_, p),
        Effect::LoopFor { variable, iterable, effects } => symbol_key_before(s, variable, p)
            && value_key_before(s, iterable, p) && effects_key_before(s, effects, p),
        Effect::LoopWhile { condition, effects } => value_key_before(s, condition, p)
            && effects_key_before(s, effects, p),
        Effect::Scope { body } => effects_key_before(s, body, p),
        Effect::Call { value, args } => value_key_before(s, value, p) && values_key_before(
            s,
            args,
            p,
        ),
        Effect::MethodCall { table, name, args } => value_key_before(s, table, p)
            && string_key_before(s, name, p) && values_key_before(s, args, p),
        Effect::Return { value } => value_key_before(s, value, p),
        Effect::BreakLoop => true,
        Effect::ContinueLoop => true,
        Effect::NoEffectValue { value } => value_key_before(s, value, p),
    }
}

/// Every key of the value names an entry, of the right kind, placed before position `p`.
pub open spec fn value_refs_before(s: Seq<RawData>, v: Value, p: int) -> bool {
    match v {
        Value::Branch { condition, then, then_tail, else_, else_tail } => value_key_before(
            s,
            condition,
            p,
        ) && effects_key_before(s, then, p) && value_key_before(s, then_tail, p)
            && effects_key_before(s, else_, p) && value_key_before(s, else_tail, p),
        Value::Prefix { op: _, value } => value_key_before(s, value, p),
        Value::Binary { op: _, lhs, rhs } => value_key_before(s, lhs, p) && value_key_before(
            s,
            rhs,
            p,
        ),
        Value::Call { value, args } => value_key_before(s, value, p) && values_key_before(
            s,
            args,
            p,
        ),
        Value::Index { value, index } => value_key_before(s, value, p) && value_key_before(
            s,
            index,
            p,
        ),
        Value::Field { value, name } => value_key_before(s, value, p) && string_key_before(
            s,
            name,
            p,
        ),
        Value::MethodCall { value, name, args } => value_key_before(s, value, p)
            && string_key_before(s, name, p) && values_key_before(s, args, p),
        Value::Block { effects, tail } => effects_key_before(s, effects, p) && value_key_before(
            s,
            tail,
            p,
        ),
        Value::Local { name } => symbol_key_before(s, name, p),
        Value::Function(func) => function_key_before(func, p),
        Value::Array { elements } => values_key_before(s, elements, p),
        Value::Table { fields } => fields_before(s, fields@, p),
        _ => true,
    }
}

/// The entry at position `p` only names entries placed before it.
pub open spec fn entry_ok(s: Seq<RawData>, p: int) -> bool {
    match s[p] {
        RawData::Value(_, v) => value_refs_before(s, v, p),
        RawData::Effect(_, e) => effect_refs_before(s, e, p),
        _ => true,
    }
}

impl Strage {
    /// The entries fit in `u32` positions, and each only names entries placed before it, of
    /// the kinds its keys call for.
    pub open spec fn well_formed(&self) -> bool {
        &&& self@.len() <= u32::MAX
        &&& forall|p: int| 0 <= p < self@.len() ==> #[trigger] entry_ok(self@, p)
    }
}

/// A value added to a storage is what its key reads back: the key is valid in the storage and
/// names that value, with its range.
pub proof fn law_added_value_reads_back(
    before: Seq<RawData>,
    range: rowan::TextRange,
    v: Value,
    s: Strage,
    k: ValueKey,
)
    requires
        s@ == before.push(RawData::Value(range, v)),
        k.raw() == s@.len(),
    ensures
        k.valid_in(&s),
        s@[k.raw() - 1] == RawData::Value(range, v),
{
}

/// Adding entries to a storage changes none of those already there: every key keeps naming
/// the entry it named.
pub proof fn law_additions_keep_entries(before: Seq<RawData>, after: Seq<RawData>, raw: u32)
    requires
        before.len() <= after.len(),
        after.subrange(0, before.len() as int) == before,
        1 <= raw <= before.len(),
    ensures
        after[raw - 1] == before[raw - 1],
{
    assert(after.subrange(0, before.len() as int)[raw - 1] == after[raw - 1]);
}

/// `values` as value entries, in order.
fn value_entries(values: Vec<(rowan::TextRange, Value)>) -> (r: Vec<RawData>)
    ensures
        r@.len() == values@.len(),
        forall|j: int|
            0 <= j < values@.len() ==> #[trigger] r@[j] == RawData::Value(values@[j].0, values@[j].1),
{
    let ghost orig = values@;
    let mut rest = reversed(values);
    let mut r: Vec<RawData> = Vec::new();
    while rest.len() > 0
        invariant
            rest@.len() + r@.len() == orig.len(),
            forall|j: int| 0 <= j < rest@.len() ==> rest@[j] == orig[orig.len() - 1 - j],
            forall|j: int| 0 <= j < r@.len() ==> #[trigger] r@[j] == RawData::Value(orig[j].0, orig[j].1),
        decreases rest@.len(),
    {
        match rest.pop() {
            Some((ptr, value)) => r.push(RawData::Value(ptr, value)),
            None => {},
        }
    }
    r
}

/// `effects` as effect entries, in order.
fn effect_entries(effects: Vec<(rowan::TextRange, Effect)>) -> (r: Vec<RawData>)
    ensures
        r@.len() == effects@.len(),
        forall|j: int|
            0 <= j < effects@.len() ==> #[trigger] r@[j] == RawData::Effect(effects@[j].0, effects@[j].1),
{
    let ghost orig = effects@;
    let mut rest = reversed(effects);
    let mut r: Vec<RawData> = Vec::new();
    while rest.len() > 0
        invariant
            rest@.len() + r@.len() == orig.len(),
            forall|j: int| 0 <= j < rest@.len() ==> rest@[j] == orig[orig.len() - 1 - j],
            forall|j: int| 0 <= j < r@.len() ==> #[trigger] r@[j] == RawData::Effect(orig[j].0, orig[j].1),
        decreases rest@.len(),
    {
        match rest.pop() {
            Some((ptr, effect)) => r.push(RawData::Effect(ptr, effect)),
            None => {},
        }
    }
    r
}

/// `strings` as string entries, in order.
fn string_entries(strings: Vec<(SourceToken, String)>) -> (r: Vec<RawData>)
    ensures
        r@.len() == strings@.len(),
        forall|j: int|
            0 <= j < strings@.len() ==> #[trigger] r@[j] == RawData::String(strings@[j].0, strings@[j].1),
{
    let ghost orig = strings@;
    let mut rest = reversed(strings);
    let mut r: Vec<RawData> = Vec::new();
    while rest.len() > 0
        invariant
            rest@.len() + r@.len() == orig.len(),
            forall|j: int| 0 <= j < rest@.len() ==> rest@[j] == orig[orig.len() - 1 - j],
            forall|j: int| 0 <= j < r@.len() ==> #[trigger] r@[j] == RawData::String(orig[j].0, orig[j].1),
        decreases rest@.len(),
    {
        match rest.pop() {
            Some((token, string)) => r.push(RawData::String(token, string)),
            None => {},
        }
    }
    r
}

/// `symbols` as symbol entries, in order.
fn symbol_entries(symbols: Vec<(SourceToken, Symbol)>) -> (r: Vec<RawData>)
    ensures
        r@.len() == symbols@.len(),
        forall|j: int|
            0 <= j < symbols@.len() ==> #[trigger] r@[j] == RawData::Symbol(symbols@[j].0, symbols@[j].1),
{
    let ghost orig = symbols@;
    let mut rest = reversed(symbols);
    let mut r: Vec<RawData> = Vec::new();
    while rest.len() > 0
        invariant
            rest@.len() + r@.len() == orig.len(),
            forall|j: int| 0 <= j < rest@.len() ==> rest@[j] == orig[orig.len() - 1 - j],
            forall|j: int| 0 <= j < r@.len() ==> #[trigger] r@[j] == RawData::Symbol(orig[j].0, orig[j].1),
        decreases rest@.len(),
    {
        match rest.pop() {
            Some((token, symbol)) => r.push(RawData::Symbol(token, symbol)),
            None => {},
        }
    }
    r
}

/// Collects the entries of a module; `finish` turns it into the module's storage.
pub struct StrageBuilder {
    arena: Arena<RawData>,
}

impl StrageBuilder {
    /// The entries added so far, in order.
    pub closed spec fn view(&self) -> Seq<RawData> {
        self.arena@
    }

    pub fn new() -> (r: Self)
        ensures
            r@ == Seq::<RawData>::empty(),
    {
        StrageBuilder { arena: Arena::new() }
    }

    /// The storage of the entries added.
    pub fn finish(self) -> (r: Strage)
        ensures
            r@ == self@,
    {
        Strage { arena: self.arena }
    }

    /// Adds a value, if there is one; gives its key, or the key of no value. The storage must
    /// not already hold `u32::MAX` entries when a value is added.
    pub fn add_value(&mut self, value: Option<(rowan::TextRange, Value)>) -> (r: ValueKey)
        requires
            value is Some ==> old(self)@.len() < u32::MAX,
        ensures
            value is None ==> r.raw() == 0 && final(self)@ == old(self)@,
            value is Some ==> final(self)@ == old(self)@.push(
                RawData::Value((value->0).0, (value->0).1),
            ) && r.raw() == final(self)@.len(),
    {
        match value {
            Some((ptr, value)) => {
                let idx = self.arena.alloc_value(RawData::Value(ptr, value));
                ValueKey(Some(idx))
            },
            None => ValueKey(None),
        }
    }

    /// Adds values, in order; gives the key of their run. The entries and the one after them
    /// must be numbered within `u32`.
    pub fn add_value_many(&mut self, values: Vec<(rowan::TextRange, Value)>) -> (r: ValueSliceKey)
        requires
            old(self)@.len() + values@.len() + 1 <= u32::MAX,
        ensures
            final(self)@.len() == old(self)@.len() + values@.len(),
            final(self)@.subrange(0, old(self)@.len() as int) == old(self)@,
            forall|j: int|
                0 <= j < values@.len() ==> #[trigger] final(self)@[old(self)@.len() + j]
                    == RawData::Value(values@[j].0, values@[j].1),
            r.start() == old(self)@.len() + 1,
            r.end() == final(self)@.len() + 1,
    {
        let entries = value_entries(values);
        let slice = self.arena.alloc_many(entries);
        proof {
            assert(self@.subrange(0, old(self)@.len() as int) =~= old(self)@);
        }
        ValueSliceKey(slice)
    }

    /// Adds effects, in order; gives the key of their run. The entries and the one after them
    /// must be numbered within `u32`.
    pub fn add_effects(&mut self, effects: Vec<(rowan::TextRange, Effect)>) -> (r: EffectsKey)
        requires
            old(self)@.len() + effects@.len() + 1 <= u32::MAX,
        ensures
            final(self)@.len() == old(self)@.len() + effects@.len(),
            final(self)@.subrange(0, old(self)@.len() as int) == old(self)@,
            forall|j: int|
                0 <= j < effects@.len() ==> #[trigger] final(self)@[old(self)@.len() + j]
                    == RawData::Effect(effects@[j].0, effects@[j].1),
            r.start() == old(self)@.len() + 1,
            r.end() == final(self)@.len() + 1,
    {
        let entries = effect_entries(effects);
        let slice = self.arena.alloc_many(entries);
        proof {
            assert(self@.subrange(0, old(self)@.len() as int) =~= old(self)@);
        }
        EffectsKey(slice)
    }

    /// Adds a string, if there is one; gives its key, or the key of no string. The storage
    /// must not already hold `u32::MAX` entries when a string is added.
    pub fn add_string(&mut self, string: Option<(SourceToken, String)>) -> (r: StringKey)
        requires
            string is Some ==> old(self)@.len() < u32::MAX,
        ensures
            string is None ==> r.raw() == 0 && final(self)@ == old(self)@,
            string is Some ==> final(self)@ == old(self)@.push(
                RawData::String((string->0).0, (string->0).1),
            ) && r.raw() == final(self)@.len(),
    {
        match string {
            Some((token, string)) => {
                let idx = self.arena.alloc_value(RawData::String(token, string));
                StringKey(Some(idx))
            },
            None => StringKey(None),
        }
    }

    /// Adds strings, in order; gives the key of their run. The entries and the one after them
    /// must be numbered within `u32`.
    pub fn add_string_many(&mut self, strings: Vec<(SourceToken, String)>) -> (r: StringSliceKey)
        requires
            old(self)@.len() + strings@.len() + 1 <= u32::MAX,
        ensures
            final(self)@.len() == old(self)@.len() + strings@.len(),
            final(self)@.subrange(0, old(self)@.len() as int) == old(self)@,
            forall|j: int|
                0 <= j < strings@.len() ==> #[trigger] final(self)@[old(self)@.len() + j]
                    == RawData::String(strings@[j].0, strings@[j].1),
            r.start() == old(self)@.len() + 1,
            r.end() == final(self)@.len() + 1,
    {
        let entries = string_entries(strings);
        let slice = self.arena.alloc_many(entries);
        proof {
            assert(self@.subrange(0, old(self)@.len() as int) =~= old(self)@);
        }
        StringSliceKey(slice)
    }

    /// Adds a symbol, if there is one; gives its key, or the key of no symbol. The storage
    /// must not already hold `u32::MAX` entries when a symbol is added.
    pub fn add_symbol(&mut self, symbol: Option<(SourceToken, Symbol)>) -> (r: SymbolKey)
        requires
            symbol is Some ==> old(self)@.len() < u32::MAX,
        ensures
            symbol is None ==> r.raw() == 0 && final(self)@ == old(self)@,
            symbol is Some ==> final(self)@ == old(self)@.push(
                RawData::Symbol((symbol->0).0, (symbol->0).1),
            ) && r.raw() == final(self)@.len(),
    {
        match symbol {
            Some((token, symbol)) => {
                let idx = self.arena.alloc_value(RawData::Symbol(token, symbol));
                SymbolKey(Some(idx))
            },
            None => SymbolKey(None),
        }
    }

    /// Adds a function: its parameters' symbols, then its effects, in order; gives the key of
    /// their run. The entries and the one after them must be numbered within `u32`.
    pub fn add_function(
        &mut self,
        symbols: Vec<(SourceToken, Symbol)>,
        effects: Vec<(rowan::TextRange, Effect)>,
    ) -> (r: FunctionKey)
        requires
            old(self)@.len() + symbols@.len() + effects@.len() + 1 <= u32::MAX,
        ensures
            final(self)@.len() == old(self)@.len() + symbols@.len() + effects@.len(),
            final(self)@.subrange(0, old(self)@.len() as int) == old(self)@,
            forall|j: int|
                0 <= j < symbols@.len() ==> #[trigger] final(self)@[old(self)@.len() + j]
                    == RawData::Symbol(symbols@[j].0, symbols@[j].1),
            forall|j: int|
                0 <= j < effects@.len() ==> #[trigger] final(self)@[old(self)@.len()
                    + symbols@.len() + j] == RawData::Effect(effects@[j].0, effects@[j].1),
            r.start() == old(self)@.len() + 1,
            r.end() == final(self)@.len() + 1,
    {
        let mut entries = symbol_entries(symbols);
        let mut more = effect_entries(effects);
        entries.append(&mut more);
        let slice = self.arena.alloc_many(entries);
        proof {
            assert(self@.subrange(0, old(self)@.len() as int) =~= old(self)@);
        }
        FunctionKey(slice)
    }
}

impl Default for StrageBuilder {
    fn default() -> (r: Self)
        ensures
            r@ == Seq::<RawData>::empty(),
    {
        Self::new()
    }
}
} // verus!
