use vstd::prelude::*;

pub mod item;
pub mod module;
pub mod storage;

use item::{Effect, Symbol, Value};
use module::Module;
use storage::{
    EffectsKey, FunctionKey, RawData, SourceToken, StrageBuilder, StringKey, StringSliceKey,
    SymbolKey, ValueKey, ValueSliceKey,
};

verus! {

/// Builds a module: the storage of its entries, and the functions it defines, in the order
/// they were added.
pub struct ModuleBuilder {
    sb: StrageBuilder,
    fns: Vec<FunctionKey>,
}

impl ModuleBuilder {
    /// The entries added so far.
    pub closed spec fn entries(&self) -> Seq<RawData> {
        self.sb@
    }

    /// The functions added so far.
    pub closed spec fn spec_functions(&self) -> Seq<FunctionKey> {
        self.fns@
    }

    pub fn new() -> (r: Self)
        ensures
            r.entries() == Seq::<RawData>::empty(),
            r.spec_functions() == Seq::<FunctionKey>::empty(),
    {
        ModuleBuilder { sb: StrageBuilder::new(), fns: Vec::new() }
    }

    /// The module whose top level is `root_effects`.
    pub fn finish_with(self, root_effects: EffectsKey) -> (r: Module)
        ensures
            r.spec_effects() == root_effects,
            r.spec_functions() == self.spec_functions(),
            r.spec_strage()@ == self.entries(),
    {
        let strage = self.sb.finish();
        Module::new(root_effects, self.fns, strage)
    }

    /// Adds a value, if there is one; see `StrageBuilder::add_value`.
    pub fn add_value(&mut self, value: Option<(rowan::TextRange, Value)>) -> (r: ValueKey)
        requires
            value is Some ==> old(self).entries().len() < u32::MAX,
        ensures
            final(self).spec_functions() == old(self).spec_functions(),
            value is None ==> r.raw() == 0 && final(self).entries() == old(self).entries(),
            value is Some ==> final(self).entries() == old(self).entries().push(
                RawData::Value((value->0).0, (value->0).1),
            ) && r.raw() == final(self).entries().len(),
    {
        self.sb.add_value(value)
    }

    /// Adds values, in order; see `StrageBuilder::add_value_many`.
    pub fn add_value_many(&mut self, values: Vec<(rowan::TextRange, Value)>) -> (r: ValueSliceKey)
        requires
            old(self).entries().len() + values@.len() + 1 <= u32::MAX,
        ensures
            final(self).spec_functions() == old(self).spec_functions(),
            final(self).entries().len() == old(self).entries().len() + values@.len(),
            final(self).entries().subrange(0, old(self).entries().len() as int)
                == old(self).entries(),
            forall|j: int|
                0 <= j < values@.len() ==> #[trigger] final(self).entries()[old(self).entries().len()
                    + j] == RawData::Value(values@[j].0, values@[j].1),
            r.start() == old(self).entries().len() + 1,
            r.end() == final(self).entries().len() + 1,
    {
        self.sb.add_value_many(values)
    }

    /// Adds effects, in order; see `StrageBuilder::add_effects`.
    pub fn add_effects(&mut self, effects: Vec<(rowan::TextRange, Effect)>) -> (r: EffectsKey)
        requires
            old(self).entries().len() + effects@.len() + 1 <= u32::MAX,
        ensures
            final(self).spec_functions() == old(self).spec_functions(),
            final(self).entries().len() == old(self).entries().len() + effects@.len(),
            final(self).entries().subrange(0, old(self).entries().len() as int)
                == old(self).entries(),
            forall|j: int|
                0 <= j < effects@.len() ==> #[trigger] final(self).entries()[old(
                    self,
                ).entries().len() + j] == RawData::Effect(effects@[j].0, effects@[j].1),
            r.start() == old(self).entries().len() + 1,
            r.end() == final(self).entries().len() + 1,
    {
        self.sb.add_effects(effects)
    }

    /// Adds a string, if there is one; see `StrageBuilder::add_string`.
    pub fn add_string(&mut self, string: Option<(SourceToken, String)>) -> (r: StringKey)
        requires
            string is Some ==> old(self).entries().len() < u32::MAX,
        ensures
            final(self).spec_functions() == old(self).spec_functions(),
            string is None ==> r.raw() == 0 && final(self).entries() == old(self).entries(),
            string is Some ==> final(self).entries() == old(self).entries().push(
                RawData::String((string->0).0, (string->0).1),
            ) && r.raw() == final(self).entries().len(),
    {
        self.sb.add_string(string)
    }

    /// Adds strings, in order; see `StrageBuilder::add_string_many`.
    pub fn add_string_many(&mut self, strings: Vec<(SourceToken, String)>) -> (r: StringSliceKey)
        requires
            old(self).entries().len() + strings@.len() + 1 <= u32::MAX,
        ensures
            final(self).spec_functions() == old(self).spec_functions(),
            final(self).entries().len() == old(self).entries().len() + strings@.len(),
            final(self).entries().subrange(0, old(self).entries().len() as int)
                == old(self).entries(),
            forall|j: int|
                0 <= j < strings@.len() ==> #[trigger] final(self).entries()[old(
                    self,
                ).entries().len() + j] == RawData::String(strings@[j].0, strings@[j].1),
            r.start() == old(self).entries().len() + 1,
            r.end() == final(self).entries().len() + 1,
    {
        self.sb.add_string_many(strings)
    }

    /// Adds a symbol, if there is one; see `StrageBuilder::add_symbol`.
    pub fn add_symbol(&mut self, symbol: Option<(SourceToken, Symbol)>) -> (r: SymbolKey)
        requires
            symbol is Some ==> old(self).entries().len() < u32::MAX,
        ensures
            final(self).spec_functions() == old(self).spec_functions(),
            symbol is None ==> r.raw() == 0 && final(self).entries() == old(self).entries(),
            symbol is Some ==> final(self).entries() == old(self).entries().push(
                RawData::Symbol((symbol->0).0, (symbol->0).1),
            ) && r.raw() == final(self).entries().len(),
    {
        self.sb.add_symbol(symbol)
    }

    /// Adds a function, and records it among the module's functions; see
    /// `StrageBuilder::add_function`.
    pub fn add_function(
        &mut self,
        symbols: Vec<(SourceToken, Symbol)>,
        effects: Vec<(rowan::TextRange, Effect)>,
    ) -> (r: FunctionKey)
        requires
            old(self).entries().len() + symbols@.len() + effects@.len() + 1 <= u32::MAX,
        ensures
            final(self).spec_functions() == old(self).spec_functions().push(r),
            final(self).entries().len() == old(self).entries().len() + symbols@.len()
                + effects@.len(),
            final(self).entries().subrange(0, old(self).entries().len() as int)
                == old(self).entries(),
            forall|j: int|
                0 <= j < symbols@.len() ==> #[trigger] final(self).entries()[old(
                    self,
                ).entries().len() + j] == RawData::Symbol(symbols@[j].0, symbols@[j].1),
            forall|j: int|
                0 <= j < effects@.len() ==> #[trigger] final(self).entries()[old(
                    self,
                ).entries().len() + symbols@.len() + j] == RawData::Effect(
                    effects@[j].0,
                    effects@[j].1,
                ),
            r.start() == old(self).entries().len() + 1,
            r.end() == final(self).entries().len() + 1,
    {
        let key = self.sb.add_function(symbols, effects);
        self.fns.push(key);
        key
    }
}

impl Default for ModuleBuilder {
    fn default() -> (r: Self)
        ensures
            r.entries() == Seq::<RawData>::empty(),
            r.spec_functions() == Seq::<FunctionKey>::empty(),
    {
        Self::new()
    }
}

} // verus!
