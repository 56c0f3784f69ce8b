use super::storage::{effects_key_before, function_key_before, EffectsKey, FunctionKey, Strage};
use vstd::prelude::*;

verus! {

/// A lowered program: the effects of its top level, the functions it defines, and the
/// storage that the keys name.
pub struct Module {
    effects: EffectsKey,
    functions: Vec<FunctionKey>,
    strage: Strage,
}

impl Module {
    pub closed spec fn spec_effects(&self) -> EffectsKey {
        self.effects
    }

    pub closed spec fn spec_functions(&self) -> Seq<FunctionKey> {
        self.functions@
    }

    pub closed spec fn spec_strage(&self) -> &Strage {
        &self.strage
    }

    /// The storage is well formed, and the top level and the functions name its entries.
    pub open spec fn well_formed(&self) -> bool {
        &&& self.spec_strage().well_formed()
        &&& effects_key_before(self.spec_strage()@, self.spec_effects(), self.spec_strage()@.len() as int)
        &&& forall|i: int|
            0 <= i < self.spec_functions().len() ==> function_key_before(
                #[trigger] self.spec_functions()[i],
                self.spec_strage()@.len() as int,
            )
    }

    pub fn new(effects: EffectsKey, functions: Vec<FunctionKey>, strage: Strage) -> (r: Self)
        ensures
            r.spec_effects() == effects,
            r.spec_functions() == functions@,
            r.spec_strage()@ == strage@,
    {
        Self { effects, functions, strage }
    }

    pub fn effects(&self) -> (r: &EffectsKey)
        ensures
            *r == self.spec_effects(),
    {
        &self.effects
    }

    pub fn functions(&self) -> (r: &[FunctionKey])
        ensures
            r@ == self.spec_functions(),
    {
        self.functions.as_slice()
    }

    pub fn strage(&self) -> (r: &Strage)
        ensures
            r@ == self.spec_strage()@,
    {
        &self.strage
    }
}

} // verus!
