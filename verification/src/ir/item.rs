use super::storage::{
    EffectsKey, FunctionKey, StringKey, StringSliceKey, SymbolKey, ValueKey, ValueSliceKey,
};
use crate::object::ustring::UString;
use vstd::prelude::*;

verus! {

/// The number of a lexical scope: 1 for the outermost one, and one more for each next scope.
#[derive(Clone, Copy, Debug, PartialEq, Eq, PartialOrd, Ord, Hash, Structural)]
pub struct ScopeIndex(u32);

impl ScopeIndex {
    pub closed spec fn value(&self) -> u32 {
        self.0
    }

    /// The first scope: 1.
    pub fn new() -> (r: Self)
        ensures
            r.value() == 1,
    {
        ScopeIndex(1)
    }

    /// The scope after `self`; there must be a next number.
    pub fn make_next(&self) -> (r: Self)
        requires
            self.value() < u32::MAX,
        ensures
            r.value() == self.value() + 1,
    {
        ScopeIndex(self.0 + 1)
    }

    pub fn as_u32(&self) -> (r: u32)
        ensures
            r == self.value(),
    {
        self.0
    }
}

/// Scope indices are equal exactly when their numbers are.
pub proof fn lemma_scope_index_eq(a: ScopeIndex, b: ScopeIndex)
    ensures
        a == b <==> a.value() == b.value(),
{
}

impl Default for ScopeIndex {
    fn default() -> (r: Self)
        ensures
            r.value() == 1,
    {
        Self::new()
    }
}

/// A name, and the scope in which it is bound.
#[derive(Clone, Debug, PartialEq, Eq, PartialOrd, Ord, Hash)]
pub struct Symbol {
    text: String,
    scope: ScopeIndex,
}

impl Symbol {
    pub closed spec fn spec_text(&self) -> Seq<char> {
        self.text@
    }

    pub closed spec fn spec_scope(&self) -> ScopeIndex {
        self.scope
    }

    pub fn new(text: String, scope: ScopeIndex) -> (r: Self)
        ensures
            r.spec_text() == text@,
            r.spec_scope() == scope,
    {
        Symbol { text, scope }
    }

    pub fn text(&self) -> (r: &str)
        ensures
            r@ == self.spec_text(),
    {
        self.text.as_str()
    }

    pub fn scope(&self) -> (r: ScopeIndex)
        ensures
            r == self.spec_scope(),
    {
        self.scope
    }
}

} // verus!

verus! {

/// What a statement does.
#[derive(Clone, PartialEq, Eq)]
pub enum Effect {
    MakeLocal { name: SymbolKey, value: ValueKey },
    MakeFunc { name: SymbolKey, func: FunctionKey },
    SetLocal { local: SymbolKey, value: ValueKey },
    SetIndex { target: ValueKey, index: ValueKey, value: ValueKey },
    SetField { target: ValueKey, field: StringKey, value: ValueKey },
    SetFieldFunc { table: SymbolKey, path: StringSliceKey, func: FunctionKey },
    SetMethod { table: SymbolKey, path: StringSliceKey, name: StringKey, func: FunctionKey },
    Branch { condition: ValueKey, then: EffectsKey, else_: EffectsKey },
    LoopFor { variable: SymbolKey, iterable: ValueKey, effects: EffectsKey },
    LoopWhile { condition: ValueKey, effects: EffectsKey },
    Scope { body: EffectsKey },
    Call { value: ValueKey, args: ValueSliceKey },
    MethodCall { table: ValueKey, name: StringKey, args: ValueSliceKey },
    Return { value: ValueKey },
    BreakLoop,
    ContinueLoop,
    NoEffectValue { value: ValueKey },
}

/// What an expression computes. A float is held as its bits (`f64::to_bits`).
#[derive(Clone, PartialEq)]
pub enum Value {
    Branch {
        condition: ValueKey,
        then: EffectsKey,
        then_tail: ValueKey,
        else_: EffectsKey,
        else_tail: ValueKey,
    },
    Prefix { op: PrefixOp, value: ValueKey },
    Binary { op: BinaryOp, lhs: ValueKey, rhs: ValueKey },
    Call { value: ValueKey, args: ValueSliceKey },
    Index { value: ValueKey, index: ValueKey },
    Field { value: ValueKey, name: StringKey },
    MethodCall { value: ValueKey, name: StringKey, args: ValueSliceKey },
    Block { effects: EffectsKey, tail: ValueKey },
    Local { name: SymbolKey },
    Int(i64),
    Float(u64),
    String(UString),
    Bool(bool),
    Nil,
    Function(FunctionKey),
    Array { elements: ValueSliceKey },
    Table { fields: Vec<(TableKeyName, ValueKey)> },
}

/// The key of a table field: an expression, or a name written as is.
#[derive(Clone, Copy, PartialEq, Eq)]
pub enum TableKeyName {
    Value(ValueKey),
    String(StringKey),
}

/// A prefix operator, with the range of its token.
#[derive(Clone, Copy, PartialEq, Eq)]
pub enum PrefixOp {
    Plus(rowan::TextRange),
    Minus(rowan::TextRange),
    Not(rowan::TextRange),
    BitNot(rowan::TextRange),
    Missing,
}

/// A binary operator, with the range of its token.
#[derive(Clone, Copy, PartialEq, Eq)]
pub enum BinaryOp {
    Add(rowan::TextRange),
    Sub(rowan::TextRange),
    Mul(rowan::TextRange),
    Div(rowan::TextRange),
    Mod(rowan::TextRange),
    Shl(rowan::TextRange),
    Shr(rowan::TextRange),
    Concat(rowan::TextRange),
    Eq(rowan::TextRange),
    Ne(rowan::TextRange),
    Lt(rowan::TextRange),
    Le(rowan::TextRange),
    Gt(rowan::TextRange),
    Ge(rowan::TextRange),
    And(rowan::TextRange),
    Or(rowan::TextRange),
    BitAnd(rowan::TextRange),
    BitOr(rowan::TextRange),
    BitXor(rowan::TextRange),
    Assign(rowan::TextRange),
    Missing,
}

} // verus!
