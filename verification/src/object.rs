use self::ustring::UString;
use vstd::prelude::*;

pub mod ustring;

verus! {

/// A value of the virtual machine, as far as its kind goes: numbers, booleans, `nil` and
/// strings by value (a float by its bits), and the heap objects (arrays, tables, functions)
/// by their kind alone; a native function by the number of arguments it takes.
#[derive(Clone, Debug, PartialEq)]
pub enum Object {
    Int(i64),
    Float(u64),
    Bool(bool),
    Nil,
    String(UString),
    Array,
    Table,
    Function,
    RustFunction(u8),
}

/// Whether a value counts as true in a condition: all but `nil` and `false`.
pub open spec fn truthy(o: Object) -> bool {
    match o {
        Object::Nil => false,
        Object::Bool(b) => b,
        _ => true,
    }
}

/// Exactly two values count as false in a condition, `nil` and `false`; every other value,
/// of whatever kind, counts as true.
pub proof fn law_only_nil_and_false_are_falsy(o: Object)
    ensures
        truthy(o) <==> !(o == Object::Nil || o == Object::Bool(false)),
        !truthy(Object::Nil),
        !truthy(Object::Bool(false)),
        truthy(Object::Bool(true)),
{
}

/// The name of a value's type.
pub open spec fn type_name_of(o: Object) -> Seq<char> {
    match o {
        Object::Int(_) => "int"@,
        Object::Float(_) => "float"@,
        Object::Bool(_) => "bool"@,
        Object::Nil => "nil"@,
        Object::String(_) => "string"@,
        Object::Array => "array"@,
        Object::Table => "table"@,
        Object::Function | Object::RustFunction(_) => "function"@,
    }
}

/// Values of different kinds have different type names, but for the two kinds of functions,
/// which are both `function`; and values of one kind share their type name.
pub proof fn law_type_names_tell_kinds_apart(a: Object, b: Object)
    ensures
        type_name_of(a) == type_name_of(b) <==> (kind_index(a) == kind_index(b)),
{
    reveal_strlit("int");
    reveal_strlit("float");
    reveal_strlit("bool");
    reveal_strlit("nil");
    reveal_strlit("string");
    reveal_strlit("array");
    reveal_strlit("table");
    reveal_strlit("function");
    if type_name_of(a) == type_name_of(b) {
        assert(type_name_of(a).len() == type_name_of(b).len());
        assert(type_name_of(a)[0] == type_name_of(b)[0]);
    }
}

/// The kind of a value, numbered; the two kinds of functions are one kind.
pub open spec fn kind_index(o: Object) -> int {
    match o {
        Object::Int(_) => 0,
        Object::Float(_) => 1,
        Object::Bool(_) => 2,
        Object::Nil => 3,
        Object::String(_) => 4,
        Object::Array => 5,
        Object::Table => 6,
        Object::Function | Object::RustFunction(_) => 7,
    }
}

impl Object {
    /// Whether `self` counts as true in a condition.
    pub fn is_truthy(&self) -> (r: bool)
        ensures
            r == truthy(*self),
            r <==> !(*self == Object::Nil || *self == Object::Bool(false)),
    {
        match self {
            Object::Nil => false,
            Object::Bool(b) => *b,
            _ => true,
        }
    }

    /// Whether `self` counts as false in a condition.
    pub fn is_falsey(&self) -> (r: bool)
        ensures
            r == !truthy(*self),
            r <==> (*self == Object::Nil || *self == Object::Bool(false)),
    {
        !self.is_truthy()
    }

    /// The name of the type of `self`.
    pub fn kind_name(&self) -> (r: &'static str)
        ensures
            r@ == type_name_of(*self),
    {
        match self {
            Object::Int(_) => "int",
            Object::Float(_) => "float",
            Object::Bool(_) => "bool",
            Object::Nil => "nil",
            Object::String(_) => "string",
            Object::Array => "array",
            Object::Table => "table",
            Object::Function | Object::RustFunction(_) => "function",
        }
    }
}

/// Whether a native function that takes `param_len` arguments accepts `args_len` of them: it
/// is called only with exactly that many.
pub fn arity_matches(param_len: u8, args_len: usize) -> (r: bool)
    ensures
        r == (args_len == param_len as usize),
{
    args_len == param_len as usize
}

} // verus!
