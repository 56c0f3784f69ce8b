use crate::il::LocalId;
use vstd::prelude::*;

verus! {

#[verifier::external_type_specification]
#[verifier::external_body]
pub struct ExTextRange(rowan::TextRange);

/// `TextRange::clone`: a text range is `Copy`, and its clone is itself.
pub assume_specification[ <rowan::TextRange as Clone>::clone ](r: &rowan::TextRange) -> (c:
    rowan::TextRange)
    ensures
        c == *r,
;

/// The position of a compiled function in the list of functions of a compilation.
#[derive(Clone, Copy, Debug, PartialEq, Eq, Structural)]
pub struct FunctionListId(pub usize);

/// One instruction of the intermediate code, before jumps are patched and source ranges are
/// moved to a table of their own. A float constant is held as its bits (`f64::to_bits`).
#[derive(Clone, Debug, PartialEq)]
pub enum ICodeSource {
    LoadIntObject(i64),
    LoadFloatObject(u64),
    LoadStringObject(String),
    LoadBoolObject(bool),
    LoadNilObject,
    LoadLocal(LocalId),

    Unload,

    StoreLocal(LocalId),
    StoreNewLocal,

    MakeArray(usize),

    // Exeption
    // - The type of the key is not a string.
    // ---
    // .1: The text range of table keys.
    //     If the key is ensured to be type of string, the text range is None.
    MakeTable(usize, Vec<Option<rowan::TextRange>>),

    DropLocal(usize),

    Jump(isize),
    JumpIfTrue(isize),
    JumpIfFalse(isize),

    // Exeption
    // - The callee is not type of Function or RustFunction or Table.
    // - No `__call` method defined for the popped table type value.
    // - The number of calee arguments is not equal to the specified argument count.
    // ---
    // .1: Callee text range
    // .2: Each argument text range
    Call(u8, rowan::TextRange, Vec<rowan::TextRange>),

    // Exeption
    // - The receiver is not type of Table.
    // - The specified method name is not defined in the receiver table object.
    // - The number of method arguments is not equal to the specified argument count.
    // ---
    // .2: first is Method name text range, rest is each argument text range
    CallMethod(u8, String, Vec<rowan::TextRange>),

    // Exeption
    // - The container is not type of Table or Array.
    // - The key is not type of Int if the container is Array.
    // - The key is not type of String if the container is Table.
    // ---
    // .0: The key text range
    SetItem(rowan::TextRange),

    // Exeption
    // - The container is not type of Table or Array.
    // - The key is not type of Int if the container is Array.
    // - The key is not type of String if the container is Table.
    // ---
    // .0: The key text range
    GetItem(rowan::TextRange),

    // Exeption
    // The container is not type of Table.
    // --
    // .1: The container text range
    SetMethod(String, rowan::TextRange),

    // Exeption
    // - Popped values are not type of Int or Float or Table.
    // - No `__***` method defined for the popped table type value.
    // - Division by zero.
    // ---
    // .0: The operator text range
    Add(rowan::TextRange),
    Sub(rowan::TextRange),
    Mul(rowan::TextRange),
    Div(rowan::TextRange),
    Mod(rowan::TextRange),
    Unm(rowan::TextRange),
    Unp(rowan::TextRange),
    Not(rowan::TextRange),
    Eq(rowan::TextRange),
    NotEq(rowan::TextRange),
    Less(rowan::TextRange),
    LessEq(rowan::TextRange),
    Greater(rowan::TextRange),
    GreaterEq(rowan::TextRange),
    Concat(rowan::TextRange),
    BitAnd(rowan::TextRange),
    BitOr(rowan::TextRange),
    BitXor(rowan::TextRange),
    BitNot(rowan::TextRange),
    ShiftL(rowan::TextRange),
    ShiftR(rowan::TextRange),

    GetIter,
    IterMoveNext,
    IterCurrent,

    BeginFuncSection,
    FuncSetProperty(u8, FunctionListId),
    FuncAddCapture(LocalId),
    EndFuncSection,

    // Nop,
    Leave,

    Tombstone,
}

} // verus!
