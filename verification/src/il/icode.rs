use super::LocalId;
use vstd::prelude::*;

verus! {

/// One instruction of the executable code. The instructions run on a stack of objects and a
/// table of locals. A float constant is held as its bits (`f64::to_bits`); constant arrays,
/// tables and host functions, which only the virtual machine builds, have no instruction here.
#[derive(Clone, Debug, PartialEq)]
pub enum ICode {
    /// Pushes a constant integer.
    LoadIntObject(i64),
    /// Pushes a constant float, given by its bits.
    LoadFloatObject(u64),
    /// Pushes a constant string.
    LoadStringObject(String),
    /// Pushes a constant boolean.
    LoadBoolObject(bool),
    /// Pushes nil.
    LoadNilObject,
    /// Pushes the local at the given slot.
    LoadLocal(LocalId),
    /// Pops the top of the stack.
    Unload,
    /// Pops the top of the stack into the local at the given slot.
    StoreLocal(LocalId),
    /// Pops the top of the stack into a new local, after the last one.
    StoreNewLocal,
    /// Pops that many objects and pushes an array of them.
    MakeArray(usize),
    /// Pops that many objects, keys and values in turn, and pushes a table of them.
    MakeTable(usize),
    /// Drops that many of the latest locals.
    DropLocal(usize),
    /// Adds the offset to the program counter.
    Jump(isize),
    /// Pops the top of the stack and jumps by the offset if it is truthy.
    JumpIfTrue(isize),
    /// Pops the top of the stack and jumps by the offset if it is falsy.
    JumpIfFalse(isize),
    /// Pops that many arguments, then the callee, and calls it.
    Call(u8),
    /// Pops that many arguments, then the receiver, and calls its method of that name.
    CallMethod(u8, String),
    /// Pops a value, a container and a key, and stores the value under the key.
    SetItem,
    /// Pops a container and a key, and pushes the item under the key.
    GetItem,
    /// Pops a function and a table, and makes the function the table's method of that name.
    SetMethod(String),
    Add,
    Sub,
    Mul,
    Div,
    Mod,
    Unm,
    Unp,
    Not,
    Eq,
    NotEq,
    Less,
    LessEq,
    Greater,
    GreaterEq,
    Concat,
    BitAnd,
    BitOr,
    BitXor,
    BitNot,
    ShiftL,
    ShiftR,
    /// Pops an iterable and pushes an iterator over it.
    GetIter,
    /// Advances the iterator on the top of the stack and pushes whether it has an item.
    IterMoveNext,
    /// Pushes the current item of the iterator on the top of the stack.
    IterCurrent,
    /// Starts the definition of a function object.
    BeginFuncSection,
    /// Sets the number of parameters of the function being defined and the position of its code.
    FuncSetProperty(u8, usize),
    /// Adds the local at the given slot to the captures of the function being defined.
    FuncAddCapture(LocalId),
    /// Ends the definition of a function object and pushes it.
    EndFuncSection,
    /// Does nothing.
    Nop,
    /// Returns from the current function with the top of the stack.
    Leave,
}

} // verus!
