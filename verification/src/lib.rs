use vstd::prelude::*;

pub mod collections;
pub mod compile;
pub mod database;
pub mod display;
pub mod il;
pub mod ir;
pub mod lexer;
pub mod lower_ast;
pub mod object;
pub mod parser;
pub mod position;
pub mod syntax_kind;
pub mod text;
pub mod token;

verus! {

} // verus!
