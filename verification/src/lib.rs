//! Lowering of a small Lisp-style syntax tree into a linear, stack-oriented
//! instruction stream, with the naming, scope and stack discipline of the
//! emitted code stated as contracts and proved.

pub mod ast;
pub mod demand;
pub mod growth;
pub mod ir;
pub mod model;
pub mod names;
pub mod order;
pub mod registers;
pub mod registry;
pub mod scopes;
pub mod stack;
pub mod static_data;
pub mod support;
pub mod translator;

pub use ast::{AtomTypes, Binding, CondCase, Expression, Programm};
pub use ir::{
    Branch, FunctionPointer, LinearBlock, LinearInstruction, Pointer, Register, Scope,
};
pub use static_data::{StaticData, StaticRef};
pub use translator::Translator;
