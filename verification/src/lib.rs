//! A minimal statically-typed imperative language: its syntax tree, a direct
//! evaluator, and a lowering pass that turns function bodies into a
//! control-flow graph of basic blocks and hands that graph to LLVM.

pub mod ast;
pub mod backend;
pub mod bindings;
pub mod cfg;
pub mod compiler;
pub mod emit;
pub mod error;
pub mod interpreter;
pub mod laws;
pub mod llvm;
pub mod lowering;
pub mod order;
pub mod script;
pub mod validate;
