//! Core of a compiler toolchain for a minimal tape-machine language.
//!
//! The crate defines the tree-shaped intermediate representation ([`ir`]),
//! its operational semantics as a mathematical big-step relation
//! ([`semantics`]), a reference execution engine proved against that
//! semantics ([`interpreter`]), and a pipeline of optimization passes
//! ([`opt`]) whose rewriting behaviour is pinned down exactly by spec
//! functions.  Statements that relate the passes to the semantics live in
//! [`laws`].

pub mod interpreter;
pub mod ir;
pub mod laws;
pub mod opt;
pub mod semantics;
