//! Evaluation core of a minimal expression-oriented scripting language.
//!
//! The crate executes an already-constructed abstract syntax tree against a
//! mutable runtime environment.  It supports variable binding, first-class
//! function values (blocks) with closure capture by value, and a small table
//! of built-in commands.  The environment is a stack of activation records
//! looked up dynamically; lexical closure behaviour is reconstructed on top of
//! it by a static free-variable analysis plus a value snapshot taken when a
//! block literal is evaluated.

pub mod ast;
pub mod eval;
pub mod laws;
pub mod scope;
pub mod value;
