//! Vibelang front end and compiler pieces: lexer, parser and abstract syntax
//! tree, module linking, monomorphization of generic functions, the builtin
//! registry, the bytecode generator's bookkeeping (slots, scopes, labels,
//! pattern stores) and the task scheduler of the runtime, with their
//! contracts proved by Verus.

pub mod text;
pub mod table;
pub mod error;
pub mod lexer;
pub mod ast;
pub mod parser;
pub mod async_runtime;
pub mod monomorphize;
pub mod module_loader;
pub mod builtins;
pub mod bytecode;
pub mod bytecode_gen;
