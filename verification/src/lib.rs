//! A small functional expression language: a parser with hygienic renaming,
//! a type and termination checker, and a lazy evaluator.
//!
//! A program is a text in fully parenthesised prefix notation. `parser`
//! turns it into a syntax tree (`ast`), in which `rename` has given every
//! binding a name of its own. `typeck` evaluates the tree symbolically and
//! gives it a type (`datatype`), which is `Divergent` for a program that
//! would not terminate. `eval` reduces the tree to a value (`value`), by
//! need. The built-ins that programs call by name (`host`) come from
//! `corelib`. `run` puts the phases in order, and `printer` writes a tree
//! back as a text that `parser` reads as the same tree.
//!
//! Every function has a contract over a model of its data: a tree for the
//! parser, the renamer and the printer, the nodes of the arena for the
//! checker and the evaluator. The laws that relate the functions to each
//! other are proof functions, named `lemma_...`, beside them.

pub mod ast;
pub mod bindings;
pub mod builtin;
pub mod corelib;
pub mod datatype;
pub mod env;
pub mod error;
pub mod eval;
pub mod host;
pub mod parser;
pub mod printer;
pub mod rename;
pub mod run;
pub mod text;
pub mod typeck;
pub mod value;
