//! A tree-walking interpreter for a small scripting language, verified with
//! Verus.
//!
//! Source text is read by the [`scanner`] into tokens, the [`parser`] turns
//! tokens into statements after the [`grammar`], and the [`interpreter`] runs
//! statements against an [`environment`] of nested scopes. Each stage states
//! what it does over a mathematical model of its data: the scanner over the
//! characters left to read, the parser over the grammar's productions, the
//! interpreter over the steps of an abstract [`machine`], and over whole
//! [`runs`] of it.
//!
//! Numbers are carried as decimal text. The interpreter never reads a
//! number's text as a quantity: it runs one step at a time and asks its host
//! for every computation on numbers, so that arithmetic and the printing form
//! of numbers are the host's. Running by steps also leaves it to the host
//! when to stop a program that loops.

pub mod ast_printer;
pub mod environment;
pub mod errors;
pub mod expression;
pub mod grammar;
pub mod interpreter;
pub mod machine;
pub mod parser;
pub mod runs;
pub mod scanner;
pub mod statement;
pub mod text;
pub mod token;
pub mod value;
pub mod visitor;
