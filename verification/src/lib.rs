//! Front end of an assembler for a simple 16-bit computer.
//!
//! A stream of already lexed tokens is turned into a sequence of instruction
//! expressions. Symbolic names are resolved to numeric addresses on the way:
//! a first pass over the tokens fills a symbol table, a second pass applies the
//! grammar and emits the expressions.

pub mod assembly;
pub mod error;
pub mod expression;
pub mod parser;
pub mod registration;
pub mod symbols;
pub mod token;
