//! The front end of a small calculator language: a parser that turns lines
//! of tokens into statements by precedence climbing, and an interpreter
//! that carries the statements out against a session of global variables
//! and functions.
//!
//! Numbers are held as the bits of their binary64 encoding. The library
//! never computes with them: the interpreter evaluates by steps, and what
//! takes arithmetic, input or output it asks of its driver, which performs
//! the request with the standard library and hands the reply to the next
//! step.
//!
//! - [`token`], [`ast`]: the tokens of a line and the trees of the
//!   language.
//! - [`grammar`]: what a line of tokens means, as mathematical functions;
//!   [`parser`]: the parser that computes them.
//! - [`progress`], [`precedence`], [`grouping`], [`writing`], [`reparse`],
//!   [`produced`]: what holds of the grammar. The parser always moves
//!   forward; of two operators in a row the one that binds more tightly is
//!   applied first; an expression between parentheses is that expression;
//!   every tree that the parser makes can be written as a line that parses
//!   to it again.
//! - [`scalar`], [`value`], [`table`]: numbers, values at run time, and
//!   tables from names to values.
//! - [`library`]: the table of the standard library.
//! - [`semantics`]: what a step of the interpreter does, as a mathematical
//!   function; [`interpreter`]: the session that computes it.

use vstd::prelude::*;

pub mod ast;
pub mod error;
pub mod grammar;
pub mod grouping;
pub mod interpreter;
pub mod library;
pub mod parser;
pub mod precedence;
pub mod produced;
pub mod progress;
pub mod reparse;
pub mod scalar;
pub mod semantics;
pub mod table;
pub mod token;
pub mod value;
pub mod writing;

verus! {

/// The version of this library.
pub fn version() -> (v: String)
    ensures
        v@ == "1.0.0"@,
{
    "1.0.0".to_string()
}

} // verus!
