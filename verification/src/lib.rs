//! A small Scheme dialect: reader, lexer, exact rationals and package bookkeeping.
use vstd::prelude::*;

pub mod env;
pub mod error;
pub mod expr;
pub mod interpreter;
pub mod lexer;
pub mod modules;
pub mod numeral;
pub mod package;
pub mod rational;
pub mod rational_order;
pub mod reader;
pub mod text;

verus! {
} // verus!
