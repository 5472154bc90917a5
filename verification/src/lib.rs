//! An interpreter for a minimal calculus of booleans and natural
//! numbers: the literals `true`, `false` and `0`, the operators
//! `succ`, `pred` and `iszero`, and a three-branch conditional.
//!
//! A line of concrete syntax is tokenized and parsed into a concrete
//! parse tree ([`cst`], [`lex`], [`parse`]), converted into an
//! abstract syntax tree ([`ast`], [`builder`]), and then reduced
//! under a fixed big-step semantics ([`eval`]); node count and
//! nesting depth are computed by [`metrics`]. Every step is total and
//! deterministic; failures are the closed vocabulary of [`errors`].

pub mod ast;
pub mod builder;
pub mod cst;
pub mod lex;
pub mod errors;
pub mod eval;
pub mod metrics;
pub mod parse;
