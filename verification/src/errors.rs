//! The failure vocabulary shared by the parser, the builder and the
//! evaluator.

use crate::ast::AST;
use crate::cst::Rule;
use vstd::prelude::*;

verus! {

/// Where and how the concrete syntax was rejected.
#[derive(Debug, PartialEq, Eq)]
pub enum ParseDiag {
    /// The word starting at this character position is not in the
    /// keyword vocabulary.
    UnknownWord(usize),
    /// The token at this index cannot start or continue a term here.
    UnexpectedToken(usize),
    /// The input ended where a term or keyword was still required.
    UnexpectedEnd,
    /// A full term was recognized but this token index is left over.
    TrailingInput(usize),
}

/// The four failure kinds of the interpreter.
#[derive(Debug, PartialEq, Eq)]
pub enum ArithError {
    /// The concrete syntax was rejected; carries the parse diagnostic.
    ParseError(ParseDiag),
    /// The builder met a parse-tree rule kind it cannot convert.
    UnexpectedNodeError(Rule),
    /// The evaluator reached a term no reduction rule applies to;
    /// carries the node that blocked reduction.
    UnknownRuleError(AST),
    /// A required child node was absent from the parse tree.
    EmptyPairsError,
}

} // verus!
