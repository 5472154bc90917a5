//! The concrete parse tree: rule-tagged nodes with an ordered list of
//! children, as the grammar-driven recognizer hands them out.

use vstd::prelude::*;

verus! {

/// The rule kinds a concrete-parse-tree node can be tagged with.
/// `Input` and `EOI` tag structural nodes of the grammar itself; they
/// never convert to a term.
#[derive(Debug, Clone, Copy, PartialEq, Eq, Structural)]
pub enum Rule {
    Input,
    EOI,
    Term,
    True,
    False,
    Zero,
    Succ,
    Pred,
    IsZero,
    IfThenElse,
}

/// One node of the concrete parse tree: a rule kind and its ordered
/// child nodes.
#[derive(Debug, PartialEq, Eq)]
pub struct ParseNode {
    pub rule: Rule,
    pub children: Vec<ParseNode>,
}

} // verus!
