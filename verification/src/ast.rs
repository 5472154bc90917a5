//! The abstract syntax tree of the calculus and its value predicates.

use vstd::prelude::*;

verus! {

/// A term of the calculus: the boolean literals, the numeric literal
/// zero, the successor, predecessor and zero-test operators, and a
/// three-branch conditional. Every node owns its children outright,
/// so a term is always a finite tree.
#[derive(Debug, PartialEq, Eq)]
pub enum AST {
    True,
    False,
    Zero,
    Succ(Box<AST>),
    Pred(Box<AST>),
    IsZero(Box<AST>),
    IfThenElse(Box<AST>, Box<AST>, Box<AST>),
}

/// A numeric value is `Zero` or `Succ` of a numeric value.
pub open spec fn spec_is_numeric_val(t: AST) -> bool
    decreases t,
{
    match t {
        AST::Zero => true,
        AST::Succ(u) => spec_is_numeric_val(*u),
        _ => false,
    }
}

/// A value is a boolean literal or a numeric value.
pub open spec fn spec_is_val(t: AST) -> bool {
    ||| t is True
    ||| t is False
    ||| spec_is_numeric_val(t)
}

/// Decide whether a term is a numeric value.
pub fn is_numeric_val(v: &AST) -> (r: bool)
    ensures
        r == spec_is_numeric_val(*v),
    decreases *v,
{
    match v {
        AST::Zero => true,
        AST::Succ(u) => is_numeric_val(u),
        _ => false,
    }
}

/// Decide whether a term is a value.
pub fn is_val(v: &AST) -> (r: bool)
    ensures
        r == spec_is_val(*v),
{
    match v {
        AST::True | AST::False => true,
        _ => is_numeric_val(v),
    }
}

} // verus!
