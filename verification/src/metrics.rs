//! Structural metrics over terms: node count and nesting depth.

use crate::ast::AST;
use vstd::prelude::*;

verus! {

/// The number of nodes of a term.
pub open spec fn spec_size(t: AST) -> nat
    decreases t,
{
    match t {
        AST::True => 1,
        AST::False => 1,
        AST::Zero => 1,
        AST::Succ(u) => 1 + spec_size(*u),
        AST::Pred(u) => 1 + spec_size(*u),
        AST::IsZero(u) => 1 + spec_size(*u),
        AST::IfThenElse(g, th, el) => 1 + spec_size(*g) + spec_size(*th) + spec_size(*el),
    }
}

/// The larger of two lengths.
pub open spec fn nat_max(a: nat, b: nat) -> nat {
    if a >= b {
        a
    } else {
        b
    }
}

/// The length of the longest root-to-leaf path of a term.
pub open spec fn spec_depth(t: AST) -> nat
    decreases t,
{
    match t {
        AST::True => 1,
        AST::False => 1,
        AST::Zero => 1,
        AST::Succ(u) => 1 + spec_depth(*u),
        AST::Pred(u) => 1 + spec_depth(*u),
        AST::IsZero(u) => 1 + spec_depth(*u),
        AST::IfThenElse(g, th, el) => 1 + nat_max(
            spec_depth(*g),
            nat_max(spec_depth(*th), spec_depth(*el)),
        ),
    }
}

/// Node count dominates depth, and both are at least one, for every
/// finite term.
pub proof fn lemma_size_ge_depth(t: AST)
    ensures
        spec_size(t) >= spec_depth(t) >= 1,
    decreases t,
{
    match t {
        AST::Succ(u) => lemma_size_ge_depth(*u),
        AST::Pred(u) => lemma_size_ge_depth(*u),
        AST::IsZero(u) => lemma_size_ge_depth(*u),
        AST::IfThenElse(g, th, el) => {
            lemma_size_ge_depth(*g);
            lemma_size_ge_depth(*th);
            lemma_size_ge_depth(*el);
        },
        _ => (),
    }
}

/// Compute the node count of a term.
pub fn arith_size(v: &AST) -> (r: u128)
    requires
        spec_size(*v) <= u128::MAX,
    ensures
        r == spec_size(*v),
    decreases *v,
{
    match v {
        AST::True | AST::False | AST::Zero => 1,
        AST::Succ(u) => 1 + arith_size(u),
        AST::Pred(u) => 1 + arith_size(u),
        AST::IsZero(u) => 1 + arith_size(u),
        AST::IfThenElse(g, th, el) => 1 + arith_size(g) + arith_size(th) + arith_size(el),
    }
}

/// Compute the nesting depth of a term.
pub fn arith_depth(v: &AST) -> (r: u128)
    requires
        spec_depth(*v) <= u128::MAX,
    ensures
        r == spec_depth(*v),
    decreases *v,
{
    match v {
        AST::True | AST::False | AST::Zero => 1,
        AST::Succ(u) => 1 + arith_depth(u),
        AST::Pred(u) => 1 + arith_depth(u),
        AST::IsZero(u) => 1 + arith_depth(u),
        AST::IfThenElse(g, th, el) => {
            let dg = arith_depth(g);
            let dt = arith_depth(th);
            let de = arith_depth(el);
            let m = if dt >= de {
                dt
            } else {
                de
            };
            let m = if dg >= m {
                dg
            } else {
                m
            };
            1 + m
        },
    }
}

} // verus!
