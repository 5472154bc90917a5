//! The AST builder: convert one concrete-parse-tree node, recursively,
//! into an owned term.

use crate::ast::AST;
use crate::cst::{ParseNode, Rule};
use crate::errors::ArithError;
use vstd::prelude::*;

verus! {

/// What the builder produces from one parse-tree node. A `Term` node
/// converts transparently through its first child; a literal kind
/// maps to its zero-arity variant; an operator kind consumes one
/// child, the conditional three, in order. A kind outside the mapping
/// fails with `UnexpectedNodeError`, a missing child with
/// `EmptyPairsError`; children are consumed and converted one by one,
/// so the first failing step decides the error.
pub open spec fn spec_ast_of_node(n: ParseNode) -> Result<AST, ArithError>
    decreases n,
{
    match n.rule {
        Rule::Term => if n.children@.len() >= 1 {
            spec_ast_of_node(n.children@[0])
        } else {
            Err(ArithError::EmptyPairsError)
        },
        Rule::True => Ok(AST::True),
        Rule::False => Ok(AST::False),
        Rule::Zero => Ok(AST::Zero),
        Rule::Succ => if n.children@.len() >= 1 {
            match spec_ast_of_node(n.children@[0]) {
                Ok(u) => Ok(AST::Succ(Box::new(u))),
                Err(e) => Err(e),
            }
        } else {
            Err(ArithError::EmptyPairsError)
        },
        Rule::Pred => if n.children@.len() >= 1 {
            match spec_ast_of_node(n.children@[0]) {
                Ok(u) => Ok(AST::Pred(Box::new(u))),
                Err(e) => Err(e),
            }
        } else {
            Err(ArithError::EmptyPairsError)
        },
        Rule::IsZero => if n.children@.len() >= 1 {
            match spec_ast_of_node(n.children@[0]) {
                Ok(u) => Ok(AST::IsZero(Box::new(u))),
                Err(e) => Err(e),
            }
        } else {
            Err(ArithError::EmptyPairsError)
        },
        Rule::IfThenElse => if n.children@.len() >= 1 {
            match spec_ast_of_node(n.children@[0]) {
                Ok(g) => if n.children@.len() >= 2 {
                    match spec_ast_of_node(n.children@[1]) {
                        Ok(th) => if n.children@.len() >= 3 {
                            match spec_ast_of_node(n.children@[2]) {
                                Ok(el) => Ok(
                                    AST::IfThenElse(Box::new(g), Box::new(th), Box::new(el)),
                                ),
                                Err(e) => Err(e),
                            }
                        } else {
                            Err(ArithError::EmptyPairsError)
                        },
                        Err(e) => Err(e),
                    }
                } else {
                    Err(ArithError::EmptyPairsError)
                },
                Err(e) => Err(e),
            }
        } else {
            Err(ArithError::EmptyPairsError)
        },
        _ => Err(ArithError::UnexpectedNodeError(n.rule)),
    }
}

impl AST {
    /// Convert one concrete-parse-tree node into a term, bottom-up.
    pub fn try_from_node(node: &ParseNode) -> (r: Result<AST, ArithError>)
        ensures
            r == spec_ast_of_node(*node),
        decreases *node,
    {
        match node.rule {
            Rule::Term => {
                if node.children.len() >= 1 {
                    AST::try_from_node(&node.children[0])
                } else {
                    Err(ArithError::EmptyPairsError)
                }
            },
            Rule::True => Ok(AST::True),
            Rule::False => Ok(AST::False),
            Rule::Zero => Ok(AST::Zero),
            Rule::Succ => {
                if node.children.len() >= 1 {
                    match AST::try_from_node(&node.children[0]) {
                        Ok(u) => Ok(AST::Succ(Box::new(u))),
                        Err(e) => Err(e),
                    }
                } else {
                    Err(ArithError::EmptyPairsError)
                }
            },
            Rule::Pred => {
                if node.children.len() >= 1 {
                    match AST::try_from_node(&node.children[0]) {
                        Ok(u) => Ok(AST::Pred(Box::new(u))),
                        Err(e) => Err(e),
                    }
                } else {
                    Err(ArithError::EmptyPairsError)
                }
            },
            Rule::IsZero => {
                if node.children.len() >= 1 {
                    match AST::try_from_node(&node.children[0]) {
                        Ok(u) => Ok(AST::IsZero(Box::new(u))),
                        Err(e) => Err(e),
                    }
                } else {
                    Err(ArithError::EmptyPairsError)
                }
            },
            Rule::IfThenElse => {
                if node.children.len() < 1 {
                    return Err(ArithError::EmptyPairsError);
                }
                let g = match AST::try_from_node(&node.children[0]) {
                    Ok(x) => x,
                    Err(e) => {
                        return Err(e);
                    },
                };
                if node.children.len() < 2 {
                    return Err(ArithError::EmptyPairsError);
                }
                let th = match AST::try_from_node(&node.children[1]) {
                    Ok(x) => x,
                    Err(e) => {
                        return Err(e);
                    },
                };
                if node.children.len() < 3 {
                    return Err(ArithError::EmptyPairsError);
                }
                let el = match AST::try_from_node(&node.children[2]) {
                    Ok(x) => x,
                    Err(e) => {
                        return Err(e);
                    },
                };
                Ok(AST::IfThenElse(Box::new(g), Box::new(th), Box::new(el)))
            },
            _ => Err(ArithError::UnexpectedNodeError(node.rule)),
        }
    }
}

} // verus!
