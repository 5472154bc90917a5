//! The big-step evaluator: reduce a term to a value, or report the
//! node that blocked reduction.

use crate::ast::{is_numeric_val, is_val, spec_is_numeric_val, spec_is_val, AST};
use crate::errors::ArithError;
use vstd::prelude::*;

verus! {

/// Big-step evaluation of a term. `Ok` carries the fully reduced
/// value; `Err` carries the node that no reduction rule applies to,
/// exactly as the evaluator reports it.
pub open spec fn spec_eval(t: AST) -> Result<AST, AST>
    decreases t,
{
    if spec_is_val(t) {
        Ok(t)
    } else {
        match t {
            AST::IfThenElse(g, th, el) => match spec_eval(*g) {
                Ok(gv) => if gv is True {
                    spec_eval(*th)
                } else if gv is False {
                    spec_eval(*el)
                } else {
                    Err(gv)
                },
                Err(e) => Err(e),
            },
            AST::Succ(u) => match spec_eval(*u) {
                Ok(uv) => if spec_is_numeric_val(uv) {
                    Ok(AST::Succ(Box::new(uv)))
                } else {
                    Err(uv)
                },
                Err(e) => Err(e),
            },
            AST::Pred(u) => match spec_eval(*u) {
                Ok(uv) => match uv {
                    AST::Zero => Ok(AST::Zero),
                    AST::Succ(n) => if spec_is_numeric_val(*n) {
                        Ok(*n)
                    } else {
                        Err(AST::Succ(n))
                    },
                    _ => Err(uv),
                },
                Err(e) => Err(e),
            },
            AST::IsZero(u) => match spec_eval(*u) {
                Ok(uv) => match uv {
                    AST::Zero => Ok(AST::True),
                    AST::Succ(n) => if spec_is_numeric_val(*n) {
                        Ok(AST::False)
                    } else {
                        Err(AST::Succ(n))
                    },
                    _ => Err(uv),
                },
                Err(e) => Err(e),
            },
            _ => Err(t),
        }
    }
}

/// What the evaluator returns: the evaluation result, with a stuck
/// node wrapped in its error.
pub open spec fn spec_eval_result(t: AST) -> Result<AST, ArithError> {
    match spec_eval(t) {
        Ok(x) => Ok(x),
        Err(n) => Err(ArithError::UnknownRuleError(n)),
    }
}

/// Whenever evaluation succeeds, the result is a value.
pub proof fn lemma_eval_ok_is_val(t: AST)
    ensures
        spec_eval(t) matches Ok(x) ==> spec_is_val(x),
    decreases t,
{
    if !spec_is_val(t) {
        match t {
            AST::IfThenElse(g, th, el) => {
                lemma_eval_ok_is_val(*g);
                lemma_eval_ok_is_val(*th);
                lemma_eval_ok_is_val(*el);
            },
            AST::Succ(u) => lemma_eval_ok_is_val(*u),
            AST::Pred(u) => lemma_eval_ok_is_val(*u),
            AST::IsZero(u) => lemma_eval_ok_is_val(*u),
            _ => (),
        }
    }
}

/// Evaluating an evaluation result returns it unchanged: a second
/// pass over a reduced term is the identity.
pub proof fn lemma_eval_idempotent(t: AST)
    ensures
        spec_eval(t) matches Ok(x) ==> spec_eval(x) == Ok::<AST, AST>(x),
{
    lemma_eval_ok_is_val(t);
}

/// Reduce a term under the fixed big-step rules. A term that is
/// already a value comes back unchanged; a stuck term fails with
/// the node that blocked reduction.
pub fn eval_ast(v: AST) -> (r: Result<AST, ArithError>)
    ensures
        r == spec_eval_result(v),
    decreases v,
{
    if is_val(&v) {
        return Ok(v);
    }
    match v {
        AST::IfThenElse(g, th, el) => {
            let gv = match eval_ast(*g) {
                Ok(x) => x,
                Err(e) => {
                    return Err(e);
                },
            };
            match gv {
                AST::True => eval_ast(*th),
                AST::False => eval_ast(*el),
                other => Err(ArithError::UnknownRuleError(other)),
            }
        },
        AST::Succ(u) => {
            let uv = match eval_ast(*u) {
                Ok(x) => x,
                Err(e) => {
                    return Err(e);
                },
            };
            if is_numeric_val(&uv) {
                Ok(AST::Succ(Box::new(uv)))
            } else {
                Err(ArithError::UnknownRuleError(uv))
            }
        },
        AST::Pred(u) => {
            let uv = match eval_ast(*u) {
                Ok(x) => x,
                Err(e) => {
                    return Err(e);
                },
            };
            match uv {
                AST::Zero => Ok(AST::Zero),
                AST::Succ(n) => if is_numeric_val(&n) {
                    Ok(*n)
                } else {
                    Err(ArithError::UnknownRuleError(AST::Succ(n)))
                },
                other => Err(ArithError::UnknownRuleError(other)),
            }
        },
        AST::IsZero(u) => {
            let uv = match eval_ast(*u) {
                Ok(x) => x,
                Err(e) => {
                    return Err(e);
                },
            };
            match uv {
                AST::Zero => Ok(AST::True),
                AST::Succ(n) => if is_numeric_val(&n) {
                    Ok(AST::False)
                } else {
                    Err(ArithError::UnknownRuleError(AST::Succ(n)))
                },
                other => Err(ArithError::UnknownRuleError(other)),
            }
        },
        other => Err(ArithError::UnknownRuleError(other)),
    }
}

} // verus!
