use arith::ast::{is_numeric_val, is_val, AST};
use arith::errors::ArithError;
use arith::eval::eval_ast;
use arith::metrics::{arith_depth, arith_size};
use arith::parse::try_parse;

fn succ(t: AST) -> AST {
    AST::Succ(Box::new(t))
}

#[test]
fn stuck_pred_of_boolean() {
    let r = eval_ast(AST::Pred(Box::new(AST::True)));
    assert_eq!(r, Err(ArithError::UnknownRuleError(AST::True)));
}

#[test]
fn stuck_succ_of_boolean() {
    let r = eval_ast(AST::Succ(Box::new(AST::True)));
    assert_eq!(r, Err(ArithError::UnknownRuleError(AST::True)));
}

#[test]
fn stuck_numeric_guard() {
    let t = AST::IfThenElse(
        Box::new(AST::Zero),
        Box::new(AST::True),
        Box::new(AST::False),
    );
    let r = eval_ast(t);
    assert_eq!(r, Err(ArithError::UnknownRuleError(AST::Zero)));
}

#[test]
fn stuck_node_is_reported_from_inside() {
    // The guard itself gets stuck; its blocking node is what surfaces.
    let t = AST::IfThenElse(
        Box::new(AST::Pred(Box::new(AST::False))),
        Box::new(AST::True),
        Box::new(AST::False),
    );
    let r = eval_ast(t);
    assert_eq!(r, Err(ArithError::UnknownRuleError(AST::False)));
}

#[test]
fn eval_result_is_a_value() {
    let t = try_parse("if iszero 0 then succ succ 0 else 0").unwrap();
    let v = eval_ast(t).unwrap();
    assert!(is_val(&v));
    assert_eq!(v, succ(succ(AST::Zero)));
}

#[test]
fn eval_of_a_value_is_identity() {
    let v = succ(succ(AST::Zero));
    let r = eval_ast(v).unwrap();
    assert_eq!(r, succ(succ(AST::Zero)));
    assert_eq!(eval_ast(AST::True).unwrap(), AST::True);
    assert_eq!(eval_ast(AST::False).unwrap(), AST::False);
}

#[test]
fn eval_twice_is_deterministic() {
    let input = "if iszero pred succ 0 then pred succ 0 else succ true";
    let t1 = try_parse(input).unwrap();
    let t2 = try_parse(input).unwrap();
    assert_eq!(t1, t2);
    let r1 = eval_ast(t1);
    let r2 = eval_ast(t2);
    assert_eq!(r1, r2);
    assert_eq!(r1, Ok(AST::Zero));
}

#[test]
fn value_predicates() {
    assert!(is_numeric_val(&AST::Zero));
    assert!(is_numeric_val(&succ(succ(AST::Zero))));
    assert!(!is_numeric_val(&AST::True));
    assert!(!is_numeric_val(&succ(AST::False)));
    assert!(is_val(&AST::True));
    assert!(is_val(&AST::False));
    assert!(is_val(&succ(AST::Zero)));
    assert!(!is_val(&AST::Pred(Box::new(AST::Zero))));
    assert!(!is_val(&succ(AST::True)));
}

#[test]
fn pred_of_zero_is_zero() {
    let t = try_parse("pred 0").unwrap();
    assert_eq!(eval_ast(t).unwrap(), AST::Zero);
}

#[test]
fn iszero_rules() {
    assert_eq!(
        eval_ast(AST::IsZero(Box::new(AST::Zero))).unwrap(),
        AST::True
    );
    assert_eq!(
        eval_ast(AST::IsZero(Box::new(succ(AST::Zero)))).unwrap(),
        AST::False
    );
}

#[test]
fn metrics_on_literals_and_chains() {
    assert_eq!(arith_size(&AST::Zero), 1);
    assert_eq!(arith_depth(&AST::Zero), 1);
    let chain = succ(succ(succ(AST::Zero)));
    assert_eq!(arith_size(&chain), 4);
    assert_eq!(arith_depth(&chain), 4);
}

#[test]
fn size_dominates_depth() {
    let t = try_parse("if iszero pred succ 0 then true else succ succ 0").unwrap();
    let size = arith_size(&t);
    let depth = arith_depth(&t);
    assert!(size >= depth);
    assert!(depth >= 1);
    assert_eq!(size, 9);
    assert_eq!(depth, 5);
}
