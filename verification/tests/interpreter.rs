use arith::ast::AST;
use arith::eval::eval_ast;
use arith::metrics::{arith_depth, arith_size};
use arith::parse::try_parse;

#[test]
fn test_parse() {
    let input = "if iszero pred succ 0 then true else false";
    let input = try_parse(input).unwrap();
    assert_eq!(
        input,
        AST::IfThenElse(
            Box::new(AST::IsZero(Box::new(AST::Pred(Box::new(AST::Succ(
                Box::new(AST::Zero)
            )))))),
            Box::new(AST::True),
            Box::new(AST::False)
        )
    );
}

#[test]
fn test_numeric_ops() {
    let input = "pred pred succ succ succ 0";
    let input = try_parse(input).unwrap();
    let output = eval_ast(input).unwrap();
    assert_eq!(output, AST::Succ(Box::new(AST::Zero)));
}

#[test]
fn test_eval_if_else() {
    let input = "if iszero succ 0 then true else false";
    let input = try_parse(input).unwrap();
    let output = eval_ast(input).unwrap();
    assert_eq!(output, AST::False);
}

#[test]
fn test_arith_size_and_depth() {
    let input = "if iszero succ 0 then if iszero pred 0 then true else succ 0 else false";
    let input = try_parse(input).unwrap();
    let size = arith_size(&input);
    assert_eq!(size, 12);
    let depth = arith_depth(&input);
    assert_eq!(depth, 5);
}
