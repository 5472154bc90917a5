use arith::ast::AST;
use arith::cst::{ParseNode, Rule};
use arith::errors::{ArithError, ParseDiag};
use arith::parse::try_parse;

#[test]
fn whitespace_is_flexible() {
    let t = try_parse("  if \t iszero   succ 0\nthen true else false \r").unwrap();
    let u = try_parse("if iszero succ 0 then true else false").unwrap();
    assert_eq!(t, u);
}

#[test]
fn single_literals() {
    assert_eq!(try_parse("true").unwrap(), AST::True);
    assert_eq!(try_parse("false").unwrap(), AST::False);
    assert_eq!(try_parse("0").unwrap(), AST::Zero);
}

#[test]
fn unknown_word_is_rejected() {
    let r = try_parse("frob");
    assert_eq!(
        r,
        Err(ArithError::ParseError(ParseDiag::UnknownWord(0)))
    );
    let r = try_parse("succ frob");
    assert_eq!(
        r,
        Err(ArithError::ParseError(ParseDiag::UnknownWord(5)))
    );
}

#[test]
fn keywords_must_be_exact_words() {
    // A keyword with trailing junk is one unknown word, not a keyword.
    let r = try_parse("trueX");
    assert_eq!(
        r,
        Err(ArithError::ParseError(ParseDiag::UnknownWord(0)))
    );
    let r = try_parse("su cc 0");
    assert_eq!(
        r,
        Err(ArithError::ParseError(ParseDiag::UnknownWord(0)))
    );
}

#[test]
fn missing_operand_is_rejected() {
    let r = try_parse("succ");
    assert_eq!(r, Err(ArithError::ParseError(ParseDiag::UnexpectedEnd)));
    let r = try_parse("");
    assert_eq!(r, Err(ArithError::ParseError(ParseDiag::UnexpectedEnd)));
    let r = try_parse("if 0 then true");
    assert_eq!(r, Err(ArithError::ParseError(ParseDiag::UnexpectedEnd)));
}

#[test]
fn misplaced_keyword_is_rejected() {
    let r = try_parse("then");
    assert_eq!(
        r,
        Err(ArithError::ParseError(ParseDiag::UnexpectedToken(0)))
    );
    // After the guard, `then` is required; `else` stands there instead.
    let r = try_parse("if 0 else true then false");
    assert_eq!(
        r,
        Err(ArithError::ParseError(ParseDiag::UnexpectedToken(2)))
    );
}

#[test]
fn leftover_tokens_are_rejected() {
    let r = try_parse("0 0");
    assert_eq!(
        r,
        Err(ArithError::ParseError(ParseDiag::TrailingInput(1)))
    );
    let r = try_parse("succ 0 true");
    assert_eq!(
        r,
        Err(ArithError::ParseError(ParseDiag::TrailingInput(2)))
    );
}

#[test]
fn builder_converts_tagged_nodes() {
    let leaf = ParseNode {
        rule: Rule::Zero,
        children: vec![],
    };
    let wrapped = ParseNode {
        rule: Rule::Term,
        children: vec![leaf],
    };
    let succ_node = ParseNode {
        rule: Rule::Succ,
        children: vec![wrapped],
    };
    assert_eq!(
        AST::try_from_node(&succ_node),
        Ok(AST::Succ(Box::new(AST::Zero)))
    );
}

#[test]
fn builder_rejects_unknown_rule_kinds() {
    let node = ParseNode {
        rule: Rule::EOI,
        children: vec![],
    };
    assert_eq!(
        AST::try_from_node(&node),
        Err(ArithError::UnexpectedNodeError(Rule::EOI))
    );
    let node = ParseNode {
        rule: Rule::Input,
        children: vec![],
    };
    assert_eq!(
        AST::try_from_node(&node),
        Err(ArithError::UnexpectedNodeError(Rule::Input))
    );
}

#[test]
fn builder_rejects_missing_children() {
    let node = ParseNode {
        rule: Rule::Succ,
        children: vec![],
    };
    assert_eq!(AST::try_from_node(&node), Err(ArithError::EmptyPairsError));
    let node = ParseNode {
        rule: Rule::Term,
        children: vec![],
    };
    assert_eq!(AST::try_from_node(&node), Err(ArithError::EmptyPairsError));
    let two_children = ParseNode {
        rule: Rule::IfThenElse,
        children: vec![
            ParseNode {
                rule: Rule::Zero,
                children: vec![],
            },
            ParseNode {
                rule: Rule::True,
                children: vec![],
            },
        ],
    };
    assert_eq!(
        AST::try_from_node(&two_children),
        Err(ArithError::EmptyPairsError)
    );
}

#[test]
fn deep_nesting_without_precedence() {
    // Each operator takes exactly the term right after it.
    let t = try_parse("iszero pred succ 0").unwrap();
    assert_eq!(
        t,
        AST::IsZero(Box::new(AST::Pred(Box::new(AST::Succ(Box::new(
            AST::Zero
        ))))))
    );
}
