use kaleido::ast::{create_ast, ParseError, AST};
use kaleido::lexer::{tokenize, Op, Token};

fn parse(source: &str) -> Result<AST, ParseError> {
    create_ast(tokenize(source).expect("source must tokenize"))
}

fn id(name: &str) -> AST {
    AST::Id(name.to_string())
}

fn lit(text: &str) -> AST {
    AST::Lit(text.to_string())
}

fn bin(op: Op, left: AST, right: AST) -> AST {
    AST::BinOp {
        op,
        left: Box::new(left),
        right: Box::new(right),
    }
}

/// Replaces every literal leaf spelled `from` by a copy of `to`.
fn substitute(ast: AST, from: &str, to: &AST) -> AST {
    match ast {
        AST::Lit(text) => {
            if text == from {
                clone_tree(to)
            } else {
                AST::Lit(text)
            }
        }
        AST::BinOp { op, left, right } => AST::BinOp {
            op,
            left: Box::new(substitute(*left, from, to)),
            right: Box::new(substitute(*right, from, to)),
        },
        other => other,
    }
}

fn clone_tree(ast: &AST) -> AST {
    match ast {
        AST::Id(name) => AST::Id(name.clone()),
        AST::Lit(text) => AST::Lit(text.clone()),
        AST::BinOp { op, left, right } => AST::BinOp {
            op: *op,
            left: Box::new(clone_tree(left)),
            right: Box::new(clone_tree(right)),
        },
        _ => panic!("only parser-built nodes are cloned here"),
    }
}

#[test]
fn lone_identifier_is_a_leaf() {
    assert_eq!(parse("x"), Ok(id("x")));
}

#[test]
fn lone_literal_is_a_leaf() {
    assert_eq!(parse("3.5"), Ok(lit("3.5")));
}

#[test]
fn multiplication_binds_tighter_than_addition() {
    assert_eq!(
        parse("1 + 2 * 3"),
        Ok(bin(Op::Plus, lit("1"), bin(Op::Mult, lit("2"), lit("3"))))
    );
}

#[test]
fn equal_priority_chains_to_the_left() {
    assert_eq!(
        parse("1 + 2 + 3"),
        Ok(bin(Op::Plus, bin(Op::Plus, lit("1"), lit("2")), lit("3")))
    );
}

#[test]
fn division_chains_to_the_left() {
    assert_eq!(
        parse("10 / 2 / 5"),
        Ok(bin(Op::Div, bin(Op::Div, lit("10"), lit("2")), lit("5")))
    );
}

#[test]
fn bracketed_group_acts_as_one_operand() {
    let grouped = parse("a = 1 + (2 + 3) * 4 + 5").expect("must parse");
    let with_placeholder = parse("a = 1 + 9 * 4 + 5").expect("must parse");
    let group = bin(Op::Plus, lit("2"), lit("3"));
    assert_eq!(grouped, substitute(with_placeholder, "9", &group));
}

#[test]
fn nested_brackets() {
    assert_eq!(
        parse("((1 + 2) * 3)"),
        Ok(bin(Op::Mult, bin(Op::Plus, lit("1"), lit("2")), lit("3")))
    );
}

#[test]
fn comparison_binds_looser_than_addition() {
    assert_eq!(
        parse("a < b + 1"),
        Ok(bin(Op::Lt, id("a"), bin(Op::Plus, id("b"), lit("1"))))
    );
}

#[test]
fn assignment_binds_loosest() {
    assert_eq!(
        parse("a = b + c"),
        Ok(bin(Op::Assign, id("a"), bin(Op::Plus, id("b"), id("c"))))
    );
}

#[test]
fn logical_and_binds_tighter_than_or() {
    assert_eq!(
        parse("a && b || c"),
        Ok(bin(Op::Or, bin(Op::And, id("a"), id("b")), id("c")))
    );
}

#[test]
fn comment_is_ignored_by_the_parser() {
    assert_eq!(parse("x // comment\n"), Ok(id("x")));
}

#[test]
fn double_space_is_ignored_by_the_parser() {
    assert_eq!(parse("1  + 2"), Ok(bin(Op::Plus, lit("1"), lit("2"))));
}

#[test]
fn operator_without_operand_fails() {
    assert_eq!(parse("1 +"), Err(ParseError::ExpectedOperand));
}

#[test]
fn empty_input_fails_wanting_an_operand() {
    assert_eq!(parse(""), Err(ParseError::ExpectedOperand));
}

#[test]
fn leading_operator_fails_wanting_an_operand() {
    assert_eq!(parse("-1"), Err(ParseError::ExpectedOperand));
}

#[test]
fn two_operands_fail_wanting_an_operator() {
    assert_eq!(parse("1 2"), Err(ParseError::ExpectedOperator));
}

#[test]
fn bracketed_lone_operand_fails_wanting_an_operator() {
    assert_eq!(parse("(a)"), Err(ParseError::ExpectedOperator));
}

#[test]
fn keyword_is_no_operand() {
    assert_eq!(parse("if"), Err(ParseError::ExpectedOperand));
}

#[test]
fn trailing_operand_after_expression_is_left_unread() {
    assert_eq!(parse("1 + 2 3"), Ok(bin(Op::Plus, lit("1"), lit("2"))));
}

#[test]
fn tokens_can_be_fed_directly() {
    let tokens = vec![
        Token::Id("a".to_string()),
        Token::Op(Op::Assign),
        Token::Lit("1".to_string()),
    ];
    assert_eq!(
        create_ast(tokens),
        Ok(bin(Op::Assign, id("a"), lit("1")))
    );
}
