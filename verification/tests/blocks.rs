use raro::{
    parse_block, ErrorKind, Expected, Expr, InfixOp, Literal, ParseError, ParserContext,
    ParserState,
};

fn num(digits: &str) -> Expr {
    Expr::Literal(Literal::Num(digits.to_string()))
}

fn infix(op: InfixOp, operand: Expr) -> Expr {
    Expr::InfixOp(op, Box::new(operand))
}

fn read(source: &str) -> Result<Expr, ParseError> {
    parse_block(source, &mut ParserState::default(), &ParserContext::default())
}

#[test]
fn a_block_has_statements_and_a_trailing_expression() {
    assert_eq!(
        read("{ 1 + 2; 3 }"),
        Ok(Expr::Block {
            statements: vec![Expr::Chain(vec![num("1"), infix(InfixOp::Add, num("2"))])],
            trailing_expr: Some(Box::new(Expr::Chain(vec![num("3")]))),
        })
    );
}

#[test]
fn a_block_that_ends_with_a_terminator_has_no_trailing_expression() {
    assert_eq!(
        read("{ 1; 2; }"),
        Ok(Expr::Block {
            statements: vec![Expr::Chain(vec![num("1")]), Expr::Chain(vec![num("2")])],
            trailing_expr: None,
        })
    );
}

#[test]
fn a_block_may_hold_one_expression_only() {
    assert_eq!(
        read("{7}"),
        Ok(Expr::Block {
            statements: vec![],
            trailing_expr: Some(Box::new(Expr::Chain(vec![num("7")]))),
        })
    );
}

#[test]
fn layout_may_stand_around_the_items_of_a_block() {
    assert_eq!(
        read("{\n\t1;\r\n\n  2;3\n}"),
        Ok(Expr::Block {
            statements: vec![Expr::Chain(vec![num("1")]), Expr::Chain(vec![num("2")])],
            trailing_expr: Some(Box::new(Expr::Chain(vec![num("3")]))),
        })
    );
}

#[test]
fn a_block_needs_a_chain() {
    let empty = read("{}").unwrap_err();
    assert_eq!(empty.kind, ErrorKind::Unexpected);
    assert_eq!(empty.position, 1);
    assert_eq!(empty.found, Some('}'));
    assert!(empty.expected.contains(Expected::Literal));
    assert!(!empty.expected.contains(Expected::CloseBrace));
    let blank = read("{ }").unwrap_err();
    assert_eq!(blank.kind, ErrorKind::Unexpected);
    assert_eq!(blank.position, 2);
}

#[test]
fn a_missing_closing_brace_is_reported_with_its_opening() {
    let after_expression = read("{ 1").unwrap_err();
    assert_eq!(after_expression.kind, ErrorKind::UnmatchedDelimiter { opening: 0 });
    assert_eq!(after_expression.position, 3);
    assert_eq!(after_expression.found, None);
    assert!(after_expression.expected.contains(Expected::CloseBrace));
    assert!(after_expression.expected.contains(Expected::Semicolon));
    assert!(after_expression.expected.contains(Expected::Continuation));
    assert_eq!(after_expression.span(), (0, 3));
    let after_statement = read("{ 1; ").unwrap_err();
    assert_eq!(after_statement.kind, ErrorKind::UnmatchedDelimiter { opening: 0 });
    assert_eq!(after_statement.position, 5);
    assert!(after_statement.expected.contains(Expected::CloseBrace));
    assert!(after_statement.expected.contains(Expected::Literal));
    let at_once = read("{").unwrap_err();
    assert_eq!(at_once.kind, ErrorKind::UnmatchedDelimiter { opening: 0 });
    assert_eq!(at_once.position, 1);
    assert!(!at_once.expected.contains(Expected::CloseBrace));
}

#[test]
fn nothing_may_follow_the_trailing_expression_but_the_closing_brace() {
    let error = read("{ 1 2 }").unwrap_err();
    assert_eq!(error.kind, ErrorKind::UnmatchedDelimiter { opening: 0 });
    assert_eq!(error.position, 4);
    assert_eq!(error.found, Some('2'));
}

#[test]
fn a_terminator_needs_a_chain_before_it() {
    let first = read("{ ; }").unwrap_err();
    assert_eq!(first.kind, ErrorKind::EmptyStatement);
    assert_eq!(first.position, 2);
    assert_eq!(first.found, Some(';'));
    assert_eq!(first.message(), "empty statement");
    let second = read("{ 1;; }").unwrap_err();
    assert_eq!(second.kind, ErrorKind::EmptyStatement);
    assert_eq!(second.position, 4);
}

#[test]
fn a_block_begins_with_a_brace() {
    let error = read("1").unwrap_err();
    assert_eq!(error.kind, ErrorKind::Unexpected);
    assert_eq!(error.position, 0);
    assert!(error.expected.contains(Expected::OpenBrace));
    let spaced = read(" {1}").unwrap_err();
    assert_eq!(spaced.position, 0);
}

#[test]
fn nothing_may_follow_a_block() {
    let error = read("{ 1 } x").unwrap_err();
    assert_eq!(error.kind, ErrorKind::Unexpected);
    assert_eq!(error.position, 5);
    assert_eq!(error.found, Some(' '));
    assert!(error.expected.contains(Expected::EndOfInput));
}

#[test]
fn an_error_in_a_chain_of_a_block_is_that_of_the_chain() {
    let error = read("{ 1 + ; }").unwrap_err();
    assert_eq!(error.kind, ErrorKind::Unexpected);
    assert_eq!(error.position, 6);
    assert_eq!(error.found, Some(';'));
    let assigned = read("{ 1 as x; }").unwrap_err();
    assert_eq!(assigned.kind, ErrorKind::UnmatchedDelimiter { opening: 0 });
    assert_eq!(assigned.position, 4);
}

#[test]
fn where_a_further_item_may_begin_the_block_may_end() {
    let first = read("{ ) }").unwrap_err();
    assert_eq!(first.kind, ErrorKind::Unexpected);
    assert_eq!(first.position, 2);
    assert_eq!(
        first.expected.members(),
        vec![Expected::Literal, Expected::Identifier, Expected::OpenParen]
    );
    let further = read("{ 1; ) }").unwrap_err();
    assert_eq!(further.kind, ErrorKind::Unexpected);
    assert_eq!(further.position, 5);
    assert_eq!(
        further.expected.members(),
        vec![
            Expected::Literal,
            Expected::Identifier,
            Expected::OpenParen,
            Expected::CloseBrace,
        ]
    );
    let operator = read("{ 1; * 2 }").unwrap_err();
    assert_eq!(operator.kind, ErrorKind::LeadingOperator);
    assert_eq!(operator.position, 5);
    assert!(operator.expected.contains(Expected::CloseBrace));
    let deeper = read("{ 1; (2 }").unwrap_err();
    assert_eq!(deeper.kind, ErrorKind::UnmatchedDelimiter { opening: 5 });
    assert_eq!(deeper.position, 7);
    assert!(!deeper.expected.contains(Expected::CloseBrace));
    assert!(deeper.expected.contains(Expected::CloseParen));
}
