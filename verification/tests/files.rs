use raro::{
    file_parser, parse_chain, ErrorKind, Expected, Expr, InfixOp, Literal, Location, ParseError,
    ParserContext, ParserState,
};

fn num(digits: &str) -> Expr {
    Expr::Literal(Literal::Num(digits.to_string()))
}

fn var(name: &str) -> Expr {
    Expr::Var(name.to_string())
}

fn infix(op: InfixOp, operand: Expr) -> Expr {
    Expr::InfixOp(op, Box::new(operand))
}

fn assign(name: &str, value: Expr) -> Expr {
    Expr::Assign(Location::Var(name.to_string()), Box::new(value))
}

fn read(source: &str) -> Result<Vec<Expr>, ParseError> {
    file_parser(source, &mut ParserState::default(), &ParserContext::default())
}

#[test]
fn an_assignment_binds_a_chain_to_a_name() {
    assert_eq!(
        read("1 + 2 as x;"),
        Ok(vec![assign("x", Expr::Chain(vec![num("1"), infix(InfixOp::Add, num("2"))]))])
    );
}

#[test]
fn a_statement_may_be_a_bare_chain() {
    assert_eq!(read("1;"), Ok(vec![Expr::Chain(vec![num("1")])]));
}

#[test]
fn an_empty_file_has_no_statements() {
    assert_eq!(read(""), Ok(vec![]));
    assert_eq!(read(" \n\t\r\n"), Ok(vec![]));
}

#[test]
fn statements_are_read_in_order() {
    assert_eq!(
        read("1 as a;\n\na * 2 as b;b;"),
        Ok(vec![
            assign("a", Expr::Chain(vec![num("1")])),
            assign("b", Expr::Chain(vec![var("a"), infix(InfixOp::Mul, num("2"))])),
            Expr::Chain(vec![var("b")]),
        ])
    );
}

#[test]
fn layout_may_stand_around_statements() {
    assert_eq!(
        read("\n  1;\t2;\r\n"),
        Ok(vec![Expr::Chain(vec![num("1")]), Expr::Chain(vec![num("2")])])
    );
}

#[test]
fn a_string_may_hold_what_ends_a_statement() {
    assert_eq!(
        read("\"a;b\" as s;"),
        Ok(vec![assign(
            "s",
            Expr::Chain(vec![Expr::Literal(Literal::Str("a;b".to_string()))])
        )])
    );
}

#[test]
fn a_missing_closing_parenthesis_yields_no_tree() {
    let error = read("(1 + 2").unwrap_err();
    assert_eq!(error.kind, ErrorKind::UnmatchedDelimiter { opening: 0 });
    assert_eq!(error.position, 6);
    assert_eq!(error.found, None);
    let later = read("1;\n(1 + 2;").unwrap_err();
    assert_eq!(later.kind, ErrorKind::UnmatchedDelimiter { opening: 3 });
    assert_eq!(later.position, 9);
    assert_eq!(later.found, Some(';'));
}

#[test]
fn reading_again_gives_the_same_tree() {
    let source = "1 + 2 as x;\n(x * \"a\\tb\") / y as z;\ntrue;";
    let mut state = ParserState::default();
    let ctx = ParserContext::default();
    let first = file_parser(source, &mut state, &ctx);
    let second = file_parser(source, &mut state, &ctx);
    let third = file_parser(source, &mut ParserState::default(), &ParserContext::default());
    assert!(first.is_ok());
    assert_eq!(first, second);
    assert_eq!(first, third);
    let broken = "1 + 2 as x;\n(x * 3";
    assert_eq!(
        file_parser(broken, &mut state, &ctx),
        file_parser(broken, &mut state, &ctx)
    );
    assert!(file_parser(broken, &mut state, &ctx).is_err());
}

#[test]
fn a_terminator_alone_is_an_empty_statement() {
    let error = read(";").unwrap_err();
    assert_eq!(error.kind, ErrorKind::EmptyStatement);
    assert_eq!(error.position, 0);
    assert_eq!(error.found, Some(';'));
    let second = read("1;;").unwrap_err();
    assert_eq!(second.kind, ErrorKind::EmptyStatement);
    assert_eq!(second.position, 2);
    let spaced = read("1; ;").unwrap_err();
    assert_eq!(spaced.kind, ErrorKind::EmptyStatement);
    assert_eq!(spaced.position, 3);
}

#[test]
fn a_statement_without_its_terminator_is_reported_where_it_stalls() {
    let error = read("1 + 2").unwrap_err();
    assert_eq!(error.kind, ErrorKind::Unexpected);
    assert_eq!(error.position, 5);
    assert_eq!(error.found, None);
    assert!(error.expected.contains(Expected::Semicolon));
    assert!(error.expected.contains(Expected::KeywordAs));
    assert!(error.expected.contains(Expected::Continuation));
    assert!(!error.expected.contains(Expected::EndOfInput));
    let trailing = read("1;\n2 as y").unwrap_err();
    assert_eq!(trailing.kind, ErrorKind::Unexpected);
    assert_eq!(trailing.position, 9);
    assert_eq!(trailing.found, None);
    assert!(trailing.expected.contains(Expected::Semicolon));
    assert!(!trailing.expected.contains(Expected::KeywordAs));
}

#[test]
fn no_layout_may_stand_before_the_terminator() {
    let error = read("1 ;").unwrap_err();
    assert_eq!(error.kind, ErrorKind::Unexpected);
    assert_eq!(error.position, 1);
    assert_eq!(error.found, Some(' '));
}

#[test]
fn an_assignment_needs_a_name() {
    let missing = read("1 + 2 as ;").unwrap_err();
    assert_eq!(missing.kind, ErrorKind::Unexpected);
    assert_eq!(missing.position, 9);
    assert_eq!(missing.found, Some(';'));
    assert!(missing.expected.contains(Expected::Identifier));
    let literal = read("1 as true;").unwrap_err();
    assert_eq!(literal.position, 5);
    let number = read("1 as 2;").unwrap_err();
    assert_eq!(number.position, 5);
    let chain = read("1 as (x);").unwrap_err();
    assert_eq!(chain.position, 5);
}

#[test]
fn the_keyword_of_an_assignment_stands_between_two_spaces() {
    let glued = read("1 asx;").unwrap_err();
    assert_eq!(glued.kind, ErrorKind::Unexpected);
    assert_eq!(glued.position, 1);
    let doubled = read("1 as  x;").unwrap_err();
    assert_eq!(doubled.position, 5);
    assert_eq!(doubled.found, Some(' '));
}

#[test]
fn a_name_may_be_assigned_once_in_a_statement() {
    let error = read("1 as x as y;").unwrap_err();
    assert_eq!(error.kind, ErrorKind::Unexpected);
    assert_eq!(error.position, 6);
    assert!(error.expected.contains(Expected::Semicolon));
}

#[test]
fn a_block_is_no_statement() {
    let error = read("{ 1 };").unwrap_err();
    assert_eq!(error.kind, ErrorKind::Unexpected);
    assert_eq!(error.position, 0);
    assert_eq!(error.found, Some('{'));
}

#[test]
fn the_first_error_is_reported() {
    let error = read("1 +;\n(2;").unwrap_err();
    assert_eq!(error.kind, ErrorKind::Unexpected);
    assert_eq!(error.position, 3);
}

#[test]
fn a_chain_is_read_alike_alone_and_in_a_statement() {
    let alone = parse_chain(
        "a + (b * 2)",
        &mut ParserState::default(),
        &ParserContext::default(),
    )
    .unwrap();
    assert_eq!(read("a + (b * 2);"), Ok(vec![alone]));
}

#[test]
fn where_a_statement_may_begin_the_file_may_end() {
    let stray = read("1; }").unwrap_err();
    assert_eq!(stray.kind, ErrorKind::Unexpected);
    assert_eq!(stray.position, 3);
    assert_eq!(stray.found, Some('}'));
    assert_eq!(
        stray.expected.members(),
        vec![
            Expected::Literal,
            Expected::Identifier,
            Expected::OpenParen,
            Expected::EndOfInput,
        ]
    );
    let empty = read(";").unwrap_err();
    assert!(empty.expected.contains(Expected::EndOfInput));
    let operator = read("\n+ 1;").unwrap_err();
    assert_eq!(operator.kind, ErrorKind::LeadingOperator);
    assert_eq!(operator.position, 1);
    assert!(operator.expected.contains(Expected::EndOfInput));
    let within = read("(+ 1);").unwrap_err();
    assert_eq!(within.kind, ErrorKind::LeadingOperator);
    assert_eq!(within.position, 1);
    assert!(!within.expected.contains(Expected::EndOfInput));
}
