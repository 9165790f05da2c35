use raro::{
    parse_chain, ErrorKind, Expected, Expr, InfixOp, Literal, ParseError, ParserContext,
    ParserState,
};

fn num(digits: &str) -> Expr {
    Expr::Literal(Literal::Num(digits.to_string()))
}

fn var(name: &str) -> Expr {
    Expr::Var(name.to_string())
}

fn infix(op: InfixOp, operand: Expr) -> Expr {
    Expr::InfixOp(op, Box::new(operand))
}

fn read(source: &str) -> Result<Expr, ParseError> {
    parse_chain(source, &mut ParserState::default(), &ParserContext::default())
}

#[test]
fn sum_of_three_is_a_flat_chain() {
    assert_eq!(
        read("1 + 2 + 3"),
        Ok(Expr::Chain(vec![
            num("1"),
            infix(InfixOp::Add, num("2")),
            infix(InfixOp::Add, num("3")),
        ]))
    );
}

#[test]
fn multiplication_does_not_bind_tighter() {
    assert_eq!(
        read("1 + 2 * 3"),
        Ok(Expr::Chain(vec![
            num("1"),
            infix(InfixOp::Add, num("2")),
            infix(InfixOp::Mul, num("3")),
        ]))
    );
}

#[test]
fn parentheses_nest_a_chain() {
    assert_eq!(
        read("(1 + 2) * 3"),
        Ok(Expr::Chain(vec![
            Expr::Chain(vec![num("1"), infix(InfixOp::Add, num("2"))]),
            infix(InfixOp::Mul, num("3")),
        ]))
    );
}

#[test]
fn a_single_operand_is_a_chain_of_one() {
    assert_eq!(read("42"), Ok(Expr::Chain(vec![num("42")])));
    assert_eq!(read("total"), Ok(Expr::Chain(vec![var("total")])));
    assert_eq!(
        read("true"),
        Ok(Expr::Chain(vec![Expr::Literal(Literal::Bool(true))]))
    );
    assert_eq!(
        read("(7)"),
        Ok(Expr::Chain(vec![Expr::Chain(vec![num("7")])]))
    );
}

#[test]
fn all_four_operators_are_read() {
    assert_eq!(
        read("a + b - c * d / e"),
        Ok(Expr::Chain(vec![
            var("a"),
            infix(InfixOp::Add, var("b")),
            infix(InfixOp::Sub, var("c")),
            infix(InfixOp::Mul, var("d")),
            infix(InfixOp::Div, var("e")),
        ]))
    );
}

#[test]
fn an_operand_may_be_a_chain_in_parentheses() {
    assert_eq!(
        read("x / (y - (1 + z))"),
        Ok(Expr::Chain(vec![
            var("x"),
            infix(
                InfixOp::Div,
                Expr::Chain(vec![
                    var("y"),
                    infix(
                        InfixOp::Sub,
                        Expr::Chain(vec![num("1"), infix(InfixOp::Add, var("z"))]),
                    ),
                ]),
            ),
        ]))
    );
}

#[test]
fn names_take_letters_digits_and_underscores() {
    assert_eq!(read("_a1"), Ok(Expr::Chain(vec![var("_a1")])));
    assert_eq!(read("truth"), Ok(Expr::Chain(vec![var("truth")])));
    assert_eq!(read("falsely"), Ok(Expr::Chain(vec![var("falsely")])));
    assert_eq!(read("as"), Ok(Expr::Chain(vec![var("as")])));
}

#[test]
fn a_missing_closing_parenthesis_is_reported_with_its_opening() {
    let error = read("(1 + 2").unwrap_err();
    assert_eq!(error.kind, ErrorKind::UnmatchedDelimiter { opening: 0 });
    assert_eq!(error.position, 6);
    assert_eq!(error.found, None);
    assert_eq!(error.expected.members(), vec![Expected::CloseParen, Expected::Continuation]);
    assert_eq!(error.span(), (0, 6));
    assert_eq!(error.message(), "unmatched delimiter");
}

#[test]
fn an_inner_parenthesis_is_reported_at_its_own_opening() {
    let error = read("1 + (2 * (3 + 4)").unwrap_err();
    assert_eq!(error.kind, ErrorKind::UnmatchedDelimiter { opening: 4 });
    assert_eq!(error.position, 16);
    assert_eq!(error.found, None);
}

#[test]
fn an_unexpected_token_before_the_closing_parenthesis_is_unmatched() {
    let error = read("(1 x)").unwrap_err();
    assert_eq!(error.kind, ErrorKind::UnmatchedDelimiter { opening: 0 });
    assert_eq!(error.position, 2);
    assert_eq!(error.found, Some(' '));
    assert_eq!(error.span(), (0, 3));
}

#[test]
fn a_chain_cannot_begin_with_an_operator() {
    let error = read("+ 1").unwrap_err();
    assert_eq!(error.kind, ErrorKind::LeadingOperator);
    assert_eq!(error.position, 0);
    assert_eq!(error.found, Some('+'));
    assert_eq!(
        error.expected.members(),
        vec![Expected::Literal, Expected::Identifier, Expected::OpenParen]
    );
    assert_eq!(error.message(), "a chain cannot begin with an operator");
    let inner = read("(* 2)").unwrap_err();
    assert_eq!(inner.kind, ErrorKind::LeadingOperator);
    assert_eq!(inner.position, 1);
}

#[test]
fn an_operator_needs_a_space_behind_it() {
    let error = read("1 +2").unwrap_err();
    assert_eq!(error.kind, ErrorKind::Unexpected);
    assert_eq!(error.position, 3);
    assert_eq!(error.found, Some('2'));
    assert_eq!(error.expected.members(), vec![Expected::Space]);
    assert_eq!(error.span(), (3, 4));
    assert_eq!(error.message(), "unexpected input");
}

#[test]
fn an_operator_needs_an_operand() {
    let error = read("1 + ").unwrap_err();
    assert_eq!(error.kind, ErrorKind::Unexpected);
    assert_eq!(error.position, 4);
    assert_eq!(error.found, None);
    assert_eq!(
        error.expected.members(),
        vec![Expected::Literal, Expected::Identifier, Expected::OpenParen]
    );
    assert_eq!(error.span(), (4, 4));
    let doubled = read("1 + + 2").unwrap_err();
    assert_eq!(doubled.kind, ErrorKind::Unexpected);
    assert_eq!(doubled.position, 4);
    assert_eq!(doubled.found, Some('+'));
}

#[test]
fn terms_are_parted_by_one_space_only() {
    let two = read("1  + 2").unwrap_err();
    assert_eq!(two.kind, ErrorKind::Unexpected);
    assert_eq!(two.position, 1);
    assert_eq!(two.expected.members(), vec![Expected::Continuation, Expected::EndOfInput]);
    let none = read("1+ 2").unwrap_err();
    assert_eq!(none.position, 1);
    assert_eq!(none.found, Some('+'));
    let line = read("1\n+ 2").unwrap_err();
    assert_eq!(line.position, 1);
    let within = read("( 1)").unwrap_err();
    assert_eq!(within.kind, ErrorKind::Unexpected);
    assert_eq!(within.position, 1);
}

#[test]
fn an_operand_alone_cannot_follow_an_operand() {
    let error = read("1 2").unwrap_err();
    assert_eq!(error.kind, ErrorKind::Unexpected);
    assert_eq!(error.position, 1);
    assert_eq!(error.found, Some(' '));
}

#[test]
fn an_empty_input_is_no_chain() {
    let error = read("").unwrap_err();
    assert_eq!(error.kind, ErrorKind::Unexpected);
    assert_eq!(error.position, 0);
    assert_eq!(error.found, None);
    assert_eq!(
        error.expected.members(),
        vec![Expected::Literal, Expected::Identifier, Expected::OpenParen]
    );
}

#[test]
fn positions_count_characters() {
    let error = read("\"é\" x").unwrap_err();
    assert_eq!(error.kind, ErrorKind::Unexpected);
    assert_eq!(error.position, 3);
    assert_eq!(error.found, Some(' '));
}

#[test]
fn a_copy_of_a_tree_equals_the_tree() {
    let tree = read("x / (y - (1 + \"z\")) * true").unwrap();
    assert_eq!(tree.clone(), tree);
    let literal = Literal::Str("a".to_string());
    assert_eq!(literal.clone(), literal);
}
