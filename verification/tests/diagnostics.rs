use raro::{ErrorKind, Expected, ExpectedSet, ParseError, ParserContext, ParserState};

const ALL: [Expected; 13] = [
    Expected::Literal,
    Expected::Identifier,
    Expected::OpenParen,
    Expected::CloseParen,
    Expected::Operator,
    Expected::Space,
    Expected::Continuation,
    Expected::KeywordAs,
    Expected::Semicolon,
    Expected::OpenBrace,
    Expected::CloseBrace,
    Expected::Quote,
    Expected::EndOfInput,
];

#[test]
fn the_empty_set_has_no_member() {
    let set = ExpectedSet::empty();
    for e in ALL {
        assert!(!set.contains(e));
    }
}

#[test]
fn a_set_of_one_has_that_member_only() {
    for e in ALL {
        let set = ExpectedSet::single(e);
        for other in ALL {
            assert_eq!(set.contains(other), other == e);
        }
    }
}

#[test]
fn adding_a_member_keeps_the_others() {
    for first in ALL {
        for second in ALL {
            let set = ExpectedSet::empty().with(first).with(second);
            for e in ALL {
                assert_eq!(set.contains(e), e == first || e == second);
            }
        }
    }
}

#[test]
fn an_operand_begins_with_a_literal_a_name_or_a_parenthesis() {
    let set = ExpectedSet::for_operand();
    for e in ALL {
        assert_eq!(
            set.contains(e),
            e == Expected::Literal || e == Expected::Identifier || e == Expected::OpenParen
        );
    }
}

#[test]
fn an_error_shows_the_character_where_it_stands() {
    let input: Vec<char> = "ab".chars().collect();
    let within = ParseError::at(&input, ErrorKind::Unexpected, 1, ExpectedSet::empty());
    assert_eq!(within.position, 1);
    assert_eq!(within.found, Some('b'));
    assert_eq!(within.span(), (1, 2));
    let at_end = ParseError::at(&input, ErrorKind::EmptyStatement, 2, ExpectedSet::empty());
    assert_eq!(at_end.found, None);
    assert_eq!(at_end.span(), (2, 2));
}

#[test]
fn the_span_of_an_unmatched_delimiter_begins_at_the_delimiter() {
    let input: Vec<char> = "(a b".chars().collect();
    let error = ParseError::at(
        &input,
        ErrorKind::UnmatchedDelimiter { opening: 0 },
        2,
        ExpectedSet::single(Expected::CloseParen),
    );
    assert_eq!(error.span(), (0, 3));
}

#[test]
fn every_kind_of_error_has_its_sentence() {
    let input: Vec<char> = Vec::new();
    let of = |kind| ParseError::at(&input, kind, 0, ExpectedSet::empty()).message();
    assert_eq!(of(ErrorKind::Unexpected), "unexpected input");
    assert_eq!(of(ErrorKind::UnmatchedDelimiter { opening: 0 }), "unmatched delimiter");
    assert_eq!(of(ErrorKind::EmptyStatement), "empty statement");
    assert_eq!(of(ErrorKind::LeadingOperator), "a chain cannot begin with an operator");
}

#[test]
fn state_and_context_begin_empty() {
    assert_eq!(ParserState::default(), ParserState {});
    assert_eq!(ParserContext::default(), ParserContext {});
}

#[test]
fn the_members_of_a_set_are_listed_in_order_and_once() {
    assert_eq!(ExpectedSet::empty().members(), vec![]);
    assert_eq!(
        ExpectedSet::empty()
            .with(Expected::Semicolon)
            .with(Expected::Literal)
            .with(Expected::Semicolon)
            .members(),
        vec![Expected::Literal, Expected::Semicolon]
    );
    let mut full = ExpectedSet::empty();
    for e in ALL {
        full = full.with(e);
    }
    assert_eq!(full.members(), ALL.to_vec());
}

#[test]
fn every_continuation_has_its_name() {
    assert_eq!(Expected::Literal.name(), "a literal");
    assert_eq!(Expected::Identifier.name(), "a name");
    assert_eq!(Expected::OpenParen.name(), "`(`");
    assert_eq!(Expected::CloseParen.name(), "`)`");
    assert_eq!(Expected::Operator.name(), "an operator");
    assert_eq!(Expected::Space.name(), "a space");
    assert_eq!(Expected::Continuation.name(), "a space and an operator");
    assert_eq!(Expected::KeywordAs.name(), "` as `");
    assert_eq!(Expected::Semicolon.name(), "`;`");
    assert_eq!(Expected::OpenBrace.name(), "`{`");
    assert_eq!(Expected::CloseBrace.name(), "`}`");
    assert_eq!(Expected::Quote.name(), "`\"`");
    assert_eq!(Expected::EndOfInput.name(), "the end of the input");
}

#[test]
fn the_union_of_two_sets_has_the_members_of_both() {
    for first in ALL {
        for second in ALL {
            let set = ExpectedSet::single(first).union(ExpectedSet::single(second));
            for e in ALL {
                assert_eq!(set.contains(e), e == first || e == second);
            }
        }
    }
    assert_eq!(ExpectedSet::empty().union(ExpectedSet::empty()), ExpectedSet::empty());
}

#[test]
fn an_error_expects_more_only_where_it_lies() {
    let input: Vec<char> = "ab".chars().collect();
    let error = ParseError::at(
        &input,
        ErrorKind::Unexpected,
        1,
        ExpectedSet::single(Expected::Space),
    );
    let here = error.or_expected(1, ExpectedSet::single(Expected::Semicolon));
    assert_eq!(here.expected.members(), vec![Expected::Space, Expected::Semicolon]);
    assert_eq!(here.kind, error.kind);
    assert_eq!(here.position, error.position);
    assert_eq!(here.found, error.found);
    let elsewhere = error.or_expected(0, ExpectedSet::single(Expected::Semicolon));
    assert_eq!(elsewhere, error);
}
