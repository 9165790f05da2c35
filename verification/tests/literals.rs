use raro::{
    parse_literal, ErrorKind, Expected, Literal, ParseError, ParserContext, ParserState,
};

fn read(source: &str) -> Result<Literal, ParseError> {
    parse_literal(source, &mut ParserState::default(), &ParserContext::default())
}

fn text(source: &str) -> String {
    match read(source) {
        Ok(Literal::Str(text)) => text,
        other => panic!("no string: {:?}", other),
    }
}

#[test]
fn digits_are_a_number() {
    assert_eq!(read("0"), Ok(Literal::Num("0".to_string())));
    assert_eq!(read("12345"), Ok(Literal::Num("12345".to_string())));
    assert_eq!(read("12345").unwrap().to_u64(), Some(12345));
}

#[test]
fn leading_zeros_are_kept_and_do_not_count() {
    assert_eq!(read("007"), Ok(Literal::Num("007".to_string())));
    assert_eq!(read("007").unwrap().to_u64(), Some(7));
}

#[test]
fn the_value_of_a_number_is_exact_as_a_float() {
    for source in ["0", "1", "42", "4294967296", "9007199254740991", "9007199254740992"] {
        let value = read(source).unwrap().to_u64().unwrap();
        let float: f64 = source.parse().unwrap();
        assert_eq!(value as f64, float);
        assert_eq!(float as u64, value);
    }
}

#[test]
fn a_number_beyond_64_bits_keeps_its_digits() {
    let largest = read("18446744073709551615").unwrap();
    assert_eq!(largest.to_u64(), Some(u64::MAX));
    let beyond = read("18446744073709551616").unwrap();
    assert_eq!(beyond, Literal::Num("18446744073709551616".to_string()));
    assert_eq!(beyond.to_u64(), None);
    let long = "9".repeat(400);
    assert_eq!(read(&long), Ok(Literal::Num(long.clone())));
    assert_eq!(read(&long).unwrap().to_u64(), None);
}

#[test]
fn only_a_well_written_number_has_a_value() {
    assert_eq!(Literal::Num(String::new()).to_u64(), None);
    assert_eq!(Literal::Num("12a".to_string()).to_u64(), None);
    assert_eq!(Literal::Num("٣".to_string()).to_u64(), None);
    assert_eq!(Literal::Bool(true).to_u64(), None);
    assert_eq!(Literal::Str("12".to_string()).to_u64(), None);
}

#[test]
fn true_and_false_are_booleans() {
    assert_eq!(read("true"), Ok(Literal::Bool(true)));
    assert_eq!(read("false"), Ok(Literal::Bool(false)));
}

#[test]
fn a_longer_word_is_no_boolean() {
    for source in ["truex", "true1", "false_", "True", "tru"] {
        let error = read(source).unwrap_err();
        assert_eq!(error.kind, ErrorKind::Unexpected);
        assert_eq!(error.position, 0);
        assert!(error.expected.contains(Expected::Literal));
        assert!(!error.expected.contains(Expected::Identifier));
    }
}

#[test]
fn what_follows_a_literal_is_reported() {
    let error = read("12ab").unwrap_err();
    assert_eq!(error.kind, ErrorKind::Unexpected);
    assert_eq!(error.position, 2);
    assert_eq!(error.found, Some('a'));
    assert!(error.expected.contains(Expected::EndOfInput));
    let spaced = read("true ").unwrap_err();
    assert_eq!(spaced.position, 4);
    let signed = read("-1").unwrap_err();
    assert_eq!(signed.position, 0);
}

#[test]
fn a_plain_string_is_its_text() {
    assert_eq!(text("\"\""), "");
    assert_eq!(text("\"abc\""), "abc");
    assert_eq!(text("\"a b;c(d)\""), "a b;c(d)");
    assert_eq!(text("\"héllo\""), "héllo");
}

#[test]
fn escape_sequences_are_replaced() {
    assert_eq!(text(r#""a\tb""#), "a\tb");
    assert_eq!(text(r#""a\nb""#), "a\nb");
    assert_eq!(text(r#""a\rb""#), "a\rb");
    assert_eq!(text(r#""say \"hi\"""#), "say \"hi\"");
    assert_eq!(text(r#""back\\slash""#), "back\\slash");
}

#[test]
fn escape_sequences_are_found_from_the_left() {
    assert_eq!(text(r#""\\n""#), "\\n");
    assert_eq!(text(r#""\\\n""#), "\\\n");
    assert_eq!(text(r#""\\\\""#), "\\\\");
}

#[test]
fn an_unknown_escape_stands_for_itself() {
    assert_eq!(text(r#""\x""#), "\\x");
    assert_eq!(text(r#""a\ b""#), "a\\ b");
    assert_eq!(text(r#""\N""#), "\\N");
}

#[test]
fn one_leading_line_feed_is_dropped() {
    assert_eq!(text("\"\nabc\""), "abc");
    assert_eq!(text("\"\n\nabc\""), "\nabc");
    assert_eq!(text(r#""\nabc""#), "abc");
    assert_eq!(text("\"\n\""), "");
}

#[test]
fn lines_lose_the_indentation_of_the_first() {
    assert_eq!(text("\"\n    hello\n      world\n    \""), "hello\n  world\n");
    assert_eq!(text("\"\n\thello\n\t\tworld\""), "hello\n\tworld");
    assert_eq!(text("\"  a\""), "a");
}

#[test]
fn a_line_loses_no_more_than_its_own_indentation() {
    assert_eq!(text("\"\n    a\n  b\nc\""), "a\nb\nc");
    assert_eq!(text("\"\n    a\n  \n\""), "a\n\n");
}

#[test]
fn blank_lines_do_not_set_the_indentation() {
    assert_eq!(text("\"\n\n  a\n   b\""), "\na\n b");
    assert_eq!(text("\"\n \n  a\""), "\na");
    assert_eq!(text("\"\n   \n \""), "   \n ");
}

#[test]
fn a_first_line_without_indentation_leaves_the_text_as_it_is() {
    assert_eq!(text("\"a\n  b\""), "a\n  b");
    assert_eq!(text("\"x\n\ty\n z\""), "x\n\ty\n z");
}

#[test]
fn escaped_blanks_and_line_feeds_count_as_written_ones() {
    assert_eq!(text(r#""\n\ta\n\t\tb""#), "a\n\tb");
}

#[test]
fn a_string_without_its_closing_quote_is_unmatched() {
    let error = read("\"abc").unwrap_err();
    assert_eq!(error.kind, ErrorKind::UnmatchedDelimiter { opening: 0 });
    assert_eq!(error.position, 4);
    assert_eq!(error.found, None);
    assert!(error.expected.contains(Expected::Quote));
    assert_eq!(error.span(), (0, 4));
}

#[test]
fn an_escaped_quote_does_not_close_a_string() {
    let error = read(r#""abc\""#).unwrap_err();
    assert_eq!(error.kind, ErrorKind::UnmatchedDelimiter { opening: 0 });
    assert_eq!(error.position, 6);
    let lone = read("\"abc\\").unwrap_err();
    assert_eq!(lone.kind, ErrorKind::UnmatchedDelimiter { opening: 0 });
    assert_eq!(lone.position, 5);
    assert_eq!(text(r#""abc\\""#), "abc\\");
}

#[test]
fn an_empty_input_is_no_literal() {
    let error = read("").unwrap_err();
    assert_eq!(error.kind, ErrorKind::Unexpected);
    assert_eq!(error.position, 0);
    assert_eq!(error.found, None);
    assert!(error.expected.contains(Expected::Literal));
}

#[test]
fn a_name_is_no_literal() {
    let error = read("x").unwrap_err();
    assert_eq!(error.kind, ErrorKind::Unexpected);
    assert_eq!(error.position, 0);
    assert_eq!(error.found, Some('x'));
}
