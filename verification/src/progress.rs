//! Every rule moves forward and stays within the input, and every error
//! points into the input.

use vstd::prelude::*;
use crate::diagnostics::{char_at, Diagnostic, ErrorKindView};
use crate::ast::ExprView;
use crate::grammar::{
    block, block_from, chain, chain_from, continues_at, file, forward, infix, literal, name,
    operand, statement, statements_from, whole_block, whole_chain, whole_literal, Parsed,
};
use crate::lexical::{run_end, run_end_is_maximal, word_as, written_at, CharClass};
use crate::strings::closing_quote_bounds;

verus! {

/// Whether `c` opens what another character must close.
pub open spec fn is_opening(c: char) -> bool {
    c == '(' || c == '{' || c == '"'
}

/// Whether `d` is an error of reading `s` from `pos` on: it lies between
/// `pos` and the end of `s`, it shows the character that stands there, and
/// where it tells of an unmatched delimiter, that delimiter stands in `s`, at
/// or behind `pos` and before the error.
pub open spec fn error_within(s: Seq<char>, pos: int, d: Diagnostic) -> bool {
    &&& pos <= d.position <= s.len()
    &&& d.found == char_at(s, d.position)
    &&& d.kind matches ErrorKindView::UnmatchedDelimiter { opening } ==> pos <= opening
        < d.position && is_opening(s[opening])
}

/// Whether `read`, read from `s` at `pos`, ends behind `pos` and within `s`,
/// or is an error of reading `s` from `pos` on.
pub open spec fn within(s: Seq<char>, pos: int, read: Parsed) -> bool {
    match read {
        Ok((_, end)) => pos < end <= s.len(),
        Err(d) => error_within(s, pos, d),
    }
}

/// A literal is not empty and ends within the input.
pub proof fn literal_within(s: Seq<char>, pos: int)
    requires
        0 <= pos <= s.len(),
    ensures
        match literal(s, pos) {
            Ok(Some((_, end))) => pos < end <= s.len(),
            Ok(None) => true,
            Err(d) => error_within(s, pos, d),
        },
{
    if pos < s.len() {
        run_end_is_maximal(s, pos, CharClass::Digit);
        run_end_is_maximal(s, pos, CharClass::Word);
        run_end_is_maximal(s, pos + 1, CharClass::Digit);
        run_end_is_maximal(s, pos + 1, CharClass::Word);
        closing_quote_bounds(s, pos + 1);
    }
}

/// A name is not empty and ends within the input.
pub proof fn name_within(s: Seq<char>, pos: int)
    requires
        0 <= pos <= s.len(),
    ensures
        name(s, pos) matches Some((_, end)) ==> pos < end <= s.len(),
{
    if pos < s.len() {
        run_end_is_maximal(s, pos, CharClass::Word);
        run_end_is_maximal(s, pos + 1, CharClass::Word);
    }
}

/// An operand moves forward and stays within the input.
pub proof fn operand_within(s: Seq<char>, pos: int)
    requires
        0 <= pos <= s.len(),
    ensures
        within(s, pos, operand(s, pos)),
    decreases s.len() - pos, 0int,
{
    literal_within(s, pos);
    name_within(s, pos);
    if pos < s.len() && s[pos] == '(' {
        chain_within(s, pos + 1);
    }
}

/// An infix term moves forward and stays within the input.
pub proof fn infix_within(s: Seq<char>, pos: int)
    requires
        0 <= pos <= s.len(),
    ensures
        within(s, pos, infix(s, pos)),
    decreases s.len() - pos, 0int,
{
    if pos + 1 < s.len() {
        operand_within(s, pos + 2);
    }
}

/// A chain moves forward and stays within the input.
pub proof fn chain_within(s: Seq<char>, pos: int)
    requires
        0 <= pos <= s.len(),
    ensures
        within(s, pos, chain(s, pos)),
        chain(s, pos) matches Ok((node, _)) ==> node is Chain,
    decreases s.len() - pos, 2int,
{
    operand_within(s, pos);
    if let Ok((first, end)) = operand(s, pos) {
        chain_from_within(s, end, seq![first]);
    }
}

/// A chain that is read on does not move back, and stays within the input.
proof fn chain_from_within(s: Seq<char>, pos: int, terms: Seq<ExprView>)
    requires
        0 <= pos <= s.len(),
    ensures
        match chain_from(s, pos, terms) {
            Ok((node, end)) => pos <= end <= s.len() && node is Chain,
            Err(d) => error_within(s, pos, d),
        },
    decreases s.len() - pos, 1int,
{
    if continues_at(s, pos) {
        infix_within(s, pos + 1);
        if let Ok((term, end)) = infix(s, pos + 1) {
            chain_from_within(s, end, terms.push(term));
        }
    }
}

/// A statement moves forward and stays within the input.
pub proof fn statement_within(s: Seq<char>, pos: int)
    requires
        0 <= pos <= s.len(),
    ensures
        within(s, pos, statement(s, pos)),
{
    chain_within(s, pos);
    if let Ok((value, end)) = chain(s, pos) {
        if written_at(s, end, word_as()) {
            name_within(s, end + 4);
        }
    }
}

/// The statements of an input stay within it.
proof fn statements_from_within(s: Seq<char>, pos: int, done: Seq<ExprView>)
    requires
        0 <= pos <= s.len(),
    ensures
        statements_from(s, pos, done) matches Err(d) ==> error_within(s, pos, d),
    decreases s.len() - pos,
{
    run_end_is_maximal(s, pos, CharClass::Layout);
    let start = run_end(s, pos, CharClass::Layout);
    if start < s.len() {
        statement_within(s, start);
        if let Ok((node, end)) = statement(s, start) {
            statements_from_within(s, end, done.push(node));
        }
    }
}

/// A block that is read on moves forward and stays within the input.
proof fn block_from_within(s: Seq<char>, opening: int, pos: int, done: Seq<ExprView>)
    requires
        0 <= opening < pos <= s.len(),
        is_opening(s[opening]),
    ensures
        match block_from(s, opening, pos, done) {
            Ok((_, end)) => pos < end <= s.len(),
            Err(d) => error_within(s, opening, d),
        },
    decreases s.len() - pos,
{
    if pos < s.len() && !(s[pos] == '}' && done.len() > 0) && s[pos] != ';' {
        chain_within(s, pos);
        if let Ok((item, end)) = chain(s, pos) {
            if end < s.len() && s[end] == ';' {
                run_end_is_maximal(s, end + 1, CharClass::Layout);
                let next = run_end(s, end + 1, CharClass::Layout);
                block_from_within(s, opening, next, done.push(item));
            } else {
                run_end_is_maximal(s, end, CharClass::Layout);
            }
        }
    }
}

/// A block moves forward and stays within the input.
pub proof fn block_within(s: Seq<char>, pos: int)
    requires
        0 <= pos <= s.len(),
    ensures
        within(s, pos, block(s, pos)),
{
    if pos < s.len() && s[pos] == '{' {
        run_end_is_maximal(s, pos + 1, CharClass::Layout);
        block_from_within(s, pos, run_end(s, pos + 1, CharClass::Layout), Seq::empty());
    }
}

/// What is read behind a rule is read behind what the rule itself has read:
/// the test of `forward` changes nothing.
pub proof fn forward_changes_nothing(s: Seq<char>, pos: int)
    requires
        0 <= pos <= s.len(),
    ensures
        forward(s, pos, operand(s, pos)) == operand(s, pos),
        forward(s, pos, infix(s, pos)) == infix(s, pos),
        forward(s, pos, chain(s, pos)) == chain(s, pos),
        forward(s, pos, statement(s, pos)) == statement(s, pos),
{
    operand_within(s, pos);
    infix_within(s, pos);
    chain_within(s, pos);
    statement_within(s, pos);
}

/// An error of reading a whole input points into that input: at a character
/// of it or at its end. Where it tells of an unmatched delimiter, a `(`, `{`
/// or `"` stands at the place it names, and the error lies behind it.
pub proof fn errors_point_into_the_input(s: Seq<char>)
    ensures
        file(s) matches Err(d) ==> error_within(s, 0, d),
        whole_chain(s) matches Err(d) ==> error_within(s, 0, d),
        whole_block(s) matches Err(d) ==> error_within(s, 0, d),
        whole_literal(s) matches Err(d) ==> error_within(s, 0, d),
{
    statements_from_within(s, 0, Seq::empty());
    chain_within(s, 0);
    block_within(s, 0);
    literal_within(s, 0);
}

} // verus!
