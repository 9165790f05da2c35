//! The shape of the trees that the parser builds.
//!
//! A chain has at least one term; its first term is an operand and each
//! further term applies an operator to an operand. An operand is a literal,
//! a name, or a chain (which was written between parentheses). A statement is
//! a chain, or the assignment of a chain to a name. A block holds chains, at
//! least one, and the expression that gives its value is its last.

use vstd::prelude::*;
use crate::ast::{ExprView, LiteralView, LocationView};
use crate::grammar::{
    block, block_from, chain, chain_from, continues_at, file, infix, literal, name, operand,
    statement, statements_from, whole_block, whole_chain, whole_literal,
};
use crate::lexical::{is_name, run_end, run_end_is_maximal, word_as, written_at, CharClass};
use crate::numbers::is_number;
use crate::progress::{chain_within, infix_within, operand_within, statement_within};

verus! {

/// Whether `value` can be written: a number has one digit or more and
/// nothing else.
pub open spec fn is_literal(value: LiteralView) -> bool {
    match value {
        LiteralView::Num(digits) => is_number(digits),
        LiteralView::Bool(_) => true,
        LiteralView::Str(_) => true,
    }
}

/// Whether `e` has the shape of an operand.
pub open spec fn is_operand(e: ExprView) -> bool
    decreases e,
{
    match e {
        ExprView::Literal(value) => is_literal(value),
        ExprView::Var(word) => is_name(word),
        ExprView::Chain(terms) => {
            &&& terms.len() >= 1
            &&& is_operand(terms[0])
            &&& forall|i: int| 1 <= i < terms.len() ==> is_infix_term(#[trigger] terms[i])
        },
        _ => false,
    }
}

/// Whether `e` has the shape of an infix term: an operator with an operand.
pub open spec fn is_infix_term(e: ExprView) -> bool
    decreases e,
{
    match e {
        ExprView::InfixOp(_, right) => is_operand(*right),
        _ => false,
    }
}

/// Whether `e` has the shape of a chain.
pub open spec fn is_chain(e: ExprView) -> bool {
    e is Chain && is_operand(e)
}

/// Whether `e` has the shape of a statement.
pub open spec fn is_statement(e: ExprView) -> bool {
    match e {
        ExprView::Assign(LocationView::Var(target), value) => is_name(target) && is_chain(*value),
        _ => is_chain(e),
    }
}

/// Whether `e` has the shape of a block.
pub open spec fn is_block(e: ExprView) -> bool {
    match e {
        ExprView::Block { statements, trailing_expr } => {
            &&& forall|i: int| 0 <= i < statements.len() ==> is_chain(#[trigger] statements[i])
            &&& trailing_expr matches Some(last) ==> is_chain(*last)
            &&& statements.len() > 0 || trailing_expr is Some
        },
        _ => false,
    }
}

/// Whether each of `nodes` has the shape of a statement.
pub open spec fn are_statements(nodes: Seq<ExprView>) -> bool {
    forall|i: int| 0 <= i < nodes.len() ==> is_statement(#[trigger] nodes[i])
}

/// Whether each of `nodes` has the shape of a chain.
pub open spec fn are_chains(nodes: Seq<ExprView>) -> bool {
    forall|i: int| 0 <= i < nodes.len() ==> is_chain(#[trigger] nodes[i])
}

/// A literal that is read can be written.
pub proof fn literal_has_shape(s: Seq<char>, pos: int)
    requires
        0 <= pos <= s.len(),
    ensures
        literal(s, pos) matches Ok(Some((value, _))) ==> is_literal(value),
{
    if pos < s.len() {
        run_end_is_maximal(s, pos, CharClass::Digit);
        run_end_is_maximal(s, pos + 1, CharClass::Digit);
    }
}

/// A name that is read is a name.
pub proof fn name_has_shape(s: Seq<char>, pos: int)
    requires
        0 <= pos <= s.len(),
    ensures
        name(s, pos) matches Some((word, _)) ==> is_name(word),
{
    if pos < s.len() {
        run_end_is_maximal(s, pos, CharClass::Word);
        run_end_is_maximal(s, pos + 1, CharClass::Word);
    }
}

/// An operand that is read has the shape of an operand.
pub proof fn operand_has_shape(s: Seq<char>, pos: int)
    requires
        0 <= pos <= s.len(),
    ensures
        operand(s, pos) matches Ok((node, _)) ==> is_operand(node),
    decreases s.len() - pos, 0int,
{
    literal_has_shape(s, pos);
    name_has_shape(s, pos);
    if pos < s.len() && s[pos] == '(' {
        chain_has_shape(s, pos + 1);
    }
}

/// An infix term that is read has the shape of an infix term.
pub proof fn infix_has_shape(s: Seq<char>, pos: int)
    requires
        0 <= pos <= s.len(),
    ensures
        infix(s, pos) matches Ok((node, _)) ==> is_infix_term(node),
    decreases s.len() - pos, 0int,
{
    if pos + 1 < s.len() {
        operand_has_shape(s, pos + 2);
    }
}

/// A chain that is read has the shape of a chain.
pub proof fn chain_has_shape(s: Seq<char>, pos: int)
    requires
        0 <= pos <= s.len(),
    ensures
        chain(s, pos) matches Ok((node, _)) ==> is_chain(node),
    decreases s.len() - pos, 2int,
{
    operand_has_shape(s, pos);
    operand_within(s, pos);
    if let Ok((first, end)) = operand(s, pos) {
        chain_from_has_shape(s, end, seq![first]);
    }
}

/// A chain that is read on from terms that have the shape of a chain has
/// the shape of a chain.
proof fn chain_from_has_shape(s: Seq<char>, pos: int, terms: Seq<ExprView>)
    requires
        0 <= pos <= s.len(),
        is_chain(ExprView::Chain(terms)),
    ensures
        chain_from(s, pos, terms) matches Ok((node, _)) ==> is_chain(node),
    decreases s.len() - pos, 1int,
{
    if continues_at(s, pos) {
        infix_has_shape(s, pos + 1);
        infix_within(s, pos + 1);
        if let Ok((term, end)) = infix(s, pos + 1) {
            let longer = terms.push(term);
            assert(longer[0] == terms[0]);
            assert forall|i: int| 1 <= i < longer.len() implies is_infix_term(
                #[trigger] longer[i],
            ) by {
                if i < terms.len() {
                    assert(longer[i] == terms[i]);
                }
            }
            chain_from_has_shape(s, end, longer);
        }
    }
}

/// A statement that is read has the shape of a statement.
pub proof fn statement_has_shape(s: Seq<char>, pos: int)
    requires
        0 <= pos <= s.len(),
    ensures
        statement(s, pos) matches Ok((node, _)) ==> is_statement(node),
{
    chain_has_shape(s, pos);
    chain_within(s, pos);
    if let Ok((value, end)) = chain(s, pos) {
        if written_at(s, end, word_as()) {
            name_has_shape(s, end + 4);
        }
    }
}

/// Statements that are read behind statements are statements, all of them.
proof fn statements_from_have_shape(s: Seq<char>, pos: int, done: Seq<ExprView>)
    requires
        0 <= pos <= s.len(),
        are_statements(done),
    ensures
        statements_from(s, pos, done) matches Ok(nodes) ==> are_statements(nodes),
    decreases s.len() - pos,
{
    run_end_is_maximal(s, pos, CharClass::Layout);
    let start = run_end(s, pos, CharClass::Layout);
    if start < s.len() {
        statement_has_shape(s, start);
        statement_within(s, start);
        if let Ok((node, end)) = statement(s, start) {
            let longer = done.push(node);
            assert forall|i: int| 0 <= i < longer.len() implies is_statement(
                #[trigger] longer[i],
            ) by {
                if i < done.len() {
                    assert(longer[i] == done[i]);
                }
            }
            statements_from_have_shape(s, end, longer);
        }
    }
}

/// A block that is read on behind chains has the shape of a block.
proof fn block_from_has_shape(s: Seq<char>, opening: int, pos: int, done: Seq<ExprView>)
    requires
        0 <= pos <= s.len(),
        are_chains(done),
    ensures
        block_from(s, opening, pos, done) matches Ok((node, _)) ==> is_block(node),
    decreases s.len() - pos,
{
    if pos < s.len() && !(s[pos] == '}' && done.len() > 0) && s[pos] != ';' {
        chain_has_shape(s, pos);
        chain_within(s, pos);
        if let Ok((item, end)) = chain(s, pos) {
            if end < s.len() && s[end] == ';' {
                run_end_is_maximal(s, end + 1, CharClass::Layout);
                let longer = done.push(item);
                assert forall|i: int| 0 <= i < longer.len() implies is_chain(
                    #[trigger] longer[i],
                ) by {
                    if i < done.len() {
                        assert(longer[i] == done[i]);
                    }
                }
                block_from_has_shape(s, opening, run_end(s, end + 1, CharClass::Layout), longer);
            }
        }
    }
}

/// Whatever is read from a whole input has the shape that the rule
/// promises: a file is statements, a chain a chain, a block a block, and a
/// literal can be written.
pub proof fn trees_have_shape(s: Seq<char>)
    ensures
        file(s) matches Ok(nodes) ==> are_statements(nodes),
        whole_chain(s) matches Ok(node) ==> is_chain(node),
        whole_block(s) matches Ok(node) ==> is_block(node),
        whole_literal(s) matches Ok(value) ==> is_literal(value),
{
    statements_from_have_shape(s, 0, Seq::empty());
    chain_has_shape(s, 0);
    literal_has_shape(s, 0);
    if 0 < s.len() && s[0] == '{' {
        run_end_is_maximal(s, 1, CharClass::Layout);
        block_from_has_shape(s, 0, run_end(s, 1, CharClass::Layout), Seq::empty());
    }
}

/// A block that is read at any place has the shape of a block.
pub proof fn block_has_shape(s: Seq<char>, pos: int)
    requires
        0 <= pos <= s.len(),
    ensures
        block(s, pos) matches Ok((node, _)) ==> is_block(node),
{
    if pos < s.len() && s[pos] == '{' {
        run_end_is_maximal(s, pos + 1, CharClass::Layout);
        block_from_has_shape(s, pos, run_end(s, pos + 1, CharClass::Layout), Seq::empty());
    }
}

} // verus!
