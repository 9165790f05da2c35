//! The grammar, as functions from the input and a position to what is read
//! there.
//!
//! ```text
//! file      = layout { statement layout }
//! statement = chain [ " as " name ] ";"
//! block     = "{" layout item { item } "}"
//! item      = chain ";" layout | chain layout     (the second form only last)
//! chain     = operand { " " infix }
//! infix     = operator " " operand
//! operand   = literal | name | "(" chain ")"
//! literal   = digits | "true" | "false" | '"' text '"'
//! ```
//!
//! Within a chain one space, no more and no less, parts a term from the next,
//! and an operator from its operand. Layout (spaces, tabs, line feeds and
//! carriage returns, in any number) may stand only around statements and
//! around the items of a block.

use vstd::prelude::*;
use crate::ast::{ExprView, LiteralView, LocationView};
use crate::diagnostics::{
    also_expecting, diagnostic, Diagnostic, ErrorKindView, Expected, ExpectedSet,
};
use crate::lexical::{
    is_digit, is_word_start, operator_of, run_end, run_end_is_maximal, word_as, word_false,
    word_true, written_at, CharClass,
};
use crate::strings::{closing_quote, normalized};

verus! {

/// A node and the position behind it, or why none was read.
pub type Parsed = Result<(ExprView, int), Diagnostic>;

/// `read`, where it ends behind `pos` and within `s`; an error where it does
/// not. Every rule reads at least one character and none beyond the end of
/// the input, so this changes nothing of what a rule reads. It is applied
/// where the input is read on behind a rule, and shows there that the
/// definitions are well-founded.
pub open spec fn forward(s: Seq<char>, pos: int, read: Parsed) -> Parsed {
    match read {
        Ok((node, end)) => if pos < end <= s.len() {
            read
        } else {
            Err(diagnostic(s, ErrorKindView::Unexpected, pos, ExpectedSet::nothing()))
        },
        Err(d) => read,
    }
}

/// `read`, whose error also expects `also` if it lies at `pos`: what a rule
/// reads at a place where other things than the rule may stand.
pub open spec fn or_expected(read: Parsed, pos: int, also: ExpectedSet) -> Parsed {
    match read {
        Ok(_) => read,
        Err(d) => Err(also_expecting(d, pos, also)),
    }
}

/// The literal at `pos`, with the position behind it; `Ok(None)` where no
/// literal begins. The only error is a string that is not closed.
pub open spec fn literal(s: Seq<char>, pos: int) -> Result<Option<(LiteralView, int)>, Diagnostic> {
    if pos < 0 || pos >= s.len() {
        Ok(None)
    } else if is_digit(s[pos]) {
        let end = run_end(s, pos, CharClass::Digit);
        Ok(Some((LiteralView::Num(s.subrange(pos, end)), end)))
    } else if s[pos] == '"' {
        match closing_quote(s, pos + 1) {
            Some(close) => Ok(
                Some((LiteralView::Str(normalized(s.subrange(pos + 1, close))), close + 1)),
            ),
            None => Err(
                diagnostic(
                    s,
                    ErrorKindView::UnmatchedDelimiter { opening: pos },
                    s.len() as int,
                    ExpectedSet::only(Expected::Quote),
                ),
            ),
        }
    } else if is_word_start(s[pos]) {
        let end = run_end(s, pos, CharClass::Word);
        let word = s.subrange(pos, end);
        if word == word_true() {
            Ok(Some((LiteralView::Bool(true), end)))
        } else if word == word_false() {
            Ok(Some((LiteralView::Bool(false), end)))
        } else {
            Ok(None)
        }
    } else {
        Ok(None)
    }
}

/// The name at `pos`, with the position behind it, if one begins there.
pub open spec fn name(s: Seq<char>, pos: int) -> Option<(Seq<char>, int)> {
    if 0 <= pos < s.len() && is_word_start(s[pos]) {
        let end = run_end(s, pos, CharClass::Word);
        let word = s.subrange(pos, end);
        if word != word_true() && word != word_false() {
            Some((word, end))
        } else {
            None
        }
    } else {
        None
    }
}

/// What may follow a term of a chain between parentheses.
pub open spec fn after_operand_in_parens() -> ExpectedSet {
    ExpectedSet::nothing().plus(Expected::Continuation).plus(Expected::CloseParen)
}

/// The operand at `pos`: a literal, a name, or a chain between parentheses,
/// which is read as that chain.
pub open spec fn operand(s: Seq<char>, pos: int) -> Parsed
    decreases s.len() - pos, 0int,
{
    match literal(s, pos) {
        Err(d) => Err(d),
        Ok(Some((value, end))) => Ok((ExprView::Literal(value), end)),
        Ok(None) => match name(s, pos) {
            Some((word, end)) => Ok((ExprView::Var(word), end)),
            None => if 0 <= pos < s.len() && s[pos] == '(' {
                match chain(s, pos + 1) {
                    Err(d) => Err(d),
                    Ok((inner, end)) => if 0 <= end < s.len() && s[end] == ')' {
                        Ok((inner, end + 1))
                    } else {
                        Err(
                            diagnostic(
                                s,
                                ErrorKindView::UnmatchedDelimiter { opening: pos },
                                end,
                                after_operand_in_parens(),
                            ),
                        )
                    },
                }
            } else {
                Err(diagnostic(s, ErrorKindView::Unexpected, pos, ExpectedSet::operand()))
            },
        },
    }
}

/// The infix term at `pos`: an operator, one space and an operand.
pub open spec fn infix(s: Seq<char>, pos: int) -> Parsed
    decreases s.len() - pos, 0int,
{
    if 0 <= pos < s.len() && operator_of(s[pos]) is Some {
        if pos + 1 < s.len() && s[pos + 1] == ' ' {
            match operand(s, pos + 2) {
                Err(d) => Err(d),
                Ok((right, end)) => Ok(
                    (ExprView::InfixOp(operator_of(s[pos])->0, Box::new(right)), end),
                ),
            }
        } else {
            Err(
                diagnostic(
                    s,
                    ErrorKindView::Unexpected,
                    pos + 1,
                    ExpectedSet::only(Expected::Space),
                ),
            )
        }
    } else {
        Err(diagnostic(s, ErrorKindView::Unexpected, pos, ExpectedSet::only(Expected::Operator)))
    }
}

/// Whether a chain goes on at `pos`: with a space and an operator.
pub open spec fn continues_at(s: Seq<char>, pos: int) -> bool {
    0 <= pos && pos + 1 < s.len() && s[pos] == ' ' && operator_of(s[pos + 1]) is Some
}

/// The chain at `pos`: an operand, then infix terms for as long as the chain
/// goes on. A chain cannot begin with an operator.
pub open spec fn chain(s: Seq<char>, pos: int) -> Parsed
    decreases s.len() - pos, 2int,
{
    if 0 <= pos < s.len() && operator_of(s[pos]) is Some {
        Err(diagnostic(s, ErrorKindView::LeadingOperator, pos, ExpectedSet::operand()))
    } else {
        match forward(s, pos, operand(s, pos)) {
            Err(d) => Err(d),
            Ok((first, end)) => chain_from(s, end, seq![first]),
        }
    }
}

/// The chain that has the terms `terms` so far and is read on from `pos`.
pub open spec fn chain_from(s: Seq<char>, pos: int, terms: Seq<ExprView>) -> Parsed
    decreases s.len() - pos, 1int,
{
    if continues_at(s, pos) {
        match forward(s, pos + 1, infix(s, pos + 1)) {
            Err(d) => Err(d),
            Ok((term, end)) => chain_from(s, end, terms.push(term)),
        }
    } else {
        Ok((ExprView::Chain(terms), pos))
    }
}

/// What may follow a chain that is a statement.
pub open spec fn after_chain_in_statement() -> ExpectedSet {
    ExpectedSet::nothing().plus(Expected::Continuation).plus(Expected::KeywordAs).plus(
        Expected::Semicolon,
    )
}

/// The statement at `pos`: a chain, or a chain, ` as ` and the name that its
/// result is bound to; then `;`.
pub open spec fn statement(s: Seq<char>, pos: int) -> Parsed {
    if 0 <= pos < s.len() && s[pos] == ';' {
        Err(diagnostic(s, ErrorKindView::EmptyStatement, pos, ExpectedSet::operand()))
    } else {
        match chain(s, pos) {
            Err(d) => Err(d),
            Ok((value, end)) => if written_at(s, end, word_as()) {
                match name(s, end + 4) {
                    Some((target, behind)) => if behind < s.len() && s[behind] == ';' {
                        Ok(
                            (
                                ExprView::Assign(LocationView::Var(target), Box::new(value)),
                                behind + 1,
                            ),
                        )
                    } else {
                        Err(
                            diagnostic(
                                s,
                                ErrorKindView::Unexpected,
                                behind,
                                ExpectedSet::only(Expected::Semicolon),
                            ),
                        )
                    },
                    None => Err(
                        diagnostic(
                            s,
                            ErrorKindView::Unexpected,
                            end + 4,
                            ExpectedSet::only(Expected::Identifier),
                        ),
                    ),
                }
            } else if 0 <= end < s.len() && s[end] == ';' {
                Ok((value, end + 1))
            } else {
                Err(diagnostic(s, ErrorKindView::Unexpected, end, after_chain_in_statement()))
            },
        }
    }
}

/// The statements from `pos` to the end of the input, behind the statements
/// `done`.
pub open spec fn statements_from(s: Seq<char>, pos: int, done: Seq<ExprView>) -> Result<
    Seq<ExprView>,
    Diagnostic,
>
    decreases s.len() - pos,
{
    let start = run_end(s, pos, CharClass::Layout);
    if start < 0 || start >= s.len() {
        Ok(done)
    } else {
        proof {
            run_end_is_maximal(s, pos, CharClass::Layout);
        }
        match forward(
            s,
            start,
            or_expected(statement(s, start), start, ExpectedSet::only(Expected::EndOfInput)),
        ) {
            Err(d) => Err(d),
            Ok((node, end)) => statements_from(s, end, done.push(node)),
        }
    }
}

/// The statements of the whole input `s`.
pub open spec fn file(s: Seq<char>) -> Result<Seq<ExprView>, Diagnostic> {
    statements_from(s, 0, Seq::empty())
}

/// What may follow a chain in a block.
pub open spec fn after_chain_in_block() -> ExpectedSet {
    ExpectedSet::nothing().plus(Expected::Continuation).plus(Expected::Semicolon).plus(
        Expected::CloseBrace,
    )
}

/// What may stand where an item of a block begins, behind `count` items,
/// besides an item.
pub open spec fn besides_item(count: nat) -> ExpectedSet {
    if count == 0 {
        ExpectedSet::nothing()
    } else {
        ExpectedSet::only(Expected::CloseBrace)
    }
}

/// What may stand where an item of a block begins, behind `count` items.
pub open spec fn at_item(count: nat) -> ExpectedSet {
    ExpectedSet::operand().joined(besides_item(count))
}

/// The block that was opened at `opening`, has the statements `done` so far,
/// and is read on from `pos`, where an item or the closing brace is due.
pub open spec fn block_from(s: Seq<char>, opening: int, pos: int, done: Seq<ExprView>) -> Parsed
    decreases s.len() - pos,
{
    if pos < 0 || pos >= s.len() {
        Err(
            diagnostic(
                s,
                ErrorKindView::UnmatchedDelimiter { opening },
                s.len() as int,
                at_item(done.len()),
            ),
        )
    } else if s[pos] == '}' && done.len() > 0 {
        Ok((ExprView::Block { statements: done, trailing_expr: None }, pos + 1))
    } else if s[pos] == ';' {
        Err(diagnostic(s, ErrorKindView::EmptyStatement, pos, at_item(done.len())))
    } else {
        match forward(s, pos, or_expected(chain(s, pos), pos, besides_item(done.len()))) {
            Err(d) => Err(d),
            Ok((item, end)) => if end < s.len() && s[end] == ';' {
                proof {
                    run_end_is_maximal(s, end + 1, CharClass::Layout);
                }
                block_from(s, opening, run_end(s, end + 1, CharClass::Layout), done.push(item))
            } else {
                let close = run_end(s, end, CharClass::Layout);
                if 0 <= close < s.len() && s[close] == '}' {
                    Ok(
                        (
                            ExprView::Block {
                                statements: done,
                                trailing_expr: Some(Box::new(item)),
                            },
                            close + 1,
                        ),
                    )
                } else {
                    Err(
                        diagnostic(
                            s,
                            ErrorKindView::UnmatchedDelimiter { opening },
                            close,
                            after_chain_in_block(),
                        ),
                    )
                }
            },
        }
    }
}

/// The block at `pos`: `{`, one chain or more, and `}`. A chain that is
/// followed by `;` is a statement of the block; the last chain, if no `;`
/// follows it, is the expression that gives the block its value.
pub open spec fn block(s: Seq<char>, pos: int) -> Parsed {
    if 0 <= pos < s.len() && s[pos] == '{' {
        block_from(s, pos, run_end(s, pos + 1, CharClass::Layout), Seq::empty())
    } else {
        Err(diagnostic(s, ErrorKindView::Unexpected, pos, ExpectedSet::only(Expected::OpenBrace)))
    }
}

/// What a rule reads when it must read the whole input: what it reads at the
/// start, if that ends where the input ends.
pub open spec fn whole(s: Seq<char>, read: Parsed, otherwise: ExpectedSet) -> Result<
    ExprView,
    Diagnostic,
> {
    match read {
        Err(d) => Err(d),
        Ok((node, end)) => if end == s.len() {
            Ok(node)
        } else {
            Err(diagnostic(s, ErrorKindView::Unexpected, end, otherwise))
        },
    }
}

/// What may follow a chain that is all there is.
pub open spec fn after_chain_alone() -> ExpectedSet {
    ExpectedSet::nothing().plus(Expected::Continuation).plus(Expected::EndOfInput)
}

/// The chain that the whole input `s` writes.
pub open spec fn whole_chain(s: Seq<char>) -> Result<ExprView, Diagnostic> {
    whole(s, chain(s, 0), after_chain_alone())
}

/// The block that the whole input `s` writes.
pub open spec fn whole_block(s: Seq<char>) -> Result<ExprView, Diagnostic> {
    whole(s, block(s, 0), ExpectedSet::only(Expected::EndOfInput))
}

/// The literal that the whole input `s` writes.
pub open spec fn whole_literal(s: Seq<char>) -> Result<LiteralView, Diagnostic> {
    match literal(s, 0) {
        Err(d) => Err(d),
        Ok(None) => Err(
            diagnostic(s, ErrorKindView::Unexpected, 0, ExpectedSet::only(Expected::Literal)),
        ),
        Ok(Some((value, end))) => if end == s.len() {
            Ok(value)
        } else {
            Err(
                diagnostic(
                    s,
                    ErrorKindView::Unexpected,
                    end,
                    ExpectedSet::only(Expected::EndOfInput),
                ),
            )
        },
    }
}

} // verus!
