//! The parser: one function for each rule of the grammar, and the entry
//! points that read a whole input.

use vstd::prelude::*;
use crate::ast::{
    expr_view, expr_views, expr_views_empty, expr_views_push, Expr, ExprView, Literal, LiteralView,
    Location,
};
use crate::diagnostics::{Diagnostic, ErrorKind, Expected, ExpectedSet, ParseError};
use crate::grammar;
use crate::lexical::{
    as_written_at, char_in_class, char_starts_word, chars_of, operator_from_char, skip_run,
    spells_false, spells_true, text_between, CharClass,
};
use crate::numbers::{digits_are_read_as_their_number, is_number};
use crate::strings::{closing_quote_bounds, find_closing_quote, normalize};

verus! {

/// What a parse may keep from one rule to the next. It holds nothing yet.
#[derive(Debug, Clone, Copy, PartialEq, Eq)]
pub struct ParserState {}

/// What a parse is told from outside. It holds nothing yet.
#[derive(Debug, Clone, Copy, PartialEq, Eq)]
pub struct ParserContext {}

impl Default for ParserState {
    fn default() -> (r: ParserState)
        ensures
            r == (ParserState {  }),
    {
        ParserState {  }
    }
}

impl Default for ParserContext {
    fn default() -> (r: ParserContext)
        ensures
            r == (ParserContext {  }),
    {
        ParserContext {  }
    }
}

/// What a rule has read, as the grammar states it.
pub open spec fn parsed_view(r: Result<(Expr, usize), ParseError>) -> grammar::Parsed {
    match r {
        Ok((node, end)) => Ok((node@, end as int)),
        Err(e) => Err(e@),
    }
}

/// What the literal rule has read, as the grammar states it.
pub open spec fn literal_view(r: Result<Option<(Literal, usize)>, ParseError>) -> Result<
    Option<(LiteralView, int)>,
    Diagnostic,
> {
    match r {
        Ok(Some((value, end))) => Ok(Some((value@, end as int))),
        Ok(None) => Ok(None),
        Err(e) => Err(e@),
    }
}

/// What the name rule has read, as the grammar states it.
pub open spec fn name_view(r: Option<(String, usize)>) -> Option<(Seq<char>, int)> {
    match r {
        Some((word, end)) => Some((word@, end as int)),
        None => None,
    }
}

/// Whether `r`, read at `pos`, ends behind `pos` and within `input`.
pub open spec fn moves_forward<T>(
    input: &[char],
    pos: usize,
    r: Result<(T, usize), ParseError>,
) -> bool {
    r matches Ok((_, end)) ==> pos < end <= input.len()
}

/// Reads the literal at `pos`.
pub fn literal_at(input: &[char], pos: usize, state: &mut ParserState, ctx: &ParserContext) -> (r:
    Result<Option<(Literal, usize)>, ParseError>)
    ensures
        literal_view(r) == grammar::literal(input@, pos as int),
        r matches Ok(Some((_, end))) ==> pos < end <= input.len(),
        *final(state) == *old(state),
{
    if pos >= input.len() {
        return Ok(None);
    }
    let c = input[pos];
    if char_in_class(CharClass::Digit, c) {
        let end = skip_run(input, pos, CharClass::Digit);
        Ok(Some((Literal::Num(text_between(input, pos, end)), end)))
    } else if c == '"' {
        match find_closing_quote(input, pos + 1) {
            Some(close) => {
                proof {
                    closing_quote_bounds(input@, pos + 1);
                }
                let raw = vstd::slice::slice_subrange(input, pos + 1, close);
                Ok(Some((Literal::Str(normalize(raw)), close + 1)))
            },
            None => Err(
                ParseError::at(
                    input,
                    ErrorKind::UnmatchedDelimiter { opening: pos },
                    input.len(),
                    ExpectedSet::single(Expected::Quote),
                ),
            ),
        }
    } else if char_starts_word(c) {
        let end = skip_run(input, pos, CharClass::Word);
        if spells_true(input, pos, end) {
            Ok(Some((Literal::Bool(true), end)))
        } else if spells_false(input, pos, end) {
            Ok(Some((Literal::Bool(false), end)))
        } else {
            Ok(None)
        }
    } else {
        Ok(None)
    }
}

/// Reads the name at `pos`.
pub fn name_at(input: &[char], pos: usize, state: &mut ParserState, ctx: &ParserContext) -> (r:
    Option<(String, usize)>)
    ensures
        name_view(r) == grammar::name(input@, pos as int),
        r matches Some((_, end)) ==> pos < end <= input.len(),
        *final(state) == *old(state),
{
    if pos >= input.len() || !char_starts_word(input[pos]) {
        return None;
    }
    let end = skip_run(input, pos, CharClass::Word);
    if spells_true(input, pos, end) || spells_false(input, pos, end) {
        None
    } else {
        Some((text_between(input, pos, end), end))
    }
}

/// Reads the operand at `pos`.
pub fn operand_at(input: &[char], pos: usize, state: &mut ParserState, ctx: &ParserContext) -> (r:
    Result<(Expr, usize), ParseError>)
    ensures
        parsed_view(r) == grammar::operand(input@, pos as int),
        moves_forward(input, pos, r),
        *final(state) == *old(state),
    decreases input.len() - pos, 0int,
{
    match literal_at(input, pos, state, ctx) {
        Err(e) => Err(e),
        Ok(Some((value, end))) => Ok((Expr::Literal(value), end)),
        Ok(None) => match name_at(input, pos, state, ctx) {
            Some((word, end)) => Ok((Expr::Var(word), end)),
            None => if pos < input.len() && input[pos] == '(' {
                match chain_at(input, pos + 1, state, ctx) {
                    Err(e) => Err(e),
                    Ok((inner, end)) => if end < input.len() && input[end] == ')' {
                        Ok((inner, end + 1))
                    } else {
                        Err(
                            ParseError::at(
                                input,
                                ErrorKind::UnmatchedDelimiter { opening: pos },
                                end,
                                ExpectedSet::empty().with(Expected::Continuation).with(
                                    Expected::CloseParen,
                                ),
                            ),
                        )
                    },
                }
            } else {
                Err(ParseError::at(input, ErrorKind::Unexpected, pos, ExpectedSet::for_operand()))
            },
        },
    }
}

/// Reads the infix term at `pos`.
pub fn infix_at(input: &[char], pos: usize, state: &mut ParserState, ctx: &ParserContext) -> (r:
    Result<(Expr, usize), ParseError>)
    ensures
        parsed_view(r) == grammar::infix(input@, pos as int),
        moves_forward(input, pos, r),
        *final(state) == *old(state),
    decreases input.len() - pos, 0int,
{
    if pos >= input.len() {
        return Err(
            ParseError::at(
                input,
                ErrorKind::Unexpected,
                pos,
                ExpectedSet::single(Expected::Operator),
            ),
        );
    }
    match operator_from_char(input[pos]) {
        None => Err(
            ParseError::at(
                input,
                ErrorKind::Unexpected,
                pos,
                ExpectedSet::single(Expected::Operator),
            ),
        ),
        Some(op) => if pos + 1 < input.len() && input[pos + 1] == ' ' {
            match operand_at(input, pos + 2, state, ctx) {
                Err(e) => Err(e),
                Ok((right, end)) => Ok((Expr::InfixOp(op, Box::new(right)), end)),
            }
        } else {
            Err(
                ParseError::at(
                    input,
                    ErrorKind::Unexpected,
                    pos + 1,
                    ExpectedSet::single(Expected::Space),
                ),
            )
        },
    }
}

/// Whether a chain goes on at `pos`.
fn chain_continues(input: &[char], pos: usize) -> (r: bool)
    ensures
        r == grammar::continues_at(input@, pos as int),
{
    pos < input.len() && input.len() - pos > 1 && input[pos] == ' ' && operator_from_char(
        input[pos + 1],
    ).is_some()
}

/// Reads the chain at `pos`.
pub fn chain_at(input: &[char], pos: usize, state: &mut ParserState, ctx: &ParserContext) -> (r:
    Result<(Expr, usize), ParseError>)
    ensures
        parsed_view(r) == grammar::chain(input@, pos as int),
        moves_forward(input, pos, r),
        *final(state) == *old(state),
    decreases input.len() - pos, 2int,
{
    if pos < input.len() && operator_from_char(input[pos]).is_some() {
        return Err(
            ParseError::at(input, ErrorKind::LeadingOperator, pos, ExpectedSet::for_operand()),
        );
    }
    let (first, after_first) = match operand_at(input, pos, state, ctx) {
        Err(e) => {
            return Err(e);
        },
        Ok(read) => read,
    };
    let mut terms: Vec<Expr> = Vec::new();
    let mut end: usize = after_first;
    terms.push(first);
    proof {
        assert(expr_views(terms@) =~= seq![expr_view(first)]);
    }
    while chain_continues(input, end)
        invariant
            pos < end <= input.len(),
            grammar::chain(input@, pos as int) == grammar::chain_from(
                input@,
                end as int,
                expr_views(terms@),
            ),
            *state == *old(state),
        decreases input.len() - end,
    {
        match infix_at(input, end + 1, state, ctx) {
            Err(e) => {
                return Err(e);
            },
            Ok((term, next)) => {
                proof {
                    expr_views_push(terms@, term);
                }
                terms.push(term);
                end = next;
            },
        }
    }
    Ok((Expr::Chain(terms), end))
}

/// Reads the statement at `pos`, with the `;` that ends it.
pub fn statement_at(input: &[char], pos: usize, state: &mut ParserState, ctx: &ParserContext) -> (r:
    Result<(Expr, usize), ParseError>)
    ensures
        parsed_view(r) == grammar::statement(input@, pos as int),
        moves_forward(input, pos, r),
        *final(state) == *old(state),
{
    if pos < input.len() && input[pos] == ';' {
        return Err(
            ParseError::at(input, ErrorKind::EmptyStatement, pos, ExpectedSet::for_operand()),
        );
    }
    let (value, end) = match chain_at(input, pos, state, ctx) {
        Err(e) => {
            return Err(e);
        },
        Ok(read) => read,
    };
    if as_written_at(input, end) {
        match name_at(input, end + 4, state, ctx) {
            Some((target, behind)) => if behind < input.len() && input[behind] == ';' {
                Ok((Expr::Assign(Location::Var(target), Box::new(value)), behind + 1))
            } else {
                Err(
                    ParseError::at(
                        input,
                        ErrorKind::Unexpected,
                        behind,
                        ExpectedSet::single(Expected::Semicolon),
                    ),
                )
            },
            None => Err(
                ParseError::at(
                    input,
                    ErrorKind::Unexpected,
                    end + 4,
                    ExpectedSet::single(Expected::Identifier),
                ),
            ),
        }
    } else if end < input.len() && input[end] == ';' {
        Ok((value, end + 1))
    } else {
        Err(
            ParseError::at(
                input,
                ErrorKind::Unexpected,
                end,
                ExpectedSet::empty().with(Expected::Continuation).with(Expected::KeywordAs).with(
                    Expected::Semicolon,
                ),
            ),
        )
    }
}

/// The statements that were read, as the grammar states them.
pub open spec fn statements_view(r: Result<Vec<Expr>, ParseError>) -> Result<
    Seq<ExprView>,
    Diagnostic,
> {
    match r {
        Ok(nodes) => Ok(expr_views(nodes@)),
        Err(e) => Err(e@),
    }
}

/// Reads the statements of the whole of `input`.
pub fn statements_of(input: &[char], state: &mut ParserState, ctx: &ParserContext) -> (r: Result<
    Vec<Expr>,
    ParseError,
>)
    ensures
        statements_view(r) == grammar::file(input@),
        *final(state) == *old(state),
{
    let mut done: Vec<Expr> = Vec::new();
    let mut pos: usize = 0;
    proof {
        expr_views_empty();
    }
    loop
        invariant
            pos <= input.len(),
            grammar::file(input@) == grammar::statements_from(
                input@,
                pos as int,
                expr_views(done@),
            ),
            *state == *old(state),
        decreases input.len() - pos,
    {
        let start = skip_run(input, pos, CharClass::Layout);
        if start >= input.len() {
            return Ok(done);
        }
        match statement_at(input, start, state, ctx) {
            Err(e) => {
                return Err(e.or_expected(start, ExpectedSet::single(Expected::EndOfInput)));
            },
            Ok((node, end)) => {
                proof {
                    expr_views_push(done@, node);
                }
                done.push(node);
                pos = end;
            },
        }
    }
}

/// Reads the block at `pos`.
pub fn block_at(input: &[char], pos: usize, state: &mut ParserState, ctx: &ParserContext) -> (r:
    Result<(Expr, usize), ParseError>)
    ensures
        parsed_view(r) == grammar::block(input@, pos as int),
        moves_forward(input, pos, r),
        *final(state) == *old(state),
{
    if pos >= input.len() || input[pos] != '{' {
        return Err(
            ParseError::at(
                input,
                ErrorKind::Unexpected,
                pos,
                ExpectedSet::single(Expected::OpenBrace),
            ),
        );
    }
    let mut done: Vec<Expr> = Vec::new();
    let mut at: usize = skip_run(input, pos + 1, CharClass::Layout);
    proof {
        expr_views_empty();
    }
    loop
        invariant
            pos < at <= input.len(),
            grammar::block(input@, pos as int) == grammar::block_from(
                input@,
                pos as int,
                at as int,
                expr_views(done@),
            ),
            expr_views(done@).len() == done@.len(),
            *state == *old(state),
        decreases input.len() - at,
    {
        let besides_item = if done.len() == 0 {
            ExpectedSet::empty()
        } else {
            ExpectedSet::single(Expected::CloseBrace)
        };
        let at_item = ExpectedSet::for_operand().union(besides_item);
        if at >= input.len() {
            return Err(
                ParseError::at(
                    input,
                    ErrorKind::UnmatchedDelimiter { opening: pos },
                    input.len(),
                    at_item,
                ),
            );
        }
        if input[at] == '}' && done.len() > 0 {
            return Ok((Expr::Block { statements: done, trailing_expr: None }, at + 1));
        }
        if input[at] == ';' {
            return Err(ParseError::at(input, ErrorKind::EmptyStatement, at, at_item));
        }
        match chain_at(input, at, state, ctx) {
            Err(e) => {
                return Err(e.or_expected(at, besides_item));
            },
            Ok((item, end)) => {
                if end < input.len() && input[end] == ';' {
                    proof {
                        expr_views_push(done@, item);
                    }
                    done.push(item);
                    at = skip_run(input, end + 1, CharClass::Layout);
                } else {
                    let close = skip_run(input, end, CharClass::Layout);
                    if close < input.len() && input[close] == '}' {
                        return Ok(
                            (
                                Expr::Block {
                                    statements: done,
                                    trailing_expr: Some(Box::new(item)),
                                },
                                close + 1,
                            ),
                        );
                    } else {
                        return Err(
                            ParseError::at(
                                input,
                                ErrorKind::UnmatchedDelimiter { opening: pos },
                                close,
                                ExpectedSet::empty().with(Expected::Continuation).with(
                                    Expected::Semicolon,
                                ).with(Expected::CloseBrace),
                            ),
                        );
                    }
                }
            },
        }
    }
}

/// What was read from a whole input, as the grammar states it.
pub open spec fn whole_view(r: Result<Expr, ParseError>) -> Result<ExprView, Diagnostic> {
    match r {
        Ok(node) => Ok(node@),
        Err(e) => Err(e@),
    }
}

/// What was read from an input that is one literal, as the grammar states it.
pub open spec fn whole_literal_view(r: Result<Literal, ParseError>) -> Result<
    LiteralView,
    Diagnostic,
> {
    match r {
        Ok(value) => Ok(value@),
        Err(e) => Err(e@),
    }
}

/// Reads `source` as one literal.
pub fn parse_literal(source: &str, state: &mut ParserState, ctx: &ParserContext) -> (r: Result<
    Literal,
    ParseError,
>)
    ensures
        whole_literal_view(r) == grammar::whole_literal(source@),
        is_number(source@) ==> (r matches Ok(Literal::Num(digits)) && digits@ == source@),
        *final(state) == *old(state),
{
    proof {
        if is_number(source@) {
            digits_are_read_as_their_number(source@);
        }
    }
    let input = chars_of(source);
    match literal_at(input.as_slice(), 0, state, ctx) {
        Err(e) => Err(e),
        Ok(None) => Err(
            ParseError::at(
                input.as_slice(),
                ErrorKind::Unexpected,
                0,
                ExpectedSet::single(Expected::Literal),
            ),
        ),
        Ok(Some((value, end))) => if end == input.len() {
            Ok(value)
        } else {
            Err(
                ParseError::at(
                    input.as_slice(),
                    ErrorKind::Unexpected,
                    end,
                    ExpectedSet::single(Expected::EndOfInput),
                ),
            )
        },
    }
}

/// Reads `source` as one chain.
pub fn parse_chain(source: &str, state: &mut ParserState, ctx: &ParserContext) -> (r: Result<
    Expr,
    ParseError,
>)
    ensures
        whole_view(r) == grammar::whole_chain(source@),
        *final(state) == *old(state),
{
    let input = chars_of(source);
    match chain_at(input.as_slice(), 0, state, ctx) {
        Err(e) => Err(e),
        Ok((node, end)) => if end == input.len() {
            Ok(node)
        } else {
            Err(
                ParseError::at(
                    input.as_slice(),
                    ErrorKind::Unexpected,
                    end,
                    ExpectedSet::empty().with(Expected::Continuation).with(Expected::EndOfInput),
                ),
            )
        },
    }
}

/// Reads `source` as one block.
pub fn parse_block(source: &str, state: &mut ParserState, ctx: &ParserContext) -> (r: Result<
    Expr,
    ParseError,
>)
    ensures
        whole_view(r) == grammar::whole_block(source@),
        *final(state) == *old(state),
{
    let input = chars_of(source);
    match block_at(input.as_slice(), 0, state, ctx) {
        Err(e) => Err(e),
        Ok((node, end)) => if end == input.len() {
            Ok(node)
        } else {
            Err(
                ParseError::at(
                    input.as_slice(),
                    ErrorKind::Unexpected,
                    end,
                    ExpectedSet::single(Expected::EndOfInput),
                ),
            )
        },
    }
}

/// Reading a source again reads the same: what is read is settled by the
/// source alone, be it a tree or an error, whatever was read before.
pub proof fn reading_again_reads_the_same(
    source: Seq<char>,
    first: Result<Vec<Expr>, ParseError>,
    second: Result<Vec<Expr>, ParseError>,
)
    requires
        statements_view(first) == grammar::file(source),
        statements_view(second) == grammar::file(source),
    ensures
        statements_view(first) == statements_view(second),
        first is Ok <==> second is Ok,
        first matches Ok(a) ==> second matches Ok(b) && a@.len() == b@.len() && forall|i: int|
            0 <= i < a@.len() ==> (#[trigger] a@[i])@ == b@[i]@,
        first matches Err(e) ==> second == Err::<Vec<Expr>, ParseError>(e),
{
    if let Ok(a) = first {
        let b = second->Ok_0;
        assert(expr_views(a@) == expr_views(b@));
        assert forall|i: int| 0 <= i < a@.len() implies (#[trigger] a@[i])@ == b@[i]@ by {
            assert(expr_views(a@)[i] == expr_views(b@)[i]);
        }
    }
}

/// Reads `source` as a file: statements, each ended by `;`, with layout
/// around them. Gives the statements in order, or the first error.
pub fn file_parser(source: &str, state: &mut ParserState, ctx: &ParserContext) -> (r: Result<
    Vec<Expr>,
    ParseError,
>)
    ensures
        statements_view(r) == grammar::file(source@),
        *final(state) == *old(state),
{
    let input = chars_of(source);
    statements_of(input.as_slice(), state, ctx)
}

} // verus!
