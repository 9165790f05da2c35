//! How a tree is written.
//!
//! Within a chain there is one way to write a tree. Around the statements of
//! a file and around the items of a block any layout may stand, so their
//! text is given for the layout that is wanted: a sequence of gaps, each of
//! spaces, tabs, line feeds and carriage returns in any number, or empty.

use vstd::prelude::*;
use crate::ast::{ExprView, LiteralView, LocationView};
use crate::lexical::{all_in_class, operator_char, word_as, word_false, word_true, CharClass};
use crate::strings::{first_indent, text_start};

verus! {

/// The characters of `text` from `from` on, with `\` before every `"` and
/// every `\`.
pub open spec fn escaped(text: Seq<char>, from: int) -> Seq<char>
    decreases text.len() - from,
{
    if from < 0 || from >= text.len() {
        Seq::empty()
    } else if text[from] == '"' || text[from] == '\\' {
        seq!['\\', text[from]] + escaped(text, from + 1)
    } else {
        seq![text[from]] + escaped(text, from + 1)
    }
}

/// Whether `text` is what stands between the quotes for itself: it does not
/// begin with a line feed, and its first line that is not blank is not
/// indented.
pub open spec fn is_plain(text: Seq<char>) -> bool {
    text_start(text) == 0 && first_indent(text, 0) == 0
}

/// The text that writes `value`.
pub open spec fn literal_text(value: LiteralView) -> Seq<char> {
    match value {
        LiteralView::Num(digits) => digits,
        LiteralView::Bool(b) => if b {
            word_true()
        } else {
            word_false()
        },
        LiteralView::Str(text) => seq!['"'] + escaped(text, 0) + seq!['"'],
    }
}

/// The text that writes the operand `e`; a chain stands between parentheses.
pub open spec fn operand_text(e: ExprView) -> Seq<char>
    decreases e, 0nat,
{
    match e {
        ExprView::Literal(value) => literal_text(value),
        ExprView::Var(word) => word,
        ExprView::Chain(terms) => seq!['('] + terms_text(terms, terms.len()) + seq![')'],
        _ => Seq::empty(),
    }
}

/// The text that writes the infix term `e`, with the space before it.
pub open spec fn infix_text(e: ExprView) -> Seq<char>
    decreases e, 0nat,
{
    match e {
        ExprView::InfixOp(op, right) => seq![' ', operator_char(op), ' '] + operand_text(*right),
        _ => Seq::empty(),
    }
}

/// The text that writes the first `n` of the terms of a chain.
pub open spec fn terms_text(terms: Seq<ExprView>, n: nat) -> Seq<char>
    decreases terms, n,
{
    if n == 0 || n > terms.len() {
        Seq::empty()
    } else if n == 1 {
        operand_text(terms[0])
    } else {
        terms_text(terms, (n - 1) as nat) + infix_text(terms[n - 1])
    }
}

/// The text that writes the chain `e`.
pub open spec fn chain_text(e: ExprView) -> Seq<char> {
    match e {
        ExprView::Chain(terms) => terms_text(terms, terms.len()),
        _ => Seq::empty(),
    }
}

/// The text that writes the statement `e`, with its `;`.
pub open spec fn statement_text(e: ExprView) -> Seq<char> {
    match e {
        ExprView::Assign(LocationView::Var(target), value) => chain_text(*value) + word_as()
            + target + seq![';'],
        _ => chain_text(e) + seq![';'],
    }
}

/// Whether every string in `e` is plain.
pub open spec fn has_plain_strings(e: ExprView) -> bool
    decreases e,
{
    match e {
        ExprView::Literal(LiteralView::Str(text)) => is_plain(text),
        ExprView::Literal(_) => true,
        ExprView::Var(_) => true,
        ExprView::InfixOp(_, right) => has_plain_strings(*right),
        ExprView::Assign(_, value) => has_plain_strings(*value),
        ExprView::Chain(terms) => forall|i: int|
            0 <= i < terms.len() ==> has_plain_strings(#[trigger] terms[i]),
        ExprView::Block { statements, trailing_expr } => {
            &&& forall|i: int|
                0 <= i < statements.len() ==> has_plain_strings(#[trigger] statements[i])
            &&& trailing_expr matches Some(last) ==> has_plain_strings(*last)
        },
    }
}

/// Whether each of `gaps` holds layout and nothing else.
pub open spec fn are_layout(gaps: Seq<Seq<char>>) -> bool {
    forall|i: int| 0 <= i < gaps.len() ==> all_in_class(#[trigger] gaps[i], CharClass::Layout)
}

/// The text that writes the statements from the one at `from` on, with
/// `gaps[i]` before the statement at `i` and the last of `gaps` behind the
/// last statement.
pub open spec fn file_text(nodes: Seq<ExprView>, gaps: Seq<Seq<char>>, from: nat) -> Seq<char>
    recommends
        gaps.len() == nodes.len() + 1,
    decreases nodes.len() - from,
{
    if from >= nodes.len() {
        gaps[nodes.len() as int]
    } else {
        gaps[from as int] + statement_text(nodes[from as int]) + file_text(nodes, gaps, from + 1)
    }
}

/// The text that writes the statements of a block from the one at `from`
/// on, each with its `;` and with `gaps[i + 1]` behind the `;` of the
/// statement at `i`.
pub open spec fn items_text(statements: Seq<ExprView>, gaps: Seq<Seq<char>>, from: nat) -> Seq<
    char,
>
    recommends
        gaps.len() == statements.len() + 2,
    decreases statements.len() - from,
{
    if from >= statements.len() {
        Seq::empty()
    } else {
        chain_text(statements[from as int]) + seq![';'] + gaps[from as int + 1] + items_text(
            statements,
            gaps,
            from + 1,
        )
    }
}

/// The text that ends a block: the expression that gives the block its
/// value, if it has one, with `gap` behind it; then `}`.
pub open spec fn block_end_text(trailing_expr: Option<Box<ExprView>>, gap: Seq<char>) -> Seq<char> {
    match trailing_expr {
        Some(last) => chain_text(*last) + gap + seq!['}'],
        None => seq!['}'],
    }
}

/// The text that writes the block `e`, with `gaps[0]` behind `{`, `gaps[i +
/// 1]` behind the statement at `i`, and the last of `gaps` before `}` where
/// an expression gives the block its value.
pub open spec fn block_text(e: ExprView, gaps: Seq<Seq<char>>) -> Seq<char>
    recommends
        e is Block,
        gaps.len() == e->statements.len() + 2,
{
    match e {
        ExprView::Block { statements, trailing_expr } => seq!['{'] + gaps[0] + (items_text(
            statements,
            gaps,
            0,
        ) + block_end_text(trailing_expr, gaps[statements.len() as int + 1])),
        _ => Seq::empty(),
    }
}

} // verus!
