//! What is written is read back: reading the text of a tree gives that
//! tree, whatever layout stands where layout may stand.
//!
//! A string must be plain for this: of a text that begins with a line feed,
//! or whose first line that is not blank is indented, no way of writing it
//! gives it back.

use vstd::prelude::*;
use crate::ast::{ExprView, LiteralView, LocationView};
use crate::diagnostics::Diagnostic;
use crate::grammar;
use crate::lexical::{
    all_in_class, in_class, is_digit, is_name, is_word, is_word_start, operator_char, operator_of,
    run_end, run_end_from_facts, run_end_is_maximal, word_as, word_false, word_true, written_at,
    CharClass,
};
use crate::shape::{
    are_statements, is_block, is_chain, is_infix_term, is_literal, is_operand, is_statement,
};
use crate::strings::{
    closing_quote, dedented, escape_at, indent_cut, line_end, line_end_bounds, normalized,
    unescaped,
};
use crate::writing::{
    are_layout, block_end_text, block_text, chain_text, escaped, file_text, has_plain_strings,
    infix_text, is_plain, items_text, literal_text, operand_text, statement_text, terms_text,
};

verus! {

/// What stands behind a prefix is unescaped as if the prefix were not there.
proof fn unescaped_behind_prefix(before: Seq<char>, s: Seq<char>, from: int)
    requires
        0 <= from <= s.len(),
    ensures
        unescaped(before + s, before.len() + from) == unescaped(s, from),
    decreases s.len() - from,
{
    let whole = before + s;
    if from < s.len() {
        assert(whole[before.len() + from] == s[from]);
        if from + 1 < s.len() {
            assert(whole[before.len() + from + 1] == s[from + 1]);
        }
        if escape_at(s, from) {
            assert(escape_at(whole, before.len() + from));
            unescaped_behind_prefix(before, s, from + 2);
        } else {
            assert(!escape_at(whole, before.len() + from));
            unescaped_behind_prefix(before, s, from + 1);
        }
    }
}

/// Replacing the escape sequences of an escaped text gives the text.
pub proof fn unescaped_of_escaped(text: Seq<char>, from: int)
    requires
        0 <= from <= text.len(),
    ensures
        unescaped(escaped(text, from), 0) == text.skip(from),
    decreases text.len() - from,
{
    let written = escaped(text, from);
    if from < text.len() {
        unescaped_of_escaped(text, from + 1);
        let rest = escaped(text, from + 1);
        if text[from] == '"' || text[from] == '\\' {
            let head = seq!['\\', text[from]];
            assert(written == head + rest);
            assert(written[0] == '\\' && written[1] == text[from]);
            assert(escape_at(written, 0));
            unescaped_behind_prefix(head, rest, 0);
            assert(unescaped(written, 0) == seq![text[from]] + unescaped(written, 2));
        } else {
            let head = seq![text[from]];
            assert(written == head + rest);
            assert(written[0] == text[from]);
            assert(!escape_at(written, 0));
            unescaped_behind_prefix(head, rest, 0);
            assert(unescaped(written, 0) == seq![text[from]] + unescaped(written, 1));
        }
        assert(seq![text[from]] + text.skip(from + 1) =~= text.skip(from));
    } else {
        assert(text.skip(from) =~= Seq::<char>::empty());
    }
}

/// Removing no indentation removes nothing.
proof fn dedented_by_nothing(text: Seq<char>, from: int)
    requires
        0 <= from <= text.len(),
    ensures
        dedented(text, from, 0) == text.skip(from),
    decreases text.len() - from,
{
    if from < text.len() {
        run_end_is_maximal(text, from, CharClass::Blank);
        assert(indent_cut(text, from, 0) == from);
        line_end_bounds(text, from);
        let end = line_end(text, from);
        if end < text.len() {
            dedented_by_nothing(text, end + 1);
            assert(text.subrange(from, end + 1) + text.skip(end + 1) =~= text.skip(from));
        } else {
            assert(text.subrange(from, text.len() as int) =~= text.skip(from));
        }
    } else {
        assert(text.skip(from) =~= Seq::<char>::empty());
    }
}

/// A plain text, escaped, stands for itself.
pub proof fn plain_text_stands_for_itself(text: Seq<char>)
    requires
        is_plain(text),
    ensures
        normalized(escaped(text, 0)) == text,
{
    unescaped_of_escaped(text, 0);
    assert(text.skip(0) =~= text);
    dedented_by_nothing(text, 0);
}

/// The quote behind an escaped text is the one that closes the string.
proof fn quote_behind_escaped_closes(s: Seq<char>, pos: int, text: Seq<char>, from: int)
    requires
        0 <= from <= text.len(),
        written_at(s, pos, escaped(text, from) + seq!['"']),
    ensures
        closing_quote(s, pos) == Some(pos + escaped(text, from).len()),
    decreases text.len() - from,
{
    let written = escaped(text, from) + seq!['"'];
    assert(s[pos] == s.subrange(pos, pos + written.len())[0]);
    if from < text.len() {
        let rest = escaped(text, from + 1) + seq!['"'];
        assert(s[pos + 1] == s.subrange(pos, pos + written.len())[1]);
        if text[from] == '"' || text[from] == '\\' {
            assert(written =~= seq!['\\', text[from]] + rest);
            assert(s.subrange(pos + 2, pos + 2 + rest.len()) =~= rest) by {
                assert forall|i: int| 0 <= i < rest.len() implies s[pos + 2 + i] == rest[i] by {
                    assert(s[pos + 2 + i] == s.subrange(pos, pos + written.len())[2 + i]);
                }
            }
            quote_behind_escaped_closes(s, pos + 2, text, from + 1);
        } else {
            assert(written =~= seq![text[from]] + rest);
            assert(s.subrange(pos + 1, pos + 1 + rest.len()) =~= rest) by {
                assert forall|i: int| 0 <= i < rest.len() implies s[pos + 1 + i] == rest[i] by {
                    assert(s[pos + 1 + i] == s.subrange(pos, pos + written.len())[1 + i]);
                }
            }
            quote_behind_escaped_closes(s, pos + 1, text, from + 1);
        }
    }
}

/// Whether no name or number that ends at `end` could go on there: `end` is
/// the end of `s`, or the character there is no letter, digit or `_`.
pub open spec fn word_ends_at(s: Seq<char>, end: int) -> bool {
    end >= s.len() || !is_word(s[end])
}

/// Where a text is written, its parts are written one behind the other.
proof fn written_in_parts(s: Seq<char>, pos: int, a: Seq<char>, b: Seq<char>)
    requires
        written_at(s, pos, a + b),
    ensures
        written_at(s, pos, a),
        written_at(s, pos + a.len(), b),
{
    let whole = s.subrange(pos, pos + (a + b).len());
    assert(s.subrange(pos, pos + a.len()) =~= a) by {
        assert forall|i: int| 0 <= i < a.len() implies s[pos + i] == a[i] by {
            assert(s[pos + i] == whole[i]);
        }
    }
    assert(s.subrange(pos + a.len(), pos + a.len() + b.len()) =~= b) by {
        assert forall|i: int| 0 <= i < b.len() implies s[pos + a.len() + i] == b[i] by {
            assert(s[pos + a.len() + i] == whole[a.len() + i]);
        }
    }
}

/// A character of a text that is written stands in the input.
proof fn written_char(s: Seq<char>, pos: int, w: Seq<char>, i: int)
    requires
        written_at(s, pos, w),
        0 <= i < w.len(),
    ensures
        s[pos + i] == w[i],
{
    assert(s[pos + i] == s.subrange(pos, pos + w.len())[i]);
}

/// A word that is written, with no letter, digit or `_` behind it, is the
/// run of such characters that begins there.
proof fn written_word_is_a_run(s: Seq<char>, pos: int, w: Seq<char>, class: CharClass)
    requires
        written_at(s, pos, w),
        forall|i: int| 0 <= i < w.len() ==> in_class(class, #[trigger] w[i]),
        pos + w.len() < s.len() ==> !in_class(class, s[pos + w.len()]),
    ensures
        run_end(s, pos, class) == pos + w.len(),
{
    assert forall|i: int| pos <= i < pos + w.len() implies in_class(class, #[trigger] s[i]) by {
        written_char(s, pos, w, i - pos);
    }
    run_end_from_facts(s, pos, pos + w.len(), class);
}

/// Whether `c` can begin an operand: a digit, a quote, a letter, `_` or `(`.
pub open spec fn begins_operand(c: char) -> bool {
    is_digit(c) || c == '"' || is_word_start(c) || c == '('
}

/// The text of an operand is not empty and begins as an operand does.
proof fn operand_text_begins(e: ExprView)
    requires
        is_operand(e),
    ensures
        operand_text(e).len() > 0,
        begins_operand(operand_text(e)[0]),
{
    match e {
        ExprView::Literal(LiteralView::Num(digits)) => {
            assert(in_class(CharClass::Digit, digits[0]));
        },
        _ => {},
    }
}

/// A literal that is written is read back.
pub proof fn literal_is_read_back(value: LiteralView, s: Seq<char>, pos: int)
    requires
        is_literal(value),
        value matches LiteralView::Str(text) ==> is_plain(text),
        written_at(s, pos, literal_text(value)),
        word_ends_at(s, pos + literal_text(value).len()),
    ensures
        grammar::literal(s, pos) == Ok::<Option<(LiteralView, int)>, Diagnostic>(
            Some((value, pos + literal_text(value).len())),
        ),
{
    let text = literal_text(value);
    let end = pos + text.len();
    match value {
        LiteralView::Num(digits) => {
            written_char(s, pos, text, 0);
            assert(in_class(CharClass::Digit, digits[0]));
            written_word_is_a_run(s, pos, digits, CharClass::Digit);
        },
        LiteralView::Bool(b) => {
            written_char(s, pos, text, 0);
            assert forall|i: int| 0 <= i < text.len() implies in_class(
                CharClass::Word,
                #[trigger] text[i],
            ) by {}
            written_word_is_a_run(s, pos, text, CharClass::Word);
            assert(word_true() != word_false()) by {
                assert(word_true().len() != word_false().len());
            }
        },
        LiteralView::Str(inner) => {
            let body = escaped(inner, 0);
            assert(text =~= seq!['"'] + (body + seq!['"']));
            written_in_parts(s, pos, seq!['"'], body + seq!['"']);
            written_char(s, pos, text, 0);
            quote_behind_escaped_closes(s, pos + 1, inner, 0);
            written_in_parts(s, pos + 1, body, seq!['"']);
            plain_text_stands_for_itself(inner);
        },
    }
}

/// The text that writes the terms of a chain from the one at `from` up to
/// the one at `to`, the first excluded.
spec fn further_terms_text(terms: Seq<ExprView>, from: nat, to: nat) -> Seq<char>
    decreases to,
{
    if to <= from || to > terms.len() {
        Seq::empty()
    } else {
        further_terms_text(terms, from, (to - 1) as nat) + infix_text(terms[to - 1])
    }
}

/// The text of the first terms of a chain is the text of fewer of them and
/// that of the terms between.
proof fn terms_text_splits(terms: Seq<ExprView>, from: nat, to: nat)
    requires
        1 <= from <= to <= terms.len(),
    ensures
        terms_text(terms, to) == terms_text(terms, from) + further_terms_text(terms, from, to),
    decreases to,
{
    if to > from {
        terms_text_splits(terms, from, (to - 1) as nat);
        assert(terms_text(terms, to) =~= terms_text(terms, from) + further_terms_text(
            terms,
            from,
            to,
        ));
    } else {
        assert(terms_text(terms, to) =~= terms_text(terms, from) + further_terms_text(
            terms,
            from,
            to,
        ));
    }
}

/// The text of further terms begins with the text of the first of them.
proof fn further_terms_text_begins(terms: Seq<ExprView>, from: nat, to: nat)
    requires
        from < to <= terms.len(),
    ensures
        further_terms_text(terms, from, to) == infix_text(terms[from as int]) + further_terms_text(
            terms,
            from + 1,
            to,
        ),
    decreases to,
{
    if to > from + 1 {
        further_terms_text_begins(terms, from, (to - 1) as nat);
        assert(further_terms_text(terms, from, to) =~= infix_text(terms[from as int])
            + further_terms_text(terms, from + 1, to));
    } else {
        assert(further_terms_text(terms, from, from) =~= Seq::<char>::empty());
        assert(further_terms_text(terms, from + 1, to) =~= Seq::<char>::empty());
        assert(further_terms_text(terms, from, to) =~= infix_text(terms[from as int])
            + further_terms_text(terms, from + 1, to));
    }
}

/// An operand that is written, with no letter, digit or `_` behind it, is
/// read back.
pub proof fn operand_is_read_back(e: ExprView, s: Seq<char>, pos: int)
    requires
        is_operand(e),
        has_plain_strings(e),
        written_at(s, pos, operand_text(e)),
        word_ends_at(s, pos + operand_text(e).len()),
    ensures
        grammar::operand(s, pos) == Ok::<(ExprView, int), Diagnostic>(
            (e, pos + operand_text(e).len()),
        ),
    decreases e, 0nat,
{
    let text = operand_text(e);
    operand_text_begins(e);
    written_char(s, pos, text, 0);
    match e {
        ExprView::Literal(value) => {
            literal_is_read_back(value, s, pos);
        },
        ExprView::Var(word) => {
            written_word_is_a_run(s, pos, word, CharClass::Word);
            assert(s.subrange(pos, pos + word.len()) == word);
        },
        ExprView::Chain(terms) => {
            let inner = terms_text(terms, terms.len());
            assert(text =~= seq!['('] + (inner + seq![')']));
            written_in_parts(s, pos, seq!['('], inner + seq![')']);
            written_in_parts(s, pos + 1, inner, seq![')']);
            written_char(s, pos + 1 + inner.len(), seq![')'], 0);
            chain_is_read_back(terms, s, pos + 1);
        },
        _ => {},
    }
}

/// An infix term that is written, with no letter, digit or `_` behind it, is
/// read back, and the chain before it goes on where it begins.
pub proof fn infix_is_read_back(e: ExprView, s: Seq<char>, pos: int)
    requires
        is_infix_term(e),
        has_plain_strings(e),
        written_at(s, pos, infix_text(e)),
        word_ends_at(s, pos + infix_text(e).len()),
    ensures
        grammar::continues_at(s, pos),
        grammar::infix(s, pos + 1) == Ok::<(ExprView, int), Diagnostic>(
            (e, pos + infix_text(e).len()),
        ),
        infix_text(e).len() > 3,
        infix_text(e)[0] == ' ',
    decreases e, 0nat,
{
    match e {
        ExprView::InfixOp(op, right) => {
            let head = seq![' ', operator_char(op), ' '];
            written_in_parts(s, pos, head, operand_text(*right));
            written_char(s, pos, head, 0);
            written_char(s, pos, head, 1);
            written_char(s, pos, head, 2);
            operand_text_begins(*right);
            operand_is_read_back(*right, s, pos + 3);
            assert(operator_of(operator_char(op)) == Some(op));
        },
        _ => {},
    }
}

/// A chain that is written, with nothing behind it that a name, a number or
/// the chain itself could go on with, is read back.
pub proof fn chain_is_read_back(terms: Seq<ExprView>, s: Seq<char>, pos: int)
    requires
        is_chain(ExprView::Chain(terms)),
        has_plain_strings(ExprView::Chain(terms)),
        written_at(s, pos, terms_text(terms, terms.len())),
        word_ends_at(s, pos + terms_text(terms, terms.len()).len()),
        !grammar::continues_at(s, pos + terms_text(terms, terms.len()).len()),
    ensures
        grammar::chain(s, pos) == Ok::<(ExprView, int), Diagnostic>(
            (ExprView::Chain(terms), pos + terms_text(terms, terms.len()).len()),
        ),
        terms_text(terms, terms.len()).len() > 0,
        begins_operand(terms_text(terms, terms.len())[0]),
    decreases terms, terms.len() + 1,
{
    let whole = terms_text(terms, terms.len());
    let first = operand_text(terms[0]);
    let rest = further_terms_text(terms, 1, terms.len());
    terms_text_splits(terms, 1, terms.len());
    assert(whole == first + rest);
    operand_text_begins(terms[0]);
    written_in_parts(s, pos, first, rest);
    written_char(s, pos, first, 0);
    assert(whole[0] == first[0]);
    if terms.len() > 1 {
        further_terms_text_begins(terms, 1, terms.len());
        let second = infix_text(terms[1]);
        written_in_parts(s, pos + first.len(), second, further_terms_text(terms, 2, terms.len()));
        assert(is_infix_term(terms[1]));
        assert(second.len() > 0 && second[0] == ' ') by {
            match terms[1] {
                ExprView::InfixOp(op, right) => {
                    assert(second[0] == seq![' ', operator_char(op), ' '][0]);
                },
                _ => {},
            }
        }
        written_char(s, pos + first.len(), second, 0);
    } else {
        assert(rest =~= Seq::<char>::empty());
    }
    operand_is_read_back(terms[0], s, pos);
    assert(terms.take(1) =~= seq![terms[0]]);
    terms_are_read_on(terms, 1, s, pos);
}

/// A chain that is written is read back from behind any of its terms on.
proof fn terms_are_read_on(terms: Seq<ExprView>, k: nat, s: Seq<char>, pos: int)
    requires
        is_chain(ExprView::Chain(terms)),
        has_plain_strings(ExprView::Chain(terms)),
        1 <= k <= terms.len(),
        written_at(s, pos, terms_text(terms, terms.len())),
        word_ends_at(s, pos + terms_text(terms, terms.len()).len()),
        !grammar::continues_at(s, pos + terms_text(terms, terms.len()).len()),
    ensures
        grammar::chain_from(s, pos + terms_text(terms, k).len(), terms.take(k as int))
            == Ok::<(ExprView, int), Diagnostic>(
            (ExprView::Chain(terms), pos + terms_text(terms, terms.len()).len()),
        ),
    decreases terms, terms.len() - k,
{
    let whole = terms_text(terms, terms.len());
    let here = pos + terms_text(terms, k).len();
    if k == terms.len() {
        assert(terms.take(k as int) =~= terms);
    } else {
        let term = terms[k as int];
        let text = infix_text(term);
        let after = further_terms_text(terms, k + 1, terms.len());
        terms_text_splits(terms, k, terms.len());
        further_terms_text_begins(terms, k, terms.len());
        assert(whole =~= terms_text(terms, k) + (text + after));
        written_in_parts(s, pos, terms_text(terms, k), text + after);
        written_in_parts(s, here, text, after);
        assert(is_infix_term(term));
        if k + 1 < terms.len() {
            further_terms_text_begins(terms, k + 1, terms.len());
            let next = infix_text(terms[k as int + 1]);
            assert(is_infix_term(terms[k as int + 1]));
            assert(next.len() > 0 && next[0] == ' ') by {
                match terms[k as int + 1] {
                    ExprView::InfixOp(op, right) => {
                        assert(next[0] == seq![' ', operator_char(op), ' '][0]);
                    },
                    _ => {},
                }
            }
            written_in_parts(
                s,
                here + text.len(),
                next,
                further_terms_text(terms, k + 2, terms.len()),
            );
            written_char(s, here + text.len(), next, 0);
        } else {
            assert(after =~= Seq::<char>::empty());
        }
        infix_is_read_back(term, s, here);
        assert(terms.take(k as int).push(term) =~= terms.take(k as int + 1));
        assert(terms_text(terms, k + 1) == terms_text(terms, k) + text);
        terms_are_read_on(terms, k + 1, s, pos);
    }
}

/// A name that is written, with no letter, digit or `_` behind it, is read
/// back.
pub proof fn name_is_read_back(word: Seq<char>, s: Seq<char>, pos: int)
    requires
        is_name(word),
        written_at(s, pos, word),
        word_ends_at(s, pos + word.len()),
    ensures
        grammar::name(s, pos) == Some((word, pos + word.len())),
{
    written_char(s, pos, word, 0);
    written_word_is_a_run(s, pos, word, CharClass::Word);
}

/// A statement that is written is read back.
pub proof fn statement_is_read_back(e: ExprView, s: Seq<char>, pos: int)
    requires
        is_statement(e),
        has_plain_strings(e),
        written_at(s, pos, statement_text(e)),
    ensures
        grammar::statement(s, pos) == Ok::<(ExprView, int), Diagnostic>(
            (e, pos + statement_text(e).len()),
        ),
        statement_text(e).len() > 1,
        begins_operand(statement_text(e)[0]),
{
    match e {
        ExprView::Assign(LocationView::Var(target), value) => {
            let terms = (*value)->Chain_0;
            let written = chain_text(*value);
            let behind = word_as() + target + seq![';'];
            assert(statement_text(e) =~= written + behind);
            written_in_parts(s, pos, written, behind);
            let end = pos + written.len();
            assert(behind =~= word_as() + (target + seq![';']));
            written_in_parts(s, end, word_as(), target + seq![';']);
            written_in_parts(s, end + 4, target, seq![';']);
            written_char(s, end, word_as(), 0);
            written_char(s, end, word_as(), 1);
            written_char(s, end + 4 + target.len(), seq![';'], 0);
            chain_is_read_back(terms, s, pos);
            written_char(s, pos, written, 0);
            name_is_read_back(target, s, end + 4);
        },
        ExprView::Chain(terms) => {
            let written = chain_text(e);
            written_in_parts(s, pos, written, seq![';']);
            written_char(s, pos + written.len(), seq![';'], 0);
            chain_is_read_back(terms, s, pos);
            written_char(s, pos, written, 0);
            assert(!written_at(s, pos + written.len(), word_as())) by {
                if written_at(s, pos + written.len(), word_as()) {
                    written_char(s, pos + written.len(), word_as(), 0);
                }
            }
        },
        _ => {},
    }
}

/// The text of a chain is not empty and begins as an operand does.
proof fn chain_text_begins(e: ExprView)
    requires
        is_chain(e),
    ensures
        chain_text(e).len() > 0,
        begins_operand(chain_text(e)[0]),
{
    let terms = e->Chain_0;
    terms_text_splits(terms, 1, terms.len());
    operand_text_begins(terms[0]);
    assert(chain_text(e)[0] == operand_text(terms[0])[0]);
}

/// A literal that is written, with plain text if it is a string, is read
/// back from its text.
pub proof fn written_literal_is_read_back(value: LiteralView)
    requires
        is_literal(value),
        value matches LiteralView::Str(text) ==> is_plain(text),
    ensures
        grammar::whole_literal(literal_text(value)) == Ok::<
            LiteralView,
            Diagnostic,
        >(value),
{
    let s = literal_text(value);
    assert(s.subrange(0, s.len() as int) =~= s);
    literal_is_read_back(value, s, 0);
}

/// A chain that is written, with plain strings, is read back from its text.
pub proof fn written_chain_is_read_back(e: ExprView)
    requires
        is_chain(e),
        has_plain_strings(e),
    ensures
        grammar::whole_chain(chain_text(e)) == Ok::<ExprView, Diagnostic>(
            e,
        ),
{
    let s = chain_text(e);
    assert(s.subrange(0, s.len() as int) =~= s);
    chain_is_read_back(e->Chain_0, s, 0);
}

/// Layout that is written, with no layout behind it, is all the layout
/// there.
proof fn written_gap_is_a_run(s: Seq<char>, pos: int, gap: Seq<char>)
    requires
        written_at(s, pos, gap),
        all_in_class(gap, CharClass::Layout),
        pos + gap.len() < s.len() ==> !in_class(CharClass::Layout, s[pos + gap.len()]),
    ensures
        run_end(s, pos, CharClass::Layout) == pos + gap.len(),
{
    written_word_is_a_run(s, pos, gap, CharClass::Layout);
}

/// Statements that are written to the end of the input are read back, behind
/// the statements that were read before.
proof fn statements_are_read_on(
    nodes: Seq<ExprView>,
    gaps: Seq<Seq<char>>,
    from: nat,
    s: Seq<char>,
    pos: int,
    done: Seq<ExprView>,
)
    requires
        are_statements(nodes),
        forall|i: int| 0 <= i < nodes.len() ==> has_plain_strings(#[trigger] nodes[i]),
        gaps.len() == nodes.len() + 1,
        are_layout(gaps),
        from <= nodes.len(),
        written_at(s, pos, file_text(nodes, gaps, from)),
        pos + file_text(nodes, gaps, from).len() == s.len(),
    ensures
        grammar::statements_from(s, pos, done) == Ok::<Seq<ExprView>, Diagnostic>(
            done + nodes.skip(from as int),
        ),
    decreases nodes.len() - from,
{
    let gap = gaps[from as int];
    assert(all_in_class(gap, CharClass::Layout));
    if from >= nodes.len() {
        assert(nodes.skip(from as int) =~= Seq::<ExprView>::empty());
        assert(done + Seq::<ExprView>::empty() =~= done);
        written_gap_is_a_run(s, pos, gap);
    } else {
        let node = nodes[from as int];
        let written = statement_text(node);
        let rest = file_text(nodes, gaps, from + 1);
        assert(is_statement(node));
        assert(file_text(nodes, gaps, from) =~= gap + (written + rest));
        written_in_parts(s, pos, gap, written + rest);
        let start = pos + gap.len();
        written_in_parts(s, start, written, rest);
        statement_is_read_back(node, s, start);
        written_char(s, start, written, 0);
        written_gap_is_a_run(s, pos, gap);
        statements_are_read_on(nodes, gaps, from + 1, s, start + written.len(), done.push(node));
        assert(done.push(node) + nodes.skip(from as int + 1) =~= done + nodes.skip(from as int));
    }
}

/// What is written in a block from an item on is not empty and begins with
/// an operand or with `}`, not with layout.
proof fn block_rest_begins(
    statements: Seq<ExprView>,
    trailing_expr: Option<Box<ExprView>>,
    gaps: Seq<Seq<char>>,
    from: nat,
)
    requires
        is_block(ExprView::Block { statements, trailing_expr }),
        gaps.len() == statements.len() + 2,
        from <= statements.len(),
    ensures
        (items_text(statements, gaps, from) + block_end_text(
            trailing_expr,
            gaps[statements.len() as int + 1],
        )).len() > 0,
        ({
            let c = (items_text(statements, gaps, from) + block_end_text(
                trailing_expr,
                gaps[statements.len() as int + 1],
            ))[0];
            begins_operand(c) || c == '}'
        }),
{
    let tail = block_end_text(trailing_expr, gaps[statements.len() as int + 1]);
    if from >= statements.len() {
        assert(items_text(statements, gaps, from) + tail =~= tail);
        match trailing_expr {
            Some(last) => {
                chain_text_begins(*last);
                assert(tail[0] == chain_text(*last)[0]);
            },
            None => {},
        }
    } else {
        let item = statements[from as int];
        assert(is_chain(item));
        chain_text_begins(item);
        assert((items_text(statements, gaps, from) + tail)[0] == chain_text(item)[0]);
    }
}

/// A chain does not go on into layout that is followed by layout, by `}` or
/// by nothing, nor into `}`.
proof fn chain_ends_before_gap(s: Seq<char>, pos: int, gap: Seq<char>)
    requires
        written_at(s, pos, gap + seq!['}']),
        all_in_class(gap, CharClass::Layout),
    ensures
        word_ends_at(s, pos),
        !grammar::continues_at(s, pos),
        run_end(s, pos, CharClass::Layout) == pos + gap.len(),
        s[pos + gap.len()] == '}',
        s[pos] != ';',
{
    let written = gap + seq!['}'];
    written_in_parts(s, pos, gap, seq!['}']);
    written_char(s, pos + gap.len(), seq!['}'], 0);
    written_gap_is_a_run(s, pos, gap);
    written_char(s, pos, written, 0);
    if gap.len() > 0 {
        assert(in_class(CharClass::Layout, gap[0]));
        assert(written[0] == gap[0]);
        written_char(s, pos, written, 1);
        if gap.len() > 1 {
            assert(in_class(CharClass::Layout, gap[1]));
            assert(written[1] == gap[1]);
        }
    }
}

/// The items of a block that are written are read back, behind the items
/// that were read before.
proof fn items_are_read_on(
    statements: Seq<ExprView>,
    trailing_expr: Option<Box<ExprView>>,
    gaps: Seq<Seq<char>>,
    from: nat,
    s: Seq<char>,
    opening: int,
    pos: int,
    done: Seq<ExprView>,
)
    requires
        is_block(ExprView::Block { statements, trailing_expr }),
        has_plain_strings(ExprView::Block { statements, trailing_expr }),
        gaps.len() == statements.len() + 2,
        are_layout(gaps),
        from <= statements.len(),
        done.len() == from,
        written_at(
            s,
            pos,
            items_text(statements, gaps, from) + block_end_text(
                trailing_expr,
                gaps[statements.len() as int + 1],
            ),
        ),
    ensures
        grammar::block_from(s, opening, pos, done) == Ok::<(ExprView, int), Diagnostic>(
            (
                ExprView::Block {
                    statements: done + statements.skip(from as int),
                    trailing_expr,
                },
                pos + (items_text(statements, gaps, from) + block_end_text(
                    trailing_expr,
                    gaps[statements.len() as int + 1],
                )).len(),
            ),
        ),
    decreases statements.len() - from,
{
    let last_gap = gaps[statements.len() as int + 1];
    let tail = block_end_text(trailing_expr, last_gap);
    assert(all_in_class(last_gap, CharClass::Layout));
    if from == statements.len() {
        assert(statements.skip(from as int) =~= Seq::<ExprView>::empty());
        assert(done + Seq::<ExprView>::empty() =~= done);
        assert(items_text(statements, gaps, from) + tail =~= tail);
        match trailing_expr {
            Some(last) => {
                let terms = (*last)->Chain_0;
                let written = chain_text(*last);
                assert(tail =~= written + (last_gap + seq!['}']));
                written_in_parts(s, pos, written, last_gap + seq!['}']);
                chain_ends_before_gap(s, pos + written.len(), last_gap);
                chain_is_read_back(terms, s, pos);
                written_char(s, pos, written, 0);
            },
            None => {
                written_char(s, pos, tail, 0);
            },
        }
    } else {
        let block = ExprView::Block { statements, trailing_expr };
        assert(is_block(block) && has_plain_strings(block));
        assert(is_chain(statements[from as int]));
        assert(has_plain_strings(statements[from as int]));
        let item = statements[from as int];
        let terms = item->Chain_0;
        let written = chain_text(item);
        let gap = gaps[from as int + 1];
        let rest = items_text(statements, gaps, from + 1) + tail;
        assert(all_in_class(gap, CharClass::Layout));
        assert(items_text(statements, gaps, from) + tail =~= written + (seq![';'] + (gap + rest)));
        written_in_parts(s, pos, written, seq![';'] + (gap + rest));
        let end = pos + written.len();
        written_in_parts(s, end, seq![';'], gap + rest);
        written_in_parts(s, end + 1, gap, rest);
        written_char(s, end, seq![';'], 0);
        chain_is_read_back(terms, s, pos);
        written_char(s, pos, written, 0);
        block_rest_begins(statements, trailing_expr, gaps, from + 1);
        written_char(s, end + 1 + gap.len(), rest, 0);
        written_gap_is_a_run(s, end + 1, gap);
        items_are_read_on(
            statements,
            trailing_expr,
            gaps,
            from + 1,
            s,
            opening,
            end + 1 + gap.len(),
            done.push(item),
        );
        assert(done.push(item) + statements.skip(from as int + 1) =~= done + statements.skip(
            from as int,
        ));
    }
}

/// A block that is written at a place in the input is read back there.
pub proof fn block_is_read_back(e: ExprView, gaps: Seq<Seq<char>>, s: Seq<char>, pos: int)
    requires
        is_block(e),
        has_plain_strings(e),
        gaps.len() == e->statements.len() + 2,
        are_layout(gaps),
        written_at(s, pos, block_text(e, gaps)),
    ensures
        grammar::block(s, pos) == Ok::<(ExprView, int), Diagnostic>(
            (e, pos + block_text(e, gaps).len()),
        ),
{
    let statements = e->statements;
    let trailing_expr = e->trailing_expr;
    let inner = items_text(statements, gaps, 0) + block_end_text(
        trailing_expr,
        gaps[statements.len() as int + 1],
    );
    assert(all_in_class(gaps[0], CharClass::Layout));
    assert(block_text(e, gaps) =~= seq!['{'] + (gaps[0] + inner));
    written_in_parts(s, pos, seq!['{'], gaps[0] + inner);
    written_in_parts(s, pos + 1, gaps[0], inner);
    written_char(s, pos, seq!['{'], 0);
    block_rest_begins(statements, trailing_expr, gaps, 0);
    written_char(s, pos + 1 + gaps[0].len(), inner, 0);
    written_gap_is_a_run(s, pos + 1, gaps[0]);
    items_are_read_on(
        statements,
        trailing_expr,
        gaps,
        0,
        s,
        pos,
        pos + 1 + gaps[0].len(),
        Seq::empty(),
    );
    assert(Seq::<ExprView>::empty() + statements.skip(0) =~= statements);
}

/// A block that is written, with plain strings and any layout, is read back
/// from its text.
pub proof fn written_block_is_read_back(e: ExprView, gaps: Seq<Seq<char>>)
    requires
        is_block(e),
        has_plain_strings(e),
        gaps.len() == e->statements.len() + 2,
        are_layout(gaps),
    ensures
        grammar::whole_block(block_text(e, gaps)) == Ok::<ExprView, Diagnostic>(e),
{
    let s = block_text(e, gaps);
    assert(s.subrange(0, s.len() as int) =~= s);
    block_is_read_back(e, gaps, s, 0);
}

/// Statements that are written, with plain strings and any layout, are read
/// back from their text.
pub proof fn written_file_is_read_back(nodes: Seq<ExprView>, gaps: Seq<Seq<char>>)
    requires
        are_statements(nodes),
        forall|i: int| 0 <= i < nodes.len() ==> has_plain_strings(#[trigger] nodes[i]),
        gaps.len() == nodes.len() + 1,
        are_layout(gaps),
    ensures
        grammar::file(file_text(nodes, gaps, 0)) == Ok::<Seq<ExprView>, Diagnostic>(nodes),
{
    let s = file_text(nodes, gaps, 0);
    assert(s.subrange(0, s.len() as int) =~= s);
    statements_are_read_on(nodes, gaps, 0, s, 0, Seq::empty());
    assert(Seq::<ExprView>::empty() + nodes.skip(0) =~= nodes);
}

} // verus!
