//! A tree without strings is written exactly as the text that it was read
//! from: reading drops nothing and adds nothing. (Of a string the tree keeps
//! what it stands for, not how it was written.)

use vstd::prelude::*;
use crate::ast::ExprView;
use crate::grammar::{
    block, block_from, chain, chain_from, continues_at, file, infix, literal, name, operand,
    statement, statements_from, whole_block, whole_chain,
};
use crate::lexical::{
    all_in_class, operator_char, operator_of, run_end, run_end_is_maximal, word_as, written_at,
    CharClass,
};
use crate::progress::{chain_within, infix_within, name_within, operand_within, statement_within};
use crate::writing::{
    are_layout, block_end_text, block_text, chain_text, file_text, infix_text, items_text,
    operand_text, statement_text, terms_text,
};

verus! {

/// Whether there is no string in `e`.
pub open spec fn has_no_strings(e: ExprView) -> bool
    decreases e,
{
    match e {
        ExprView::Literal(value) => !(value is Str),
        ExprView::Var(_) => true,
        ExprView::InfixOp(_, right) => has_no_strings(*right),
        ExprView::Assign(_, value) => has_no_strings(*value),
        ExprView::Chain(terms) => forall|i: int|
            0 <= i < terms.len() ==> has_no_strings(#[trigger] terms[i]),
        ExprView::Block { statements, trailing_expr } => {
            &&& forall|i: int|
                0 <= i < statements.len() ==> has_no_strings(#[trigger] statements[i])
            &&& trailing_expr matches Some(last) ==> has_no_strings(*last)
        },
    }
}

/// An operand without strings is written as it was read.
pub proof fn operand_is_written_as_read(s: Seq<char>, pos: int)
    requires
        0 <= pos <= s.len(),
    ensures
        operand(s, pos) matches Ok((e, end)) ==> has_no_strings(e) ==> s.subrange(pos, end)
            == operand_text(e),
    decreases s.len() - pos, 0int,
{
    operand_within(s, pos);
    if let Ok((e, end)) = operand(s, pos) {
        match literal(s, pos) {
            Ok(Some((value, _))) => {},
            Ok(None) => match name(s, pos) {
                Some(_) => {},
                None => {
                    chain_is_written_as_read(s, pos + 1);
                    chain_within(s, pos + 1);
                    if has_no_strings(e) {
                        let inner = chain_text(e);
                        assert(s.subrange(pos, end) =~= seq!['('] + s.subrange(pos + 1, end - 1)
                            + seq![')']);
                    }
                },
            },
            Err(_) => {},
        }
    }
}

/// An infix term without strings is written as it was read, with the space
/// before it.
pub proof fn infix_is_written_as_read(s: Seq<char>, pos: int)
    requires
        0 < pos <= s.len(),
        s[pos - 1] == ' ',
    ensures
        infix(s, pos) matches Ok((e, end)) ==> has_no_strings(e) ==> s.subrange(pos - 1, end)
            == infix_text(e),
    decreases s.len() - pos, 0int,
{
    infix_within(s, pos);
    if let Ok((e, end)) = infix(s, pos) {
        operand_is_written_as_read(s, pos + 2);
        operand_within(s, pos + 2);
        if has_no_strings(e) {
            let op = operator_of(s[pos])->0;
            assert(operator_char(op) == s[pos]);
            assert(s.subrange(pos - 1, end) =~= seq![' ', s[pos], ' '] + s.subrange(pos + 2, end));
        }
    }
}

/// A chain without strings is written as it was read.
pub proof fn chain_is_written_as_read(s: Seq<char>, pos: int)
    requires
        0 <= pos <= s.len(),
    ensures
        chain(s, pos) matches Ok((e, end)) ==> has_no_strings(e) ==> s.subrange(pos, end)
            == chain_text(e),
    decreases s.len() - pos, 2int,
{
    operand_within(s, pos);
    if let Ok((first, after_first)) = operand(s, pos) {
        operand_is_written_as_read(s, pos);
        chain_goes_on_as_read(s, pos, after_first, seq![first]);
        if let Ok((e, end)) = chain(s, pos) {
            let all = e->Chain_0;
            if has_no_strings(e) {
                assert(all[0] == all.take(1)[0]);
                assert(has_no_strings(all[0]));
            }
        }
    }
}

/// A chain that is read on keeps the terms that it had, and is written as it
/// was read if it has no strings and its terms so far were written as they
/// were read.
proof fn chain_goes_on_as_read(s: Seq<char>, start: int, pos: int, terms: Seq<ExprView>)
    requires
        0 <= start <= pos <= s.len(),
        terms.len() >= 1,
    ensures
        chain_from(s, pos, terms) matches Ok((e, end)) ==> {
            &&& e matches ExprView::Chain(all)
            &&& all.len() >= terms.len()
            &&& all.take(terms.len() as int) == terms
            &&& has_no_strings(e) && s.subrange(start, pos) == terms_text(terms, terms.len())
                ==> s.subrange(start, end) == chain_text(e)
        },
    decreases s.len() - pos, 1int,
{
    if continues_at(s, pos) {
        infix_within(s, pos + 1);
        if let Ok((term, next)) = infix(s, pos + 1) {
            infix_is_written_as_read(s, pos + 1);
            let longer = terms.push(term);
            chain_goes_on_as_read(s, start, next, longer);
            if let Ok((e, end)) = chain_from(s, pos, terms) {
                let all = e->Chain_0;
                assert(all.take(terms.len() as int) =~= longer.take(terms.len() as int));
                assert(longer.take(terms.len() as int) =~= terms);
                if has_no_strings(e) && s.subrange(start, pos) == terms_text(terms, terms.len()) {
                    let last = terms.len() as int;
                    assert(all[last] == all.take(longer.len() as int)[last]);
                    assert(has_no_strings(all[last]));
                    assert(s.subrange(start, next) =~= s.subrange(start, pos) + s.subrange(
                        pos,
                        next,
                    ));
                    assert(terms_text(longer, longer.len()) == terms_text(longer, terms.len())
                        + infix_text(term));
                    terms_text_of_prefix(longer, terms, terms.len());
                }
            }
        }
    } else {
        assert(terms.take(terms.len() as int) =~= terms);
    }
}

/// The text of the first terms of a chain is that of the same terms of a
/// chain that agrees with it in them.
proof fn terms_text_of_prefix(longer: Seq<ExprView>, terms: Seq<ExprView>, n: nat)
    requires
        n <= terms.len() <= longer.len(),
        longer.take(terms.len() as int) == terms,
    ensures
        terms_text(longer, n) == terms_text(terms, n),
    decreases n,
{
    if n >= 1 {
        assert(longer[n - 1] == longer.take(terms.len() as int)[n - 1]);
        terms_text_of_prefix(longer, terms, (n - 1) as nat);
        if n == 1 {
            assert(terms_text(longer, n) == operand_text(longer[0]));
        }
    }
}

/// A statement without strings is written as it was read.
pub proof fn statement_is_written_as_read(s: Seq<char>, pos: int)
    requires
        0 <= pos <= s.len(),
    ensures
        statement(s, pos) matches Ok((e, end)) ==> has_no_strings(e) ==> s.subrange(pos, end)
            == statement_text(e),
{
    chain_within(s, pos);
    chain_is_written_as_read(s, pos);
    if let Ok((e, end)) = statement(s, pos) {
        if let Ok((value, behind)) = chain(s, pos) {
            if has_no_strings(e) {
                if written_at(s, behind, word_as()) {
                    name_within(s, behind + 4);
                    let found = name(s, behind + 4)->0;
                    let target = found.0;
                    assert(s.subrange(pos, end) =~= s.subrange(pos, behind) + word_as() + target
                        + seq![';']) by {
                        assert(s.subrange(behind, behind + 4) == word_as());
                        assert forall|i: int| 0 <= i < 4 implies s[behind + i] == word_as()[i] by {
                            assert(s[behind + i] == s.subrange(behind, behind + 4)[i]);
                        }
                    }
                } else {
                    assert(s.subrange(pos, end) =~= s.subrange(pos, behind) + seq![';']);
                }
            }
        }
    }
}

/// A chain without strings that is read from a whole input is written as
/// that input.
pub proof fn whole_chain_is_written_as_read(s: Seq<char>)
    ensures
        whole_chain(s) matches Ok(e) ==> has_no_strings(e) ==> chain_text(e) == s,
{
    chain_is_written_as_read(s, 0);
    assert(s.subrange(0, s.len() as int) =~= s);
}

/// Whether there is no string in any of `nodes`.
pub open spec fn have_no_strings(nodes: Seq<ExprView>) -> bool {
    forall|i: int| 0 <= i < nodes.len() ==> has_no_strings(#[trigger] nodes[i])
}

/// The text of statements from the second on is the text of the statements
/// without the first, with the gaps without the first.
proof fn file_text_without_first(nodes: Seq<ExprView>, gaps: Seq<Seq<char>>, from: nat)
    requires
        nodes.len() >= 1,
        gaps.len() == nodes.len() + 1,
        from < nodes.len(),
    ensures
        file_text(nodes, gaps, from + 1) == file_text(nodes.skip(1), gaps.skip(1), from),
    decreases nodes.len() - from,
{
    if from + 1 < nodes.len() {
        file_text_without_first(nodes, gaps, from + 1);
        assert(nodes.skip(1)[from as int] == nodes[from as int + 1]);
        assert(gaps.skip(1)[from as int] == gaps[from as int + 1]);
    } else {
        assert(gaps.skip(1)[from as int] == gaps[from as int + 1]);
    }
}

/// The statements that are read from a place on come behind those that were
/// read before, and if they have no strings, they are written as the input
/// from that place on, with the layout that this proof gives.
proof fn statements_are_written_as_read(s: Seq<char>, pos: int, done: Seq<ExprView>) -> (gaps:
    Seq<Seq<char>>)
    requires
        0 <= pos <= s.len(),
    ensures
        statements_from(s, pos, done) matches Ok(all) ==> {
            &&& all.len() >= done.len()
            &&& all.take(done.len() as int) == done
            &&& gaps.len() == all.len() - done.len() + 1
            &&& are_layout(gaps)
            &&& have_no_strings(all.skip(done.len() as int)) ==> file_text(
                all.skip(done.len() as int),
                gaps,
                0,
            ) == s.subrange(pos, s.len() as int)
        },
    decreases s.len() - pos,
{
    run_end_is_maximal(s, pos, CharClass::Layout);
    let start = run_end(s, pos, CharClass::Layout);
    let gap = s.subrange(pos, start);
    if start >= s.len() {
        assert(done.take(done.len() as int) =~= done);
        seq![gap]
    } else {
        statement_within(s, start);
        statement_is_written_as_read(s, start);
        match statement(s, start) {
            Ok((node, end)) => {
                let longer = done.push(node);
                let further = statements_are_written_as_read(s, end, longer);
                let gaps = seq![gap] + further;
                if let Ok(all) = statements_from(s, pos, done) {
                    let read = all.skip(done.len() as int);
                    assert(all.take(done.len() as int) =~= longer.take(done.len() as int));
                    assert(longer.take(done.len() as int) =~= done);
                    let first = done.len() as int;
                    assert(all[first] == all.take(longer.len() as int)[first]);
                    assert(read[0] == node);
                    assert(read.skip(1) =~= all.skip(longer.len() as int));
                    assert(gaps.skip(1) =~= further);
                    assert forall|i: int| 0 <= i < gaps.len() implies all_in_class(
                        #[trigger] gaps[i],
                        CharClass::Layout,
                    ) by {
                        if i > 0 {
                            assert(gaps[i] == further[i - 1]);
                        }
                    }
                    if have_no_strings(read) {
                        assert(has_no_strings(read[0]));
                        assert forall|i: int| 0 <= i < read.skip(1).len() implies has_no_strings(
                            #[trigger] read.skip(1)[i],
                        ) by {
                            assert(read.skip(1)[i] == read[i + 1]);
                        }
                        file_text_without_first(read, gaps, 0);
                        assert(s.subrange(pos, s.len() as int) =~= gap + s.subrange(start, end)
                            + s.subrange(end, s.len() as int));
                    }
                }
                gaps
            },
            Err(_) => seq![gap],
        }
    }
}

/// The statements without strings that are read from a whole input are
/// written as that input, with the layout that this proof gives.
pub proof fn file_is_written_as_read(s: Seq<char>) -> (gaps: Seq<Seq<char>>)
    ensures
        file(s) matches Ok(nodes) ==> {
            &&& gaps.len() == nodes.len() + 1
            &&& are_layout(gaps)
            &&& have_no_strings(nodes) ==> file_text(nodes, gaps, 0) == s
        },
{
    let gaps = statements_are_written_as_read(s, 0, Seq::empty());
    if let Ok(nodes) = file(s) {
        assert(nodes.skip(0) =~= nodes);
        assert(s.subrange(0, s.len() as int) =~= s);
    }
    gaps
}

/// The text of the statements of a block from the second on is the text of
/// the statements without the first, with the gaps without the first.
proof fn items_text_without_first(statements: Seq<ExprView>, gaps: Seq<Seq<char>>, from: nat)
    requires
        statements.len() >= 1,
        gaps.len() == statements.len() + 2,
        from < statements.len(),
    ensures
        items_text(statements, gaps, from + 1) == items_text(
            statements.skip(1),
            gaps.skip(1),
            from,
        ),
    decreases statements.len() - from,
{
    if from + 1 < statements.len() {
        items_text_without_first(statements, gaps, from + 1);
        assert(statements.skip(1)[from as int] == statements[from as int + 1]);
        assert(gaps.skip(1)[from as int + 1] == gaps[from as int + 2]);
    }
}

/// The items of a block that are read from a place on come behind those that
/// were read before, and if the block has no strings, they are written as
/// the input from that place on, with the layout that this proof gives,
/// which begins with `before`.
proof fn items_are_written_as_read(
    s: Seq<char>,
    opening: int,
    pos: int,
    done: Seq<ExprView>,
    before: Seq<char>,
) -> (gaps: Seq<Seq<char>>)
    requires
        0 <= pos <= s.len(),
        all_in_class(before, CharClass::Layout),
    ensures
        block_from(s, opening, pos, done) matches Ok((e, end)) ==> {
            &&& e matches ExprView::Block { statements, trailing_expr }
            &&& statements.len() >= done.len()
            &&& statements.take(done.len() as int) == done
            &&& gaps.len() == statements.len() - done.len() + 2
            &&& gaps[0] == before
            &&& are_layout(gaps)
            &&& pos < end <= s.len()
            &&& has_no_strings(e) ==> items_text(statements.skip(done.len() as int), gaps, 0)
                + block_end_text(trailing_expr, gaps[gaps.len() - 1]) == s.subrange(pos, end)
        },
    decreases s.len() - pos,
{
    let none = Seq::<char>::empty();
    if pos < s.len() && s[pos] == '}' && done.len() > 0 {
        assert(done.take(done.len() as int) =~= done);
        assert(done.skip(done.len() as int) =~= Seq::<ExprView>::empty());
        assert(s.subrange(pos, pos + 1) =~= seq!['}']);
        let gaps = seq![before, none];
        assert(items_text(Seq::<ExprView>::empty(), gaps, 0) + seq!['}'] =~= seq!['}']);
        gaps
    } else if pos < s.len() && s[pos] != ';' {
        chain_within(s, pos);
        chain_is_written_as_read(s, pos);
        match chain(s, pos) {
            Ok((item, end)) => {
                if end < s.len() && s[end] == ';' {
                    run_end_is_maximal(s, end + 1, CharClass::Layout);
                    let next = run_end(s, end + 1, CharClass::Layout);
                    let gap = s.subrange(end + 1, next);
                    let longer = done.push(item);
                    let further = items_are_written_as_read(s, opening, next, longer, gap);
                    let gaps = seq![before] + further;
                    if let Ok((e, close)) = block_from(s, opening, pos, done) {
                        let statements = e->statements;
                        let trailing_expr = e->trailing_expr;
                        let read = statements.skip(done.len() as int);
                        assert(statements.take(done.len() as int) =~= longer.take(
                            done.len() as int,
                        ));
                        assert(longer.take(done.len() as int) =~= done);
                        assert(statements[done.len() as int] == statements.take(
                            longer.len() as int,
                        )[done.len() as int]);
                        assert(read[0] == item);
                        assert(read.skip(1) =~= statements.skip(longer.len() as int));
                        assert(gaps.skip(1) =~= further);
                        assert(gaps[gaps.len() - 1] == further[further.len() - 1]);
                        assert forall|i: int| 0 <= i < gaps.len() implies all_in_class(
                            #[trigger] gaps[i],
                            CharClass::Layout,
                        ) by {
                            if i > 0 {
                                assert(gaps[i] == further[i - 1]);
                            }
                        }
                        if has_no_strings(e) {
                            assert(has_no_strings(statements[done.len() as int]));
                            items_text_without_first(read, gaps, 0);
                            assert(s.subrange(pos, close) =~= s.subrange(pos, end) + seq![';']
                                + gap + s.subrange(next, close));
                            assert(gaps[1] == gap);
                        }
                    }
                    gaps
                } else {
                    run_end_is_maximal(s, end, CharClass::Layout);
                    let close = run_end(s, end, CharClass::Layout);
                    let gap = s.subrange(end, close);
                    let gaps = seq![before, gap];
                    if close < s.len() && s[close] == '}' {
                        assert(done.take(done.len() as int) =~= done);
                        assert(done.skip(done.len() as int) =~= Seq::<ExprView>::empty());
                        assert(s.subrange(pos, close + 1) =~= s.subrange(pos, end) + gap + seq![
                            '}',
                        ]);
                        assert(items_text(Seq::<ExprView>::empty(), gaps, 0) =~= none);
                        assert(none + (s.subrange(pos, end) + gap + seq!['}']) =~= s.subrange(
                            pos,
                            end,
                        ) + gap + seq!['}']);
                    }
                    gaps
                }
            },
            Err(_) => seq![before, none],
        }
    } else {
        seq![before, none]
    }
}

/// A block without strings is written as it was read, with the layout that
/// this proof gives.
pub proof fn block_is_written_as_read(s: Seq<char>, pos: int) -> (gaps: Seq<Seq<char>>)
    requires
        0 <= pos <= s.len(),
    ensures
        block(s, pos) matches Ok((e, end)) ==> {
            &&& e is Block
            &&& gaps.len() == e->statements.len() + 2
            &&& are_layout(gaps)
            &&& pos < end <= s.len()
            &&& has_no_strings(e) ==> block_text(e, gaps) == s.subrange(pos, end)
        },
{
    if pos < s.len() && s[pos] == '{' {
        run_end_is_maximal(s, pos + 1, CharClass::Layout);
        let start = run_end(s, pos + 1, CharClass::Layout);
        let gap = s.subrange(pos + 1, start);
        let gaps = items_are_written_as_read(s, pos, start, Seq::empty(), gap);
        if let Ok((e, end)) = block(s, pos) {
            assert(e->statements.skip(0) =~= e->statements);
            if has_no_strings(e) {
                assert(s.subrange(pos, end) =~= seq!['{'] + gap + s.subrange(start, end));
            }
        }
        gaps
    } else {
        Seq::empty()
    }
}

/// A block without strings that is read from a whole input is written as
/// that input, with the layout that this proof gives.
pub proof fn whole_block_is_written_as_read(s: Seq<char>) -> (gaps: Seq<Seq<char>>)
    ensures
        whole_block(s) matches Ok(e) ==> {
            &&& e is Block
            &&& gaps.len() == e->statements.len() + 2
            &&& are_layout(gaps)
            &&& has_no_strings(e) ==> block_text(e, gaps) == s
        },
{
    let gaps = block_is_written_as_read(s, 0);
    assert(s.subrange(0, s.len() as int) =~= s);
    gaps
}

} // verus!
