//! Characters, runs of characters and words: the parts below the grammar.

use vstd::prelude::*;
use crate::ast::InfixOp;

verus! {

/// The classes of characters of which the grammar takes maximal runs.
#[derive(Debug, Clone, Copy, PartialEq, Eq)]
pub enum CharClass {
    /// `0` to `9`.
    Digit,
    /// A letter of the English alphabet, a digit or `_`.
    Word,
    /// A space, a tab, a line feed or a carriage return.
    Layout,
    /// A space or a tab.
    Blank,
}

/// Whether `c` is a decimal digit.
pub open spec fn is_digit(c: char) -> bool {
    '0' <= c <= '9'
}

/// Whether `c` may begin a name.
pub open spec fn is_word_start(c: char) -> bool {
    ('a' <= c <= 'z') || ('A' <= c <= 'Z') || c == '_'
}

/// Whether `c` may stand in a name.
pub open spec fn is_word(c: char) -> bool {
    is_word_start(c) || is_digit(c)
}

/// Whether `c` may stand between statements.
pub open spec fn is_layout(c: char) -> bool {
    c == ' ' || c == '\t' || c == '\n' || c == '\r'
}

/// Whether `c` indents a line.
pub open spec fn is_blank(c: char) -> bool {
    c == ' ' || c == '\t'
}

/// Whether `c` belongs to `class`.
pub open spec fn in_class(class: CharClass, c: char) -> bool {
    match class {
        CharClass::Digit => is_digit(c),
        CharClass::Word => is_word(c),
        CharClass::Layout => is_layout(c),
        CharClass::Blank => is_blank(c),
    }
}

/// The operator that `c` writes, if it writes one.
pub open spec fn operator_of(c: char) -> Option<InfixOp> {
    if c == '+' {
        Some(InfixOp::Add)
    } else if c == '-' {
        Some(InfixOp::Sub)
    } else if c == '*' {
        Some(InfixOp::Mul)
    } else if c == '/' {
        Some(InfixOp::Div)
    } else {
        None
    }
}

/// The character that writes `op`.
pub open spec fn operator_char(op: InfixOp) -> char {
    match op {
        InfixOp::Add => '+',
        InfixOp::Sub => '-',
        InfixOp::Mul => '*',
        InfixOp::Div => '/',
    }
}

/// Where the maximal run of `class` that starts at `pos` ends: the first
/// position from `pos` on that holds no character of `class`.
pub open spec fn run_end(s: Seq<char>, pos: int, class: CharClass) -> int
    decreases s.len() - pos,
{
    if 0 <= pos < s.len() && in_class(class, s[pos]) {
        run_end(s, pos + 1, class)
    } else {
        pos
    }
}

/// Whether every character of `s` belongs to `class`.
pub open spec fn all_in_class(s: Seq<char>, class: CharClass) -> bool {
    forall|i: int| 0 <= i < s.len() ==> in_class(class, #[trigger] s[i])
}

/// Whether `w` is written at `pos` in `s`.
pub open spec fn written_at(s: Seq<char>, pos: int, w: Seq<char>) -> bool {
    0 <= pos && pos + w.len() <= s.len() && s.subrange(pos, pos + w.len()) == w
}

/// The word `true`.
pub open spec fn word_true() -> Seq<char> {
    seq!['t', 'r', 'u', 'e']
}

/// The word `false`.
pub open spec fn word_false() -> Seq<char> {
    seq!['f', 'a', 'l', 's', 'e']
}

/// ` as `, with the spaces that must surround it.
pub open spec fn word_as() -> Seq<char> {
    seq![' ', 'a', 's', ' ']
}

/// Whether `w` can name a variable: a letter or `_`, then letters, digits and
/// `_`, and neither `true` nor `false`.
pub open spec fn is_name(w: Seq<char>) -> bool {
    &&& w.len() > 0
    &&& is_word_start(w[0])
    &&& all_in_class(w, CharClass::Word)
    &&& w != word_true()
    &&& w != word_false()
}

/// A run ends between where it starts and the end of the input, holds only
/// characters of its class, and is followed by none.
pub proof fn run_end_is_maximal(s: Seq<char>, pos: int, class: CharClass)
    requires
        0 <= pos <= s.len(),
    ensures
        pos <= run_end(s, pos, class) <= s.len(),
        all_in_class(s.subrange(pos, run_end(s, pos, class)), class),
        run_end(s, pos, class) < s.len() ==> !in_class(class, s[run_end(s, pos, class)]),
    decreases s.len() - pos,
{
    if pos < s.len() && in_class(class, s[pos]) {
        run_end_is_maximal(s, pos + 1, class);
        let e = run_end(s, pos, class);
        assert forall|i: int| 0 <= i < e - pos implies in_class(
            class,
            #[trigger] s.subrange(pos, e)[i],
        ) by {
            if i > 0 {
                assert(s.subrange(pos, e)[i] == s.subrange(pos + 1, e)[i - 1]);
            }
        }
    }
}

/// A run that is cut short by the end of a prefix of the input, or by a
/// character outside the class, ends there.
pub(crate) proof fn run_end_from_facts(s: Seq<char>, pos: int, end: int, class: CharClass)
    requires
        0 <= pos <= end <= s.len(),
        forall|i: int| pos <= i < end ==> in_class(class, #[trigger] s[i]),
        end < s.len() ==> !in_class(class, s[end]),
    ensures
        run_end(s, pos, class) == end,
    decreases end - pos,
{
    if pos < end {
        run_end_from_facts(s, pos + 1, end, class);
    }
}

/// Whether `c` belongs to `class`.
pub(crate) fn char_in_class(class: CharClass, c: char) -> (r: bool)
    ensures
        r == in_class(class, c),
{
    match class {
        CharClass::Digit => '0' <= c && c <= '9',
        CharClass::Word => ('a' <= c && c <= 'z') || ('A' <= c && c <= 'Z') || c == '_' || ('0' <= c
            && c <= '9'),
        CharClass::Layout => c == ' ' || c == '\t' || c == '\n' || c == '\r',
        CharClass::Blank => c == ' ' || c == '\t',
    }
}

/// Whether `c` may begin a name.
pub(crate) fn char_starts_word(c: char) -> (r: bool)
    ensures
        r == is_word_start(c),
{
    ('a' <= c && c <= 'z') || ('A' <= c && c <= 'Z') || c == '_'
}

/// The operator that `c` writes, if it writes one.
pub(crate) fn operator_from_char(c: char) -> (r: Option<InfixOp>)
    ensures
        r == operator_of(c),
{
    if c == '+' {
        Some(InfixOp::Add)
    } else if c == '-' {
        Some(InfixOp::Sub)
    } else if c == '*' {
        Some(InfixOp::Mul)
    } else if c == '/' {
        Some(InfixOp::Div)
    } else {
        None
    }
}

/// Skips the maximal run of `class` that starts at `pos`.
pub(crate) fn skip_run(input: &[char], pos: usize, class: CharClass) -> (end: usize)
    requires
        pos <= input.len(),
    ensures
        end == run_end(input@, pos as int, class),
        pos <= end <= input.len(),
        pos < input.len() && in_class(class, input@[pos as int]) ==> pos < end,
{
    let mut end: usize = pos;
    while end < input.len() && char_in_class(class, input[end])
        invariant
            pos <= end <= input.len(),
            forall|i: int| pos <= i < end ==> in_class(class, #[trigger] input@[i]),
        decreases input.len() - end,
    {
        end += 1;
    }
    proof {
        run_end_from_facts(input@, pos as int, end as int, class);
    }
    end
}

/// Whether the characters of `input` from `from` up to `to` spell `true`.
pub(crate) fn spells_true(input: &[char], from: usize, to: usize) -> (r: bool)
    requires
        from <= to <= input.len(),
    ensures
        r == (input@.subrange(from as int, to as int) == word_true()),
{
    let ghost word = input@.subrange(from as int, to as int);
    if to - from != 4 {
        assert(word.len() != word_true().len());
        return false;
    }
    let r = input[from] == 't' && input[from + 1] == 'r' && input[from + 2] == 'u' && input[from
        + 3] == 'e';
    proof {
        if r {
            assert(word =~= word_true());
        } else {
            assert(word[0] != 't' || word[1] != 'r' || word[2] != 'u' || word[3] != 'e');
        }
    }
    r
}

/// Whether the characters of `input` from `from` up to `to` spell `false`.
pub(crate) fn spells_false(input: &[char], from: usize, to: usize) -> (r: bool)
    requires
        from <= to <= input.len(),
    ensures
        r == (input@.subrange(from as int, to as int) == word_false()),
{
    let ghost word = input@.subrange(from as int, to as int);
    if to - from != 5 {
        assert(word.len() != word_false().len());
        return false;
    }
    let r = input[from] == 'f' && input[from + 1] == 'a' && input[from + 2] == 'l' && input[from
        + 3] == 's' && input[from + 4] == 'e';
    proof {
        if r {
            assert(word =~= word_false());
        } else {
            assert(word[0] != 'f' || word[1] != 'a' || word[2] != 'l' || word[3] != 's' || word[4]
                != 'e');
        }
    }
    r
}

/// Whether ` as `, between two spaces, is written at `pos` in `input`.
pub(crate) fn as_written_at(input: &[char], pos: usize) -> (r: bool)
    ensures
        r == written_at(input@, pos as int, word_as()),
{
    if pos > input.len() || input.len() - pos < 4 {
        return false;
    }
    let ghost word = input@.subrange(pos as int, pos + 4);
    let r = input[pos] == ' ' && input[pos + 1] == 'a' && input[pos + 2] == 's' && input[pos + 3]
        == ' ';
    proof {
        if r {
            assert(word =~= word_as());
        } else {
            assert(word[0] != ' ' || word[1] != 'a' || word[2] != 's' || word[3] != ' ');
        }
    }
    r
}

/// The characters of `input` from `from` up to `to`, as a string.
pub(crate) fn text_between(input: &[char], from: usize, to: usize) -> (r: String)
    requires
        from <= to <= input.len(),
    ensures
        r@ == input@.subrange(from as int, to as int),
{
    let mut r = String::new();
    let mut i: usize = from;
    while i < to
        invariant
            from <= i <= to <= input.len(),
            r@ == input@.subrange(from as int, i as int),
        decreases to - i,
    {
        r.push(input[i]);
        assert(input@.subrange(from as int, i as int).push(input@[i as int])
            =~= input@.subrange(from as int, i + 1));
        i += 1;
    }
    r
}

/// The characters of `text`, in order.
pub(crate) fn chars_of(text: &str) -> (r: Vec<char>)
    ensures
        r@ == text@,
{
    let mut r: Vec<char> = Vec::new();
    for c in it: text.chars()
        invariant
            r@ == it.seq().take(it.index() as int),
            it.seq() == text@,
    {
        r.push(c);
    }
    r
}

/// [`String::push`] of the standard library, which is taken on trust: the
/// string holds afterwards what it held before, with `c` behind it.
pub assume_specification[ String::push ](s: &mut String, c: char)
    ensures
        final(s)@ == old(s)@.push(c),
;

} // verus!
