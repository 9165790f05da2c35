//! Quoted strings: where one ends, and what its text stands for.
//!
//! The text between the quotes is normalized in three steps, in this order:
//! escape sequences are replaced; one line feed at the very start is dropped;
//! then every line loses its indentation, up to the width of the indentation
//! of the first line that is not blank.
//!
//! In detail: indentation is spaces and tabs, and its width is their number.
//! A line is blank if it holds nothing but spaces and tabs. A line with less
//! indentation than the first loses what it has. And since escape sequences
//! are replaced first, a line feed or a tab that is written as an escape
//! sequence counts as one that is written as itself.

use vstd::prelude::*;
use crate::lexical::{run_end, run_end_is_maximal, skip_run, CharClass};

verus! {

/// The character that `\` followed by `c` stands for, if the pair is an
/// escape sequence.
pub open spec fn escape_of(c: char) -> Option<char> {
    if c == 't' {
        Some('\t')
    } else if c == 'n' {
        Some('\n')
    } else if c == 'r' {
        Some('\r')
    } else if c == '"' {
        Some('"')
    } else if c == '\\' {
        Some('\\')
    } else {
        None
    }
}

/// Whether an escape sequence is written at `pos` in `s`.
pub open spec fn escape_at(s: Seq<char>, pos: int) -> bool {
    0 <= pos && pos + 1 < s.len() && s[pos] == '\\' && escape_of(s[pos + 1]) is Some
}

/// The characters of `s` from `from` on, with each escape sequence replaced by
/// the character it stands for. Sequences are found from left to right and do
/// not overlap; a `\` that begins none stands for itself.
pub open spec fn unescaped(s: Seq<char>, from: int) -> Seq<char>
    decreases s.len() - from,
{
    if from < 0 || from >= s.len() {
        Seq::empty()
    } else if escape_at(s, from) {
        seq![escape_of(s[from + 1])->0] + unescaped(s, from + 2)
    } else {
        seq![s[from]] + unescaped(s, from + 1)
    }
}

/// Where the line that holds `pos` ends: at the first line feed from `pos`
/// on, or at the end of `s`.
pub open spec fn line_end(s: Seq<char>, pos: int) -> int
    decreases s.len() - pos,
{
    if 0 <= pos < s.len() && s[pos] != '\n' {
        line_end(s, pos + 1)
    } else {
        pos
    }
}

/// A line ends within the text, at a line feed or at the end of the text,
/// and holds no line feed before its end.
pub proof fn line_end_bounds(s: Seq<char>, pos: int)
    requires
        0 <= pos <= s.len(),
    ensures
        pos <= line_end(s, pos) <= s.len(),
        line_end(s, pos) < s.len() ==> s[line_end(s, pos)] == '\n',
        forall|i: int| pos <= i < line_end(s, pos) ==> s[i] != '\n',
    decreases s.len() - pos,
{
    if pos < s.len() && s[pos] != '\n' {
        line_end_bounds(s, pos + 1);
    }
}

/// A line that holds no line feed up to a line feed, or up to the end of the
/// text, ends there.
proof fn line_end_from_facts(s: Seq<char>, pos: int, end: int)
    requires
        0 <= pos <= end <= s.len(),
        forall|i: int| pos <= i < end ==> s[i] != '\n',
        end < s.len() ==> s[end] == '\n',
    ensures
        line_end(s, pos) == end,
    decreases end - pos,
{
    if pos < end {
        line_end_from_facts(s, pos + 1, end);
    }
}

/// The width of the indentation of the first line from `from` on that is not
/// blank, where `from` begins a line; 0 if every line is blank. A line is
/// blank if it holds nothing but spaces and tabs.
pub open spec fn first_indent(s: Seq<char>, from: int) -> int
    decreases s.len() - from,
{
    if from < 0 || from >= s.len() {
        0
    } else {
        let content = run_end(s, from, CharClass::Blank);
        proof {
            run_end_is_maximal(s, from, CharClass::Blank);
        }
        if content >= s.len() {
            0
        } else if s[content] == '\n' {
            first_indent(s, content + 1)
        } else {
            content - from
        }
    }
}

/// The smaller of two integers.
pub open spec fn at_most(a: int, b: int) -> int {
    if a <= b {
        a
    } else {
        b
    }
}

/// Where the line that begins at `from` begins once it has lost its
/// indentation, up to `width` characters of it.
pub open spec fn indent_cut(s: Seq<char>, from: int, width: int) -> int {
    from + at_most(run_end(s, from, CharClass::Blank) - from, width)
}

/// The characters of `s` from `from` on, where `from` begins a line, with
/// the indentation of every line removed, up to `width` characters of it.
pub open spec fn dedented(s: Seq<char>, from: int, width: int) -> Seq<char>
    decreases s.len() - from,
{
    if from < 0 || from >= s.len() || width < 0 {
        Seq::empty()
    } else {
        let cut = indent_cut(s, from, width);
        let end = line_end(s, cut);
        proof {
            run_end_is_maximal(s, from, CharClass::Blank);
            line_end_bounds(s, cut);
        }
        if end >= s.len() {
            s.subrange(cut, s.len() as int)
        } else {
            s.subrange(cut, end + 1) + dedented(s, end + 1, width)
        }
    }
}

/// Where the text of a string begins once a line feed at its very start is
/// dropped.
pub open spec fn text_start(s: Seq<char>) -> int {
    if s.len() > 0 && s[0] == '\n' {
        1
    } else {
        0
    }
}

/// What the characters `raw`, written between quotes, stand for.
pub open spec fn normalized(raw: Seq<char>) -> Seq<char> {
    let text = unescaped(raw, 0);
    let start = text_start(text);
    dedented(text, start, first_indent(text, start))
}

/// Where the string whose text is being read at `pos` is closed: at the first
/// `"` from `pos` on that no `\` before it takes for its own. `None` if the
/// input ends first.
pub open spec fn closing_quote(s: Seq<char>, pos: int) -> Option<int>
    decreases s.len() - pos,
{
    if pos < 0 || pos >= s.len() {
        None
    } else if s[pos] == '"' {
        Some(pos)
    } else if s[pos] == '\\' {
        if pos + 1 < s.len() {
            closing_quote(s, pos + 2)
        } else {
            None
        }
    } else {
        closing_quote(s, pos + 1)
    }
}

/// A closing quote lies in the input, from where the search began on.
pub(crate) proof fn closing_quote_bounds(s: Seq<char>, pos: int)
    requires
        0 <= pos,
    ensures
        closing_quote(s, pos) matches Some(close) ==> pos <= close < s.len() && s[close] == '"',
    decreases s.len() - pos,
{
    if pos < s.len() && s[pos] != '"' {
        if s[pos] == '\\' {
            if pos + 1 < s.len() {
                closing_quote_bounds(s, pos + 2);
            }
        } else {
            closing_quote_bounds(s, pos + 1);
        }
    }
}

/// The character that `\` followed by `c` stands for, if the pair is an
/// escape sequence.
pub(crate) fn escape_from_char(c: char) -> (r: Option<char>)
    ensures
        r == escape_of(c),
{
    if c == 't' {
        Some('\t')
    } else if c == 'n' {
        Some('\n')
    } else if c == 'r' {
        Some('\r')
    } else if c == '"' {
        Some('"')
    } else if c == '\\' {
        Some('\\')
    } else {
        None
    }
}

/// Finds the quote that closes the string whose text begins at `pos`.
pub(crate) fn find_closing_quote(input: &[char], pos: usize) -> (r: Option<usize>)
    requires
        pos <= input.len(),
    ensures
        match r {
            Some(close) => closing_quote(input@, pos as int) == Some(close as int),
            None => closing_quote(input@, pos as int) is None,
        },
{
    let mut i: usize = pos;
    while i < input.len()
        invariant
            pos <= i,
            closing_quote(input@, pos as int) == closing_quote(input@, i as int),
        decreases input.len() - i,
    {
        let c = input[i];
        if c == '"' {
            return Some(i);
        }
        if c == '\\' {
            if i + 1 < input.len() {
                i += 2;
            } else {
                return None;
            }
        } else {
            i += 1;
        }
    }
    None
}

/// Replaces the escape sequences of `raw`.
pub(crate) fn unescape(raw: &[char]) -> (r: Vec<char>)
    ensures
        r@ == unescaped(raw@, 0),
{
    let mut r: Vec<char> = Vec::new();
    let mut i: usize = 0;
    while i < raw.len()
        invariant
            i <= raw.len(),
            r@ + unescaped(raw@, i as int) == unescaped(raw@, 0),
        decreases raw.len() - i,
    {
        let c = raw[i];
        let ghost before = r@;
        let mut replaced: Option<char> = None;
        if c == '\\' && i + 1 < raw.len() {
            replaced = escape_from_char(raw[i + 1]);
        }
        match replaced {
            Some(e) => {
                r.push(e);
                assert(before.push(e) + unescaped(raw@, i + 2) =~= before + unescaped(
                    raw@,
                    i as int,
                ));
                i += 2;
            },
            None => {
                r.push(c);
                assert(before.push(c) + unescaped(raw@, i + 1) =~= before + unescaped(
                    raw@,
                    i as int,
                ));
                i += 1;
            },
        }
    }
    assert(r@ + Seq::<char>::empty() =~= r@);
    r
}

/// Measures the indentation of the first line from `from` on that is not
/// blank.
pub(crate) fn measure_indent(text: &[char], from: usize) -> (width: usize)
    requires
        from <= text.len(),
    ensures
        width == first_indent(text@, from as int),
        width <= text.len(),
{
    let mut line: usize = from;
    while line < text.len()
        invariant
            from <= line <= text.len(),
            first_indent(text@, from as int) == first_indent(text@, line as int),
        decreases text.len() - line,
    {
        let content = skip_run(text, line, CharClass::Blank);
        if content >= text.len() {
            return 0;
        }
        if text[content] == '\n' {
            line = content + 1;
        } else {
            return content - line;
        }
    }
    0
}

/// Removes the indentation of every line of `text` from `from` on, up to
/// `width` characters of it.
pub(crate) fn dedent(text: &[char], from: usize, width: usize) -> (r: String)
    requires
        from <= text.len(),
    ensures
        r@ == dedented(text@, from as int, width as int),
{
    let mut r = String::new();
    let mut line: usize = from;
    while line < text.len()
        invariant
            from <= line <= text.len(),
            r@ + dedented(text@, line as int, width as int) == dedented(
                text@,
                from as int,
                width as int,
            ),
        decreases text.len() - line,
    {
        let ghost before = r@;
        let content = skip_run(text, line, CharClass::Blank);
        let cut = if content - line <= width {
            content
        } else {
            line + width
        };
        assert(cut == indent_cut(text@, line as int, width as int));
        let mut i: usize = cut;
        while i < text.len() && text[i] != '\n'
            invariant
                cut <= i <= text.len(),
                r@ == before + text@.subrange(cut as int, i as int),
                forall|k: int| cut <= k < i ==> text@[k] != '\n',
            decreases text.len() - i,
        {
            r.push(text[i]);
            assert(text@.subrange(cut as int, i as int).push(text@[i as int]) =~= text@.subrange(
                cut as int,
                i + 1,
            ));
            assert((before + text@.subrange(cut as int, i as int)).push(text@[i as int]) =~= before
                + text@.subrange(cut as int, i + 1));
            i += 1;
        }
        proof {
            line_end_from_facts(text@, cut as int, i as int);
        }
        if i < text.len() {
            r.push('\n');
            assert(text@.subrange(cut as int, i as int).push('\n') =~= text@.subrange(
                cut as int,
                i + 1,
            ));
            assert(r@ + dedented(text@, i + 1, width as int) =~= before + dedented(
                text@,
                line as int,
                width as int,
            ));
            line = i + 1;
        } else {
            assert(r@ + dedented(text@, text.len() as int, width as int) =~= before + dedented(
                text@,
                line as int,
                width as int,
            ));
            line = text.len();
        }
    }
    assert(r@ + Seq::<char>::empty() =~= r@);
    r
}

/// Gives what `raw`, written between quotes, stands for.
pub fn normalize(raw: &[char]) -> (r: String)
    ensures
        r@ == normalized(raw@),
{
    let text = unescape(raw);
    let start: usize = if text.len() > 0 && text[0] == '\n' {
        1
    } else {
        0
    };
    let width = measure_indent(text.as_slice(), start);
    dedent(text.as_slice(), start, width)
}

} // verus!
