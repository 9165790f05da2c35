//! Structured parse errors: where parsing stalled, what stood there, and which
//! continuations would have been accepted.

use vstd::prelude::*;

verus! {

/// A kind of continuation that the grammar accepts at some point of the input.
#[derive(Debug, Clone, Copy, PartialEq, Eq)]
pub enum Expected {
    /// A number, `true`, `false` or a quoted string.
    Literal,
    /// A variable name.
    Identifier,
    /// `(`
    OpenParen,
    /// `)`
    CloseParen,
    /// One of `+`, `-`, `*`, `/`.
    Operator,
    /// A single space.
    Space,
    /// ` + x` and its like: a space, an operator, a space and an operand.
    Continuation,
    /// ` as `, which introduces the target of an assignment.
    KeywordAs,
    /// `;`
    Semicolon,
    /// `{`
    OpenBrace,
    /// `}`
    CloseBrace,
    /// `"`
    Quote,
    /// The end of the input.
    EndOfInput,
}

impl Expected {
    /// How the continuation is called in a message.
    pub open spec fn label(self) -> Seq<char> {
        match self {
            Expected::Literal => "a literal"@,
            Expected::Identifier => "a name"@,
            Expected::OpenParen => "`(`"@,
            Expected::CloseParen => "`)`"@,
            Expected::Operator => "an operator"@,
            Expected::Space => "a space"@,
            Expected::Continuation => "a space and an operator"@,
            Expected::KeywordAs => "` as `"@,
            Expected::Semicolon => "`;`"@,
            Expected::OpenBrace => "`{`"@,
            Expected::CloseBrace => "`}`"@,
            Expected::Quote => "`\"`"@,
            Expected::EndOfInput => "the end of the input"@,
        }
    }

    /// The place of the continuation in the order of their declaration.
    pub open spec fn rank(self) -> int {
        match self {
            Expected::Literal => 0,
            Expected::Identifier => 1,
            Expected::OpenParen => 2,
            Expected::CloseParen => 3,
            Expected::Operator => 4,
            Expected::Space => 5,
            Expected::Continuation => 6,
            Expected::KeywordAs => 7,
            Expected::Semicolon => 8,
            Expected::OpenBrace => 9,
            Expected::CloseBrace => 10,
            Expected::Quote => 11,
            Expected::EndOfInput => 12,
        }
    }

    /// How the continuation is called in a message.
    pub fn name(&self) -> (r: &'static str)
        ensures
            r@ == self.label(),
    {
        match self {
            Expected::Literal => "a literal",
            Expected::Identifier => "a name",
            Expected::OpenParen => "`(`",
            Expected::CloseParen => "`)`",
            Expected::Operator => "an operator",
            Expected::Space => "a space",
            Expected::Continuation => "a space and an operator",
            Expected::KeywordAs => "` as `",
            Expected::Semicolon => "`;`",
            Expected::OpenBrace => "`{`",
            Expected::CloseBrace => "`}`",
            Expected::Quote => "`\"`",
            Expected::EndOfInput => "the end of the input",
        }
    }
}

/// Every [`Expected`] continuation, in the order of their declaration.
pub open spec fn every_expected() -> Seq<Expected> {
    seq![
        Expected::Literal,
        Expected::Identifier,
        Expected::OpenParen,
        Expected::CloseParen,
        Expected::Operator,
        Expected::Space,
        Expected::Continuation,
        Expected::KeywordAs,
        Expected::Semicolon,
        Expected::OpenBrace,
        Expected::CloseBrace,
        Expected::Quote,
        Expected::EndOfInput,
    ]
}

/// A set of [`Expected`] continuations, one flag for each.
#[derive(Debug, Clone, Copy, PartialEq, Eq)]
pub struct ExpectedSet {
    pub literal: bool,
    pub identifier: bool,
    pub open_paren: bool,
    pub close_paren: bool,
    pub operator: bool,
    pub space: bool,
    pub continuation: bool,
    pub keyword_as: bool,
    pub semicolon: bool,
    pub open_brace: bool,
    pub close_brace: bool,
    pub quote: bool,
    pub end_of_input: bool,
}

impl ExpectedSet {
    /// Membership.
    pub open spec fn has(self, e: Expected) -> bool {
        match e {
            Expected::Literal => self.literal,
            Expected::Identifier => self.identifier,
            Expected::OpenParen => self.open_paren,
            Expected::CloseParen => self.close_paren,
            Expected::Operator => self.operator,
            Expected::Space => self.space,
            Expected::Continuation => self.continuation,
            Expected::KeywordAs => self.keyword_as,
            Expected::Semicolon => self.semicolon,
            Expected::OpenBrace => self.open_brace,
            Expected::CloseBrace => self.close_brace,
            Expected::Quote => self.quote,
            Expected::EndOfInput => self.end_of_input,
        }
    }

    /// The set without members.
    pub open spec fn nothing() -> ExpectedSet {
        ExpectedSet {
            literal: false,
            identifier: false,
            open_paren: false,
            close_paren: false,
            operator: false,
            space: false,
            continuation: false,
            keyword_as: false,
            semicolon: false,
            open_brace: false,
            close_brace: false,
            quote: false,
            end_of_input: false,
        }
    }

    /// The set with `e` added.
    pub open spec fn plus(self, e: Expected) -> ExpectedSet {
        match e {
            Expected::Literal => ExpectedSet { literal: true, ..self },
            Expected::Identifier => ExpectedSet { identifier: true, ..self },
            Expected::OpenParen => ExpectedSet { open_paren: true, ..self },
            Expected::CloseParen => ExpectedSet { close_paren: true, ..self },
            Expected::Operator => ExpectedSet { operator: true, ..self },
            Expected::Space => ExpectedSet { space: true, ..self },
            Expected::Continuation => ExpectedSet { continuation: true, ..self },
            Expected::KeywordAs => ExpectedSet { keyword_as: true, ..self },
            Expected::Semicolon => ExpectedSet { semicolon: true, ..self },
            Expected::OpenBrace => ExpectedSet { open_brace: true, ..self },
            Expected::CloseBrace => ExpectedSet { close_brace: true, ..self },
            Expected::Quote => ExpectedSet { quote: true, ..self },
            Expected::EndOfInput => ExpectedSet { end_of_input: true, ..self },
        }
    }

    /// The set of what is in `self` or in `other`.
    pub open spec fn joined(self, other: ExpectedSet) -> ExpectedSet {
        ExpectedSet {
            literal: self.literal || other.literal,
            identifier: self.identifier || other.identifier,
            open_paren: self.open_paren || other.open_paren,
            close_paren: self.close_paren || other.close_paren,
            operator: self.operator || other.operator,
            space: self.space || other.space,
            continuation: self.continuation || other.continuation,
            keyword_as: self.keyword_as || other.keyword_as,
            semicolon: self.semicolon || other.semicolon,
            open_brace: self.open_brace || other.open_brace,
            close_brace: self.close_brace || other.close_brace,
            quote: self.quote || other.quote,
            end_of_input: self.end_of_input || other.end_of_input,
        }
    }

    /// What is in `self` or in `other` is in the two joined, and nothing
    /// else.
    pub proof fn joined_has(self, other: ExpectedSet, e: Expected)
        ensures
            self.joined(other).has(e) <==> self.has(e) || other.has(e),
    {
    }

    /// What is added to a set is in it, with what was in it before, and
    /// nothing else.
    pub proof fn plus_has(self, added: Expected, e: Expected)
        ensures
            self.plus(added).has(e) <==> self.has(e) || e == added,
    {
    }

    /// The set that holds `e` alone.
    pub open spec fn only(e: Expected) -> ExpectedSet {
        Self::nothing().plus(e)
    }

    /// What may begin an operand: a literal, a variable name or `(`.
    pub open spec fn operand() -> ExpectedSet {
        Self::nothing().plus(Expected::Literal).plus(Expected::Identifier).plus(Expected::OpenParen)
    }

    /// The set without members.
    pub fn empty() -> (r: ExpectedSet)
        ensures
            r == Self::nothing(),
    {
        ExpectedSet {
            literal: false,
            identifier: false,
            open_paren: false,
            close_paren: false,
            operator: false,
            space: false,
            continuation: false,
            keyword_as: false,
            semicolon: false,
            open_brace: false,
            close_brace: false,
            quote: false,
            end_of_input: false,
        }
    }

    /// The set with `e` added.
    pub fn with(self, e: Expected) -> (r: ExpectedSet)
        ensures
            r == self.plus(e),
    {
        let mut r = self;
        match e {
            Expected::Literal => { r.literal = true; },
            Expected::Identifier => { r.identifier = true; },
            Expected::OpenParen => { r.open_paren = true; },
            Expected::CloseParen => { r.close_paren = true; },
            Expected::Operator => { r.operator = true; },
            Expected::Space => { r.space = true; },
            Expected::Continuation => { r.continuation = true; },
            Expected::KeywordAs => { r.keyword_as = true; },
            Expected::Semicolon => { r.semicolon = true; },
            Expected::OpenBrace => { r.open_brace = true; },
            Expected::CloseBrace => { r.close_brace = true; },
            Expected::Quote => { r.quote = true; },
            Expected::EndOfInput => { r.end_of_input = true; },
        }
        r
    }

    /// The set of what is in `self` or in `other`.
    pub fn union(self, other: ExpectedSet) -> (r: ExpectedSet)
        ensures
            r == self.joined(other),
    {
        ExpectedSet {
            literal: self.literal || other.literal,
            identifier: self.identifier || other.identifier,
            open_paren: self.open_paren || other.open_paren,
            close_paren: self.close_paren || other.close_paren,
            operator: self.operator || other.operator,
            space: self.space || other.space,
            continuation: self.continuation || other.continuation,
            keyword_as: self.keyword_as || other.keyword_as,
            semicolon: self.semicolon || other.semicolon,
            open_brace: self.open_brace || other.open_brace,
            close_brace: self.close_brace || other.close_brace,
            quote: self.quote || other.quote,
            end_of_input: self.end_of_input || other.end_of_input,
        }
    }

    /// The set that holds `e` alone.
    pub fn single(e: Expected) -> (r: ExpectedSet)
        ensures
            r == Self::only(e),
    {
        Self::empty().with(e)
    }

    /// What may begin an operand: a literal, a variable name or `(`.
    pub fn for_operand() -> (r: ExpectedSet)
        ensures
            r == Self::operand(),
    {
        Self::empty().with(Expected::Literal).with(Expected::Identifier).with(Expected::OpenParen)
    }

    /// The members of the set, in the order of their declaration.
    pub open spec fn listed(self) -> Seq<Expected> {
        every_expected().filter(|e: Expected| self.has(e))
    }

    /// The members of the set, in the order of their declaration.
    pub fn members(&self) -> (r: Vec<Expected>)
        ensures
            r@ == self.listed(),
            forall|e: Expected| r@.contains(e) <==> self.has(e),
    {
        let all = [
            Expected::Literal,
            Expected::Identifier,
            Expected::OpenParen,
            Expected::CloseParen,
            Expected::Operator,
            Expected::Space,
            Expected::Continuation,
            Expected::KeywordAs,
            Expected::Semicolon,
            Expected::OpenBrace,
            Expected::CloseBrace,
            Expected::Quote,
            Expected::EndOfInput,
        ];
        assert(all@ =~= every_expected());
        let ghost keep = |e: Expected| self.has(e);
        let mut r: Vec<Expected> = Vec::new();
        let mut i: usize = 0;
        proof {
            assert(all@.take(0) =~= Seq::<Expected>::empty());
            reveal(Seq::filter);
        }
        while i < 13
            invariant
                i <= 13,
                all@ == every_expected(),
                keep == |e: Expected| self.has(e),
                r@ == all@.take(i as int).filter(keep),
            decreases 13 - i,
        {
            let e = all[i];
            proof {
                assert(all@.take(i + 1).drop_last() =~= all@.take(i as int));
                reveal(Seq::filter);
            }
            if self.contains(e) {
                r.push(e);
            }
            i += 1;
        }
        proof {
            assert(all@.take(13) =~= all@);
            assert forall|e: Expected| r@.contains(e) <==> self.has(e) by {
                if r@.contains(e) {
                    let j = choose|j: int| 0 <= j < r@.len() && r@[j] == e;
                    every_expected().lemma_filter_pred(keep, j);
                }
                if self.has(e) {
                    assert(every_expected()[e.rank()] == e);
                    every_expected().lemma_filter_contains(keep, e.rank());
                }
            }
        }
        r
    }

    /// Whether `e` is a member of the set.
    pub fn contains(&self, e: Expected) -> (r: bool)
        ensures
            r == self.has(e),
    {
        match e {
            Expected::Literal => self.literal,
            Expected::Identifier => self.identifier,
            Expected::OpenParen => self.open_paren,
            Expected::CloseParen => self.close_paren,
            Expected::Operator => self.operator,
            Expected::Space => self.space,
            Expected::Continuation => self.continuation,
            Expected::KeywordAs => self.keyword_as,
            Expected::Semicolon => self.semicolon,
            Expected::OpenBrace => self.open_brace,
            Expected::CloseBrace => self.close_brace,
            Expected::Quote => self.quote,
            Expected::EndOfInput => self.end_of_input,
        }
    }
}

/// Why a parse failed.
#[derive(Debug, Clone, Copy, PartialEq, Eq)]
pub enum ErrorKind {
    /// The input at the error's position fits none of the expected continuations.
    Unexpected,
    /// A `(`, `{` or `"` at `opening` has no partner where one was due.
    UnmatchedDelimiter { opening: usize },
    /// A `;` stands where a statement should begin.
    EmptyStatement,
    /// A chain begins with an operator, which has nothing to apply to.
    LeadingOperator,
}

/// [`ErrorKind`] with positions as mathematical integers.
pub enum ErrorKindView {
    Unexpected,
    UnmatchedDelimiter { opening: int },
    EmptyStatement,
    LeadingOperator,
}

impl View for ErrorKind {
    type V = ErrorKindView;

    open spec fn view(&self) -> ErrorKindView {
        match *self {
            ErrorKind::Unexpected => ErrorKindView::Unexpected,
            ErrorKind::UnmatchedDelimiter { opening } => ErrorKindView::UnmatchedDelimiter {
                opening: opening as int,
            },
            ErrorKind::EmptyStatement => ErrorKindView::EmptyStatement,
            ErrorKind::LeadingOperator => ErrorKindView::LeadingOperator,
        }
    }
}

/// A parse error. Positions count characters from the start of the input.
#[derive(Debug, Clone, Copy, PartialEq, Eq)]
pub struct ParseError {
    pub kind: ErrorKind,
    /// Where parsing stalled.
    pub position: usize,
    /// The character at `position`, or `None` at the end of the input.
    pub found: Option<char>,
    /// The continuations that would have been accepted at `position`.
    pub expected: ExpectedSet,
}

/// [`ParseError`] with positions as mathematical integers.
pub struct Diagnostic {
    pub kind: ErrorKindView,
    pub position: int,
    pub found: Option<char>,
    pub expected: ExpectedSet,
}

impl View for ParseError {
    type V = Diagnostic;

    open spec fn view(&self) -> Diagnostic {
        Diagnostic {
            kind: self.kind@,
            position: self.position as int,
            found: self.found,
            expected: self.expected,
        }
    }
}

/// The character of `s` at `pos`, if there is one.
pub open spec fn char_at(s: Seq<char>, pos: int) -> Option<char> {
    if 0 <= pos < s.len() {
        Some(s[pos])
    } else {
        None
    }
}

/// The diagnostic of kind `kind` for input `s` stalled at `pos`.
pub open spec fn diagnostic(
    s: Seq<char>,
    kind: ErrorKindView,
    pos: int,
    expected: ExpectedSet,
) -> Diagnostic {
    Diagnostic { kind, position: pos, found: char_at(s, pos), expected }
}

/// `d`, which also expects `also` if it lies at `pos`: the error of a rule
/// that failed at a place where other things than the rule may stand.
pub open spec fn also_expecting(d: Diagnostic, pos: int, also: ExpectedSet) -> Diagnostic {
    if d.position == pos {
        Diagnostic { expected: d.expected.joined(also), ..d }
    } else {
        d
    }
}

/// Where the offending stretch of input begins: at the unmatched opening
/// delimiter, or else where parsing stalled.
pub open spec fn span_start(d: Diagnostic) -> int {
    match d.kind {
        ErrorKindView::UnmatchedDelimiter { opening } => opening,
        _ => d.position,
    }
}

/// Where the offending stretch of input ends: behind the character that
/// stalled parsing, or at the end of the input.
pub open spec fn span_end(d: Diagnostic) -> int {
    if d.found is Some {
        d.position + 1
    } else {
        d.position
    }
}

/// `n`, or the largest position there is if `n` lies beyond it.
pub open spec fn at_most_max(n: int) -> int {
    if n <= usize::MAX {
        n
    } else {
        usize::MAX as int
    }
}

/// A sentence for each kind of error.
pub open spec fn description(kind: ErrorKindView) -> Seq<char> {
    match kind {
        ErrorKindView::Unexpected => "unexpected input"@,
        ErrorKindView::UnmatchedDelimiter { .. } => "unmatched delimiter"@,
        ErrorKindView::EmptyStatement => "empty statement"@,
        ErrorKindView::LeadingOperator => "a chain cannot begin with an operator"@,
    }
}

impl ParseError {
    /// The error of kind `kind` for `input` stalled at `position`.
    pub fn at(input: &[char], kind: ErrorKind, position: usize, expected: ExpectedSet) -> (r:
        ParseError)
        ensures
            r@ == diagnostic(input@, kind@, position as int, expected),
    {
        let found = if position < input.len() {
            Some(input[position])
        } else {
            None
        };
        ParseError { kind, position, found, expected }
    }

    /// The error, which also expects `also` if it lies at `position`.
    pub fn or_expected(self, position: usize, also: ExpectedSet) -> (r: ParseError)
        ensures
            r@ == also_expecting(self@, position as int, also),
    {
        if self.position == position {
            ParseError { expected: self.expected.union(also), ..self }
        } else {
            self
        }
    }

    /// The offending stretch of input, as a half-open range of positions. Its
    /// end is cut off at the largest position there is.
    pub fn span(&self) -> (r: (usize, usize))
        ensures
            r.0 == span_start(self@),
            r.1 == at_most_max(span_end(self@)),
    {
        let start = match self.kind {
            ErrorKind::UnmatchedDelimiter { opening } => opening,
            _ => self.position,
        };
        let end = if self.found.is_some() && self.position < usize::MAX {
            self.position + 1
        } else {
            self.position
        };
        (start, end)
    }

    /// A human-readable description of the error.
    pub fn message(&self) -> (r: &'static str)
        ensures
            r@ == description(self.kind@),
    {
        match self.kind {
            ErrorKind::Unexpected => "unexpected input",
            ErrorKind::UnmatchedDelimiter { .. } => "unmatched delimiter",
            ErrorKind::EmptyStatement => "empty statement",
            ErrorKind::LeadingOperator => "a chain cannot begin with an operator",
        }
    }
}

} // verus!
