//! The value of a number that is written in decimal digits.

use vstd::prelude::*;
use crate::ast::{Literal, LiteralView};
use crate::diagnostics::Diagnostic;
use crate::grammar::whole_literal;
use crate::lexical::{
    all_in_class, char_in_class, chars_of, in_class, is_digit, run_end_from_facts, CharClass,
};

verus! {

/// The value of the digit `c`.
pub open spec fn digit_value(c: char) -> nat
    recommends
        is_digit(c),
{
    (c as u32 - '0' as u32) as nat
}

/// The number that `digits` writes, most significant digit first.
pub open spec fn decimal_value(digits: Seq<char>) -> nat
    decreases digits.len(),
{
    if digits.len() == 0 {
        0
    } else {
        decimal_value(digits.drop_last()) * 10 + digit_value(digits.last())
    }
}

/// Whether `digits` writes a number: one digit or more, and nothing else.
pub open spec fn is_number(digits: Seq<char>) -> bool {
    digits.len() > 0 && all_in_class(digits, CharClass::Digit)
}

/// The number that `value` stands for, if it is a well-written number.
pub open spec fn number_of(value: LiteralView) -> Option<nat> {
    match value {
        LiteralView::Num(digits) => if is_number(digits) {
            Some(decimal_value(digits))
        } else {
            None
        },
        _ => None,
    }
}

/// Digits that are written behind a number do not make it smaller.
proof fn decimal_value_grows(digits: Seq<char>, n: int)
    requires
        0 <= n <= digits.len(),
    ensures
        decimal_value(digits.take(n)) <= decimal_value(digits),
    decreases digits.len() - n,
{
    if n < digits.len() {
        decimal_value_grows(digits, n + 1);
        assert(digits.take(n + 1).drop_last() =~= digits.take(n));
    } else {
        assert(digits.take(n) =~= digits);
    }
}

/// Digits, and nothing but digits, are read as the number that they write.
pub proof fn digits_are_read_as_their_number(digits: Seq<char>)
    requires
        is_number(digits),
    ensures
        whole_literal(digits) == Ok::<LiteralView, Diagnostic>(LiteralView::Num(digits)),
        number_of(LiteralView::Num(digits)) == Some(decimal_value(digits)),
{
    assert(is_digit(digits[0]));
    assert forall|i: int| 0 <= i < digits.len() implies in_class(
        CharClass::Digit,
        #[trigger] digits[i],
    ) by {}
    run_end_from_facts(digits, 0, digits.len() as int, CharClass::Digit);
    assert(digits.subrange(0, digits.len() as int) =~= digits);
}

/// The value of `digit`, which is a decimal digit.
fn value_of_digit(digit: char) -> (r: u64)
    requires
        is_digit(digit),
    ensures
        r == digit_value(digit),
        r <= 9,
{
    (digit as u32 - '0' as u32) as u64
}

impl Literal {
    /// The value of a number, where it is written in digits alone and fits
    /// in 64 bits.
    pub fn to_u64(&self) -> (r: Option<u64>)
        ensures
            r == match number_of(self@) {
                Some(n) => if n <= u64::MAX {
                    Some(n as u64)
                } else {
                    None
                },
                None => None,
            },
    {
        let digits = match self {
            Literal::Num(digits) => chars_of(digits.as_str()),
            _ => {
                return None;
            },
        };
        if digits.len() == 0 {
            return None;
        }
        let mut value: u64 = 0;
        let mut i: usize = 0;
        while i < digits.len()
            invariant
                i <= digits.len(),
                digits.len() > 0,
                self@ == LiteralView::Num(digits@),
                all_in_class(digits@.take(i as int), CharClass::Digit),
                value == decimal_value(digits@.take(i as int)),
            decreases digits.len() - i,
        {
            let c = digits[i];
            if !char_in_class(CharClass::Digit, c) {
                assert(!is_digit(digits@[i as int]));
                return None;
            }
            let d = value_of_digit(c);
            proof {
                assert(digits@.take(i + 1).drop_last() =~= digits@.take(i as int));
                assert(decimal_value(digits@.take(i + 1)) == value * 10 + d);
                decimal_value_grows(digits@, i + 1);
            }
            if value > (u64::MAX - d) / 10 {
                return None;
            }
            value = value * 10 + d;
            i += 1;
        }
        proof {
            assert(digits@.take(i as int) =~= digits@);
        }
        Some(value)
    }
}

} // verus!
