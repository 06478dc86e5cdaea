//! Decimal numerals: what a row of digits stands for, and how a number is
//! written in digits.

use crate::chars::is_digit;
use vstd::arithmetic::power::pow;
use vstd::prelude::*;

verus! {

/// What a digit counts for: 0 for `'0'` up to 9 for `'9'`. Any other
/// character counts for nothing.
pub open spec fn digit_value(c: char) -> nat {
    if is_digit(c) {
        (c as int - '0' as int) as nat
    } else {
        0
    }
}

/// The character of a digit: `'0'` for 0 up to `'9'` for 9.
pub open spec fn digit_char(digit: nat) -> char {
    ('0' as int + digit) as char
}

/// Whether `text` is a decimal numeral: one digit or more, and nothing else.
pub open spec fn is_decimal(text: Seq<char>) -> bool {
    &&& text.len() > 0
    &&& forall|i: int| 0 <= i < text.len() ==> is_digit(#[trigger] text[i])
}

/// The number that a decimal numeral stands for. Leading zeros do not count.
pub open spec fn decimal_value(text: Seq<char>) -> nat
    decreases text.len(),
{
    if text.len() == 0 {
        0
    } else {
        decimal_value(text.drop_last()) * 10 + digit_value(text.last())
    }
}

/// A number written in decimal digits, without leading zeros.
pub open spec fn decimal_text(n: nat) -> Seq<char>
    decreases n,
{
    if n < 10 {
        seq![digit_char(n)]
    } else {
        decimal_text(n / 10).push(digit_char(n % 10))
    }
}

/// Writes `n` in decimal digits at the end of `out`.
pub fn push_decimal(n: usize, out: &mut String)
    ensures
        final(out)@ == old(out)@ + decimal_text(n as nat),
    decreases n,
{
    if n >= 10 {
        push_decimal(n / 10, out);
    }
    let digit: u8 = (n % 10) as u8;
    out.push((48u8 + digit) as char);
}

/// What is written is a numeral, and read back it is the number that was
/// written.
pub proof fn lemma_decimal_text_reads_back(n: nat)
    ensures
        is_decimal(decimal_text(n)),
        decimal_value(decimal_text(n)) == n,
    decreases n,
{
    if n < 10 {
        assert(decimal_value(decimal_text(n).drop_last()) == 0);
    } else {
        lemma_decimal_text_reads_back(n / 10);
        assert(decimal_text(n).drop_last() =~= decimal_text(n / 10));
    }
}

/// Digits set side by side: the value of the first row is moved left by as
/// many places as the second row has, and the value of the second is added.
pub proof fn lemma_decimal_concat(high: Seq<char>, low: Seq<char>)
    ensures
        decimal_value(high + low) == decimal_value(high) * pow(10, low.len()) + decimal_value(low),
    decreases low.len(),
{
    reveal(pow);
    if low.len() > 0 {
        lemma_decimal_concat(high, low.drop_last());
        assert((high + low).drop_last() =~= high + low.drop_last());
        let scale = pow(10, (low.len() - 1) as nat);
        assert(decimal_value(high) * (10 * scale) == decimal_value(high) * scale * 10)
            by (nonlinear_arith);
    }
}

/// A row of digits stands for a number below ten to the length of the row.
pub proof fn lemma_decimal_bound(digits: Seq<char>)
    ensures
        decimal_value(digits) < pow(10, digits.len()),
    decreases digits.len(),
{
    reveal(pow);
    if digits.len() > 0 {
        lemma_decimal_bound(digits.drop_last());
    }
}

} // verus!
