//! Integers of any size, held as a sign and base 2^32 digits.
//!
//! The digits are plain values that the rest of the library can read. The
//! heavy arithmetic (reading a decimal numeral, raising ten to a power) is
//! done by `num_bigint`, behind two small functions whose contracts are
//! taken on trust.

use crate::chars::is_digit;
use crate::decimal::{decimal_value, is_decimal};
use num_bigint::BigInt;
use num_traits::Pow;
use vstd::arithmetic::power::pow;
use vstd::prelude::*;
use vstd::std_specs::cmp::PartialEqSpecImpl;

verus! {

/// The number that base 2^32 digits stand for, least significant digit
/// first.
pub open spec fn digits_value(digits: Seq<u32>) -> nat
    decreases digits.len(),
{
    if digits.len() == 0 {
        0
    } else {
        (digits[0] + 0x1_0000_0000 * digits_value(digits.drop_first())) as nat
    }
}

/// Digits are canonical when the most significant one is not zero. Zero is
/// the empty sequence.
pub open spec fn is_canonical(digits: Seq<u32>) -> bool {
    digits.len() > 0 ==> digits.last() != 0
}

/// A most significant digit of zero adds nothing.
pub proof fn lemma_value_push_zero(digits: Seq<u32>)
    ensures
        digits_value(digits.push(0)) == digits_value(digits),
    decreases digits.len(),
{
    if digits.len() == 0 {
        assert(digits_value(digits.push(0).drop_first()) == 0);
    } else {
        lemma_value_push_zero(digits.drop_first());
        assert(digits.push(0).drop_first() =~= digits.drop_first().push(0));
    }
}

/// Canonical digits that are not empty stand for a positive number.
pub proof fn lemma_canonical_positive(digits: Seq<u32>)
    requires
        is_canonical(digits),
        digits.len() > 0,
    ensures
        digits_value(digits) > 0,
    decreases digits.len(),
{
    if digits.len() > 1 {
        lemma_canonical_positive(digits.drop_first());
    }
}

/// A number has only one canonical sequence of digits.
pub proof fn lemma_canonical_unique(a: Seq<u32>, b: Seq<u32>)
    requires
        is_canonical(a),
        is_canonical(b),
        digits_value(a) == digits_value(b),
    ensures
        a == b,
    decreases a.len(),
{
    if a.len() == 0 {
        if b.len() > 0 {
            lemma_canonical_positive(b);
        }
    } else if b.len() == 0 {
        lemma_canonical_positive(a);
    } else {
        // Both numbers leave the same remainder on division by 2^32, which
        // is the least significant digit, and give the same quotient.
        lemma_canonical_unique(a.drop_first(), b.drop_first());
        assert(a =~= seq![a[0]] + a.drop_first());
        assert(b =~= seq![b[0]] + b.drop_first());
    }
}

/// Reads a decimal numeral with `str::parse`, which for a
/// `num_bigint::BigInt` is its `FromStr::from_str`, and hands back the
/// magnitude that `BigInt::to_u32_digits` gives for the result.
///
/// Taken on trust: on a text made of ASCII digits only, and of at least one,
/// the parse succeeds, and the digits that come back, read in base 2^32 with
/// the least significant first, stand for the number that the numeral
/// denotes.
#[verifier::external_body]
fn decimal_to_digits(text: &str) -> (digits: Option<Vec<u32>>)
    requires
        is_decimal(text@),
    ensures
        digits is Some,
        digits_value(digits.unwrap()@) == decimal_value(text@),
{
    match text.parse::<BigInt>() {
        Ok(value) => Some(value.to_u32_digits().1),
        Err(_) => None,
    }
}

/// Raises ten to a power with `num_traits::Pow::pow`, as `num_bigint` has it
/// for a `BigInt` and an exponent of type `usize`, and hands back the
/// magnitude that `BigInt::to_u32_digits` gives for the result.
///
/// Taken on trust: the digits that come back, read in base 2^32 with the
/// least significant first, stand for ten multiplied by itself `exponent`
/// times (one, for an exponent of zero).
#[verifier::external_body]
fn ten_to_the(exponent: usize) -> (digits: Vec<u32>)
    ensures
        digits_value(digits@) == pow(10, exponent as nat),
{
    Pow::pow(BigInt::from(10u32), exponent).to_u32_digits().1
}

/// An integer of any size.
///
/// It is kept in canonical form: the most significant digit is not zero,
/// and zero is not negative. So two values are the same integer exactly when
/// their signs and digits are the same.
#[derive(Debug)]
pub struct BigInteger {
    negative: bool,
    magnitude: Vec<u32>,
}

impl View for BigInteger {
    type V = int;

    closed spec fn view(&self) -> int {
        if self.negative {
            -(digits_value(self.magnitude@) as int)
        } else {
            digits_value(self.magnitude@) as int
        }
    }
}

impl BigInteger {
    #[verifier::type_invariant]
    spec fn canonical(self) -> bool {
        &&& is_canonical(self.magnitude@)
        &&& self.magnitude@.len() == 0 ==> !self.negative
    }

    /// The integer with the given sign and base 2^32 digits, least
    /// significant digit first. Zero digits at the most significant end are
    /// dropped, and so is the sign of zero.
    pub fn new(negative: bool, digits: Vec<u32>) -> (value: BigInteger)
        ensures
            value@ == if negative {
                -(digits_value(digits@) as int)
            } else {
                digits_value(digits@) as int
            },
    {
        let mut magnitude = digits;
        while magnitude.len() > 0 && magnitude[magnitude.len() - 1] == 0
            invariant
                digits_value(magnitude@) == digits_value(digits@),
            decreases magnitude.len(),
        {
            proof {
                lemma_value_push_zero(magnitude@.drop_last());
                assert(magnitude@.drop_last().push(0) =~= magnitude@);
            }
            magnitude.pop();
        }
        let negative = negative && magnitude.len() > 0;
        BigInteger { negative, magnitude }
    }

    /// The integer `value`.
    pub fn from_u32(value: u32) -> (result: BigInteger)
        ensures
            result@ == value,
    {
        let mut magnitude: Vec<u32> = Vec::new();
        if value != 0 {
            magnitude.push(value);
            assert(digits_value(magnitude@.drop_first()) == 0);
        }
        BigInteger { negative: false, magnitude }
    }

    /// The integer `value`.
    pub fn from_u64(value: u64) -> (result: BigInteger)
        ensures
            result@ == value,
    {
        let low: u32 = (value & 0xffff_ffff) as u32;
        let high: u32 = (value >> 32) as u32;
        assert(value == (value & 0xffff_ffff) + (value >> 32) * 0x1_0000_0000) by (bit_vector);
        assert((value & 0xffff_ffff) <= 0xffff_ffff) by (bit_vector);
        let mut magnitude: Vec<u32> = Vec::new();
        magnitude.push(low);
        magnitude.push(high);
        proof {
            let rest = magnitude@.drop_first();
            assert(digits_value(rest.drop_first()) == 0);
            assert(digits_value(rest) == high);
            assert(digits_value(magnitude@) == low + 0x1_0000_0000 * high);
        }
        BigInteger::new(false, magnitude)
    }

    /// The integer `value`.
    pub fn from_usize(value: usize) -> (result: BigInteger)
        ensures
            result@ == value,
    {
        BigInteger::from_u64(value as u64)
    }

    /// Reads a decimal numeral: one ASCII digit or more, and nothing else.
    /// Any other text is no numeral, and gives `None`.
    pub fn from_decimal(text: &str) -> (result: Option<BigInteger>)
        ensures
            result is Some <==> is_decimal(text@),
            result matches Some(value) ==> value@ == decimal_value(text@),
    {
        let mut seen = false;
        for c in it: text.chars()
            invariant
                it.seq() == text@,
                seen == (it.index() > 0),
                forall|i: int| 0 <= i < it.index() ==> is_digit(#[trigger] text@[i]),
        {
            if !is_digit(c) {
                return None;
            }
            seen = true;
        }
        if !seen {
            return None;
        }
        match decimal_to_digits(text) {
            Some(digits) => Some(BigInteger::new(false, digits)),
            None => None,
        }
    }

    /// Ten multiplied by itself `exponent` times.
    pub fn power_of_ten(exponent: usize) -> (result: BigInteger)
        ensures
            result@ == pow(10, exponent as nat),
    {
        BigInteger::new(false, ten_to_the(exponent))
    }

    /// Whether the integer is zero.
    pub fn is_zero(&self) -> (zero: bool)
        ensures
            zero == (self@ == 0),
    {
        proof {
            use_type_invariant(self);
            if self.magnitude@.len() > 0 {
                lemma_canonical_positive(self.magnitude@);
            }
        }
        self.magnitude.len() == 0
    }

    /// Whether the integer is below zero.
    pub fn is_negative(&self) -> (negative: bool)
        ensures
            negative == (self@ < 0),
    {
        proof {
            use_type_invariant(self);
            if self.magnitude@.len() > 0 {
                lemma_canonical_positive(self.magnitude@);
            }
        }
        self.negative
    }

    /// The base 2^32 digits of the absolute value, least significant digit
    /// first. Zero has no digits.
    pub fn magnitude(&self) -> (digits: &Vec<u32>)
        ensures
            is_canonical(digits@),
            digits_value(digits@) == if self@ < 0 {
                -self@
            } else {
                self@
            },
    {
        proof {
            use_type_invariant(self);
        }
        &self.magnitude
    }
}

impl PartialEq for BigInteger {
    fn eq(&self, other: &BigInteger) -> (equal: bool) {
        let equal = self.negative == other.negative && self.magnitude == other.magnitude;
        proof {
            use_type_invariant(self);
            use_type_invariant(other);
            if equal {
                assert(self.magnitude@ =~= other.magnitude@);
            }
            if self@ == other@ {
                if self.magnitude@.len() > 0 {
                    lemma_canonical_positive(self.magnitude@);
                }
                if other.magnitude@.len() > 0 {
                    lemma_canonical_positive(other.magnitude@);
                }
                lemma_canonical_unique(self.magnitude@, other.magnitude@);
            }
        }
        equal
    }
}

impl PartialEqSpecImpl for BigInteger {
    open spec fn obeys_eq_spec() -> bool {
        true
    }

    open spec fn eq_spec(&self, other: &BigInteger) -> bool {
        self@ == other@
    }
}

impl Eq for BigInteger {

}

} // verus!
