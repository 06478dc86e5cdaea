//! The one form in which the scanner hands on both numerals and names: a
//! quotient of two polynomials.
//!
//! A numeral becomes one term of exponent 1 over a power of ten. A name,
//! already turned left by one place, becomes one term for each of its
//! characters, from the exponent 0 upwards, over one. So no name is taken
//! for a numeral, and no two names for each other.

use crate::chars::{is_digit, is_name_part, is_name_start};
use crate::decimal::{decimal_value, is_decimal, lemma_decimal_bound, lemma_decimal_concat};
use crate::diagnostics::Failure;
use crate::identifier::{is_rotated_identifier, lemma_rotate_left_injective, rotate_left};
use crate::integer::BigInteger;
use crate::polynomial::{monomial_map, PIPoly};
use crate::text::byte_count;
use vstd::arithmetic::div_mod::lemma_fundamental_div_mod_converse;
use vstd::arithmetic::power::{lemma_pow_positive, pow};
use vstd::prelude::*;
use vstd::std_specs::cmp::PartialEqSpecImpl;

verus! {

/// What a [`Number`] stands for: a numerator and a denominator, each a
/// finite mapping from exponent to coefficient.
#[verifier::ext_equal]
pub struct NumberView {
    pub numerator: Map<int, int>,
    pub denominator: Map<int, int>,
}

/// The coefficient that a polynomial gives to an exponent: zero where the
/// mapping does not hold the exponent.
pub open spec fn coefficient_at(poly: Map<int, int>, exponent: int) -> int {
    if poly.contains_key(exponent) {
        poly[exponent]
    } else {
        0
    }
}

/// The place of the first point in `text`, or the length of `text` where it
/// holds none.
pub open spec fn point_index(text: Seq<char>) -> int
    decreases text.len(),
{
    if text.len() == 0 || text[0] == '.' {
        0
    } else {
        1 + point_index(text.drop_first())
    }
}

/// What stands before the first point: the whole text where it holds none.
pub open spec fn whole_part(text: Seq<char>) -> Seq<char> {
    text.take(point_index(text))
}

/// What stands after the first point: nothing where the text holds none.
pub open spec fn fraction_part(text: Seq<char>) -> Seq<char> {
    if point_index(text) < text.len() {
        text.skip(point_index(text) + 1)
    } else {
        Seq::empty()
    }
}

/// The text without its first point.
pub open spec fn literal_digits(text: Seq<char>) -> Seq<char> {
    whole_part(text) + fraction_part(text)
}

/// Whether `text` is a numeral: without its first point it is a row of
/// digits, and of at least one.
pub open spec fn is_literal(text: Seq<char>) -> bool {
    is_decimal(literal_digits(text))
}

/// Whether `text` is made of digits and points, and holds at least one
/// digit and at most one point.
pub open spec fn has_literal_shape(text: Seq<char>) -> bool {
    &&& forall|i: int| 0 <= i < text.len() ==> is_digit(#[trigger] text[i]) || text[i] == '.'
    &&& exists|i: int| 0 <= i < text.len() && is_digit(#[trigger] text[i])
    &&& forall|i: int, j: int|
        0 <= i < text.len() && 0 <= j < text.len() && #[trigger] text[i] == '.'
            && #[trigger] text[j] == '.' ==> i == j
}

/// The number that a numeral is turned into. Its numerator is the term of
/// exponent 1 whose coefficient is the digits read as one integer, and its
/// denominator is the constant ten to the number of digits after the point.
pub open spec fn literal_number(text: Seq<char>) -> NumberView {
    NumberView {
        numerator: monomial_map(1, decimal_value(literal_digits(text)) as int),
        denominator: monomial_map(0, pow(10, fraction_part(text).len())),
    }
}

/// The polynomial that a turned name is written as: the character at place
/// `i`, counted from 0, is the coefficient of the exponent `i`.
pub open spec fn name_terms(text: Seq<char>) -> Map<int, int> {
    Map::new(|e: int| 0 <= e < text.len(), |e: int| text[e] as int)
}

/// The number that a turned name is turned into: its characters over one.
pub open spec fn name_number(text: Seq<char>) -> NumberView {
    NumberView { numerator: name_terms(text), denominator: monomial_map(0, 1) }
}

/// An exact value: a quotient of two polynomials with integer exponents and
/// coefficients. The denominator is never the zero polynomial.
///
/// Two numbers are equal when their numerators are the same polynomial and
/// their denominators are: a quotient is not reduced.
#[derive(Debug)]
pub struct Number {
    numer: PIPoly,
    denom: PIPoly,
}

impl View for Number {
    type V = NumberView;

    closed spec fn view(&self) -> NumberView {
        NumberView { numerator: self.numer@, denominator: self.denom@ }
    }
}

impl Number {
    #[verifier::type_invariant]
    spec fn well_formed(self) -> bool {
        self.denom@ != Map::<int, int>::empty()
    }

    /// Turns a name, already turned left by one place, into its number.
    ///
    /// A text that is no turned name has no number: it is refused with a
    /// message that names it.
    pub fn from_name(name: String) -> (result: Result<Number, String>)
        ensures
            match result {
                Ok(number) => is_rotated_identifier(name@) && number@ == name_number(name@),
                Err(message) => !is_rotated_identifier(name@) && message@ == (
                Failure::IdentifierEncodingFailure { text: name@ }).message(),
            },
    {
        let limit: usize = byte_count(name.as_str());
        let mut numer = PIPoly::zero();
        let mut place: usize = 0;
        let mut ends_well = false;
        for c in it: name.as_str().chars()
            invariant
                it.seq() == name@,
                name@.len() <= limit,
                place == it.index(),
                numer@ == name_terms(name@.take(it.index())),
                forall|i: int| 0 <= i < it.index() ==> is_name_part(#[trigger] name@[i]),
                it.index() > 0 ==> ends_well == is_name_start(name@[it.index() - 1]),
        {
            if !is_name_part(c) {
                return Err(name.concat(" is not a valid identifier"));
            }
            numer = numer.with_term(BigInteger::from_usize(place), BigInteger::from_u32(c as u32));
            ends_well = is_name_start(c);
            place += 1;
            assert(numer@ =~= name_terms(name@.take(it.index() + 1)));
        }
        if place == 0 || !ends_well {
            return Err(name.concat(" is not a valid identifier"));
        }
        let denom = PIPoly::monomial(BigInteger::from_u32(0), BigInteger::from_u32(1));
        assert(denom@.contains_key(0));
        Ok(Number { numer, denom })
    }

    /// Turns a numeral into its number.
    ///
    /// A numeral is made of digits with at most one point among them,
    /// before them or after them. Any other text is refused with a message
    /// that names it.
    pub fn from_string(text: String) -> (result: Result<Number, String>)
        ensures
            match result {
                Ok(number) => is_literal(text@) && number@ == literal_number(text@),
                Err(message) => !is_literal(text@) && message@ == (Failure::InvalidLiteral {
                    text: text@,
                }).message(),
            },
    {
        let mut whole = String::new();
        let mut fraction = String::new();
        let mut seen_point = false;
        let ghost mut point: int = 0;
        for c in it: text.as_str().chars()
            invariant
                it.seq() == text@,
                !seen_point ==> {
                    &&& whole@ == text@.take(it.index())
                    &&& fraction@ == Seq::<char>::empty()
                    &&& forall|i: int| 0 <= i < it.index() ==> text@[i] != '.'
                },
                seen_point ==> {
                    &&& 0 <= point < it.index()
                    &&& text@[point] == '.'
                    &&& forall|i: int| 0 <= i < point ==> text@[i] != '.'
                    &&& whole@ == text@.take(point)
                    &&& fraction@ == text@.subrange(point + 1, it.index())
                },
        {
            if seen_point {
                fraction.push(c);
                assert(text@.subrange(point + 1, it.index() + 1) == text@.subrange(
                    point + 1,
                    it.index(),
                ).push(c));
            } else if c == '.' {
                seen_point = true;
                proof {
                    point = it.index();
                }
            } else {
                whole.push(c);
            }
        }
        proof {
            lemma_point_index(
                text@,
                if seen_point {
                    point
                } else {
                    text@.len() as int
                },
            );
        }
        let places: usize = fraction.as_str().unicode_len();
        let digits = whole.concat(fraction.as_str());
        match BigInteger::from_decimal(digits.as_str()) {
            Some(value) => {
                let numer = PIPoly::monomial(BigInteger::from_u32(1), value);
                let scale = BigInteger::power_of_ten(places);
                let denom = PIPoly::monomial(BigInteger::from_u32(0), scale);
                proof {
                    lemma_pow_positive(10, places as nat);
                    assert(denom@.contains_key(0));
                }
                Ok(Number { numer, denom })
            },
            None => Err(text.concat(" is not a valid number literal")),
        }
    }

    /// The numerator.
    pub fn numerator(&self) -> (poly: &PIPoly)
        ensures
            poly@ == self@.numerator,
    {
        &self.numer
    }

    /// The denominator, which is never the zero polynomial.
    pub fn denominator(&self) -> (poly: &PIPoly)
        ensures
            poly@ == self@.denominator,
            poly@ != Map::<int, int>::empty(),
    {
        proof {
            use_type_invariant(self);
        }
        &self.denom
    }
}

impl PartialEq for Number {
    fn eq(&self, other: &Number) -> (equal: bool) {
        self.numer == other.numer && self.denom == other.denom
    }
}

impl PartialEqSpecImpl for Number {
    open spec fn obeys_eq_spec() -> bool {
        true
    }

    open spec fn eq_spec(&self, other: &Number) -> bool {
        self@ == other@
    }
}

impl Eq for Number {

}

/// The first point is where a point stands with none before it.
pub proof fn lemma_point_index(text: Seq<char>, place: int)
    requires
        0 <= place <= text.len(),
        forall|i: int| 0 <= i < place ==> text[i] != '.',
        place < text.len() ==> text[place] == '.',
    ensures
        point_index(text) == place,
    decreases text.len(),
{
    if place > 0 {
        let rest = text.drop_first();
        assert forall|i: int| 0 <= i < place - 1 implies rest[i] != '.' by {
            assert(rest[i] == text[i + 1]);
        }
        lemma_point_index(rest, place - 1);
    }
}

/// The first point stands inside the text or at its end, with no point
/// before it.
pub proof fn lemma_point_place(text: Seq<char>)
    ensures
        0 <= point_index(text) <= text.len(),
        forall|i: int| 0 <= i < point_index(text) ==> text[i] != '.',
        point_index(text) < text.len() ==> text[point_index(text)] == '.',
    decreases text.len(),
{
    if text.len() > 0 && text[0] != '.' {
        let rest = text.drop_first();
        lemma_point_place(rest);
        assert forall|i: int| 0 <= i < point_index(text) implies text[i] != '.' by {
            if i > 0 {
                assert(rest[i - 1] == text[i]);
            }
        }
    }
}

/// A numeral is a text of digits and points that holds at least one digit
/// and at most one point.
pub proof fn lemma_literal_shape(text: Seq<char>)
    ensures
        is_literal(text) <==> has_literal_shape(text),
{
    lemma_point_place(text);
    let point = point_index(text);
    let digits = literal_digits(text);
    // The digits are the characters of the text but the first point: those
    // before it keep their places, those after it move one place left.
    assert forall|k: int| 0 <= k < digits.len() implies #[trigger] digits[k] == text[if k < point {
        k
    } else {
        k + 1
    }] by {}
    if is_literal(text) {
        assert forall|i: int| 0 <= i < text.len() implies is_digit(#[trigger] text[i]) || text[i]
            == '.' by {
            if i < point {
                assert(digits[i] == text[i]);
            } else if i > point {
                assert(digits[i - 1] == text[i]);
            }
        }
        assert(is_digit(digits[0]));
        assert forall|i: int, j: int|
            0 <= i < text.len() && 0 <= j < text.len() && #[trigger] text[i] == '.'
                && #[trigger] text[j] == '.' implies i == j by {
            if i > point {
                assert(digits[i - 1] == text[i]);
            }
            if j > point {
                assert(digits[j - 1] == text[j]);
            }
        }
    }
    if has_literal_shape(text) {
        let d = choose|i: int| 0 <= i < text.len() && is_digit(#[trigger] text[i]);
        assert(text[d] != '.');
        assert forall|k: int| 0 <= k < digits.len() implies is_digit(#[trigger] digits[k]) by {
            let i = if k < point {
                k
            } else {
                k + 1
            };
            assert(digits[k] == text[i]);
            if text[i] == '.' {
                assert(text[point] == '.');
            }
        }
    }
}

/// The number of a numeral with a point keeps the numeral's value. The
/// denominator is ten to the number of digits after the point. Divided by
/// it, the coefficient of the numerator gives what the digits before the
/// point stand for, and leaves what the digits after it stand for: so from
/// the two polynomials the numeral comes back, but for leading zeros.
pub proof fn lemma_literal_value(whole: Seq<char>, fraction: Seq<char>)
    requires
        forall|i: int| 0 <= i < whole.len() ==> is_digit(#[trigger] whole[i]),
        forall|i: int| 0 <= i < fraction.len() ==> is_digit(#[trigger] fraction[i]),
        whole.len() + fraction.len() > 0,
    ensures
        is_literal(whole + seq!['.'] + fraction),
        ({
            let number = literal_number(whole + seq!['.'] + fraction);
            let scale = pow(10, fraction.len());
            let count = coefficient_at(number.numerator, 1);
            &&& scale > 0
            &&& number.denominator == map![0int => scale]
            &&& number.numerator == monomial_map(1, count)
            &&& count == decimal_value(whole) * scale + decimal_value(fraction)
            &&& count / scale == decimal_value(whole)
            &&& count % scale == decimal_value(fraction)
        }),
{
    let text = whole + seq!['.'] + fraction;
    let digits = whole + fraction;
    lemma_point_index(text, whole.len() as int);
    assert(whole_part(text) == whole);
    assert(fraction_part(text) == fraction);
    assert forall|i: int| 0 <= i < digits.len() implies is_digit(#[trigger] digits[i]) by {
        if i < whole.len() {
            assert(digits[i] == whole[i]);
        } else {
            assert(digits[i] == fraction[i - whole.len()]);
        }
    }
    lemma_decimal_concat(whole, fraction);
    lemma_decimal_bound(fraction);
    lemma_pow_positive(10, fraction.len());
    lemma_fundamental_div_mod_converse(
        decimal_value(digits) as int,
        pow(10, fraction.len()),
        decimal_value(whole) as int,
        decimal_value(fraction) as int,
    );
}

/// The number of a numeral without a point is the numeral's value over one.
pub proof fn lemma_whole_literal_value(digits: Seq<char>)
    requires
        is_decimal(digits),
    ensures
        is_literal(digits),
        literal_number(digits).denominator == map![0int => 1int],
        literal_number(digits).numerator == monomial_map(1, decimal_value(digits) as int),
        coefficient_at(literal_number(digits).numerator, 1) == decimal_value(digits),
{
    reveal(pow);
    lemma_point_index(digits, digits.len() as int);
    assert(whole_part(digits) == digits);
}

/// Two turned names that differ are turned into numbers that differ.
pub proof fn lemma_name_number_injective(a: Seq<char>, b: Seq<char>)
    requires
        a != b,
    ensures
        name_number(a) != name_number(b),
{
    if name_terms(a) == name_terms(b) {
        // The exponents give the length, and the coefficients the
        // characters.
        if a.len() < b.len() {
            assert(name_terms(b).contains_key(a.len() as int));
        } else if b.len() < a.len() {
            assert(name_terms(a).contains_key(b.len() as int));
        }
        assert forall|i: int| 0 <= i < a.len() implies a[i] == b[i] by {
            assert(name_terms(a)[i] == a[i] as int);
            assert(name_terms(b)[i] == b[i] as int);
        }
        assert(a =~= b);
    }
}

/// Two names that differ in a source stand for numbers that differ: turning
/// a name left and then into its number loses nothing.
pub proof fn lemma_source_name_injective(a: Seq<char>, b: Seq<char>)
    requires
        a != b,
    ensures
        name_number(rotate_left(a)) != name_number(rotate_left(b)),
{
    if rotate_left(a) == rotate_left(b) {
        lemma_rotate_left_injective(a, b);
    }
    lemma_name_number_injective(rotate_left(a), rotate_left(b));
}

/// No name is turned into the number of a numeral: a name has a term of
/// exponent 0 in its numerator, and a numeral has none.
pub proof fn lemma_name_is_no_literal(name: Seq<char>, literal: Seq<char>)
    requires
        name.len() > 0,
    ensures
        name_number(name) != literal_number(literal),
{
    assert(name_terms(name).contains_key(0));
    assert(!literal_number(literal).numerator.contains_key(0));
}

} // verus!
