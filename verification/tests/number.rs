use bracket_lexer::identifier::rotate;
use bracket_lexer::integer::BigInteger;
use bracket_lexer::number::Number;
use bracket_lexer::polynomial::PIPoly;

fn big(value: u64) -> BigInteger {
    BigInteger::from_u64(value)
}

fn small(value: &BigInteger) -> u64 {
    value
        .magnitude()
        .iter()
        .rev()
        .fold(0, |high, digit| (high << 32) | u64::from(*digit))
}

fn literal(text: &str) -> Number {
    Number::from_string(text.to_owned()).unwrap()
}

fn parts(number: &Number) -> (Option<&BigInteger>, Option<&BigInteger>) {
    (
        number.numerator().coefficient(&big(1)),
        number.denominator().coefficient(&big(0)),
    )
}

#[test]
fn literal_without_point_is_over_one() {
    let number = literal("42");
    assert_eq!(parts(&number), (Some(&big(42)), Some(&big(1))));
    assert_eq!(number.numerator().term_count(), 1);
    assert_eq!(number.denominator().term_count(), 1);
    assert_eq!(number.numerator().coefficient(&big(0)), None);
    assert_eq!(number.denominator().coefficient(&big(1)), None);
}

#[test]
fn literal_with_point_is_over_a_power_of_ten() {
    assert_eq!(parts(&literal("3.14")), (Some(&big(314)), Some(&big(100))));
    assert_eq!(parts(&literal("12.5")), (Some(&big(125)), Some(&big(10))));
    assert_eq!(parts(&literal("2.50")), (Some(&big(250)), Some(&big(100))));
}

#[test]
fn point_may_stand_first_or_last() {
    assert_eq!(parts(&literal(".5")), (Some(&big(5)), Some(&big(10))));
    assert_eq!(parts(&literal("5.")), (Some(&big(5)), Some(&big(1))));
    assert_eq!(literal("5."), literal("5"));
    assert_ne!(literal(".5"), literal("5"));
}

#[test]
fn zero_has_no_term_in_its_numerator() {
    let zero = literal("0");
    assert_eq!(zero.numerator().term_count(), 0);
    assert_eq!(parts(&zero), (None, Some(&big(1))));
    let zero = literal("0.00");
    assert_eq!(zero.numerator().term_count(), 0);
    assert_eq!(parts(&zero), (None, Some(&big(100))));
    assert_eq!(*zero.numerator(), PIPoly::zero());
}

#[test]
fn leading_zeros_do_not_count() {
    assert_eq!(literal("007"), literal("7"));
    assert_eq!(literal("00.5"), literal(".5"));
    assert_ne!(literal("0.50"), literal("0.5"));
}

#[test]
fn literal_value_comes_back_from_the_two_polynomials() {
    for text in ["0", "7", "3.14", "0.001", "1000", "12345.678900", ".25", "9."] {
        let number = literal(text);
        let (count, scale) = parts(&number);
        let count = count.map_or(0, small);
        let scale = small(scale.unwrap());
        let (whole, fraction) = text.split_once('.').unwrap_or((text, ""));
        assert_eq!(scale, 10u64.pow(fraction.len() as u32), "{text}");
        assert_eq!(count / scale, whole.parse::<u64>().unwrap_or(0), "{text}");
        assert_eq!(count % scale, fraction.parse::<u64>().unwrap_or(0), "{text}");
        let written = if fraction.is_empty() {
            format!("{}", count / scale)
        } else {
            format!("{}.{:0width$}", count / scale, count % scale, width = fraction.len())
        };
        assert_eq!(literal(&written), number, "{text}");
    }
}

#[test]
fn long_literal_is_exact() {
    let number = literal("123456789012345678901234567890.000000000000000000001");
    let (count, scale) = parts(&number);
    assert_eq!(
        count.unwrap(),
        &BigInteger::from_decimal("123456789012345678901234567890000000000000000000001").unwrap()
    );
    assert_eq!(scale.unwrap(), &BigInteger::power_of_ten(21));
    assert_eq!(
        scale.unwrap(),
        &BigInteger::from_decimal("1000000000000000000000").unwrap()
    );
}

#[test]
fn text_that_is_no_numeral_is_refused() {
    for text in [
        "", ".", "1.2.3", "..", "1..", "+5", "-5", "1_0", "_1", "1e3", "x", " 1", "1 ", "٣", "1.5x",
    ] {
        assert_eq!(
            Number::from_string(text.to_owned()),
            Err(format!("{text} is not a valid number literal")),
            "{text:?}"
        );
    }
}

#[test]
fn name_has_one_term_for_each_character() {
    let number = Number::from_name("enl".to_owned()).unwrap();
    let numerator = number.numerator();
    assert_eq!(numerator.term_count(), 3);
    assert_eq!(numerator.coefficient(&big(0)), Some(&big('e' as u64)));
    assert_eq!(numerator.coefficient(&big(1)), Some(&big('n' as u64)));
    assert_eq!(numerator.coefficient(&big(2)), Some(&big('l' as u64)));
    assert_eq!(numerator.coefficient(&big(3)), None);
    assert_eq!(number.denominator().term_count(), 1);
    assert_eq!(number.denominator().coefficient(&big(0)), Some(&big(1)));
}

#[test]
fn different_names_have_different_numbers() {
    let names = [
        "a", "b", "A", "_", "ab", "ba", "aa", "a_", "_a", "a1b", "1_", "1a", "11a", "ainm",
        "enl", "en_l", "en_templ", "en_inl", "ain", "ainmm", "Ainm", "ain_",
    ];
    for (i, first) in names.iter().enumerate() {
        for (j, second) in names.iter().enumerate() {
            let a = Number::from_name((*first).to_owned()).unwrap();
            let b = Number::from_name((*second).to_owned()).unwrap();
            assert_eq!(a == b, i == j, "{first} and {second}");
        }
    }
}

#[test]
fn different_source_names_have_different_numbers() {
    let names = ["len", "len_", "len_temp", "len_in", "main", "nle", "l", "le", "el", "e1", "_1"];
    for (i, first) in names.iter().enumerate() {
        for (j, second) in names.iter().enumerate() {
            let a = Number::from_name(rotate(first)).unwrap();
            let b = Number::from_name(rotate(second)).unwrap();
            assert_eq!(a == b, i == j, "{first} and {second}");
        }
    }
}

#[test]
fn name_is_never_the_number_of_a_numeral() {
    for name in ["a", "_", "1a", "0_", "ainm"] {
        for text in ["0", "1", "97", "0.0", "49.95", "4995"] {
            assert_ne!(Number::from_name(name.to_owned()).unwrap(), literal(text));
        }
    }
}

#[test]
fn text_that_is_no_turned_name_is_refused() {
    for text in ["", "a1", "1", "a-b", "a b", "é", "ab.", "a\u{0}b", "ñandu"] {
        assert_eq!(
            Number::from_name(text.to_owned()),
            Err(format!("{text} is not a valid identifier")),
            "{text:?}"
        );
    }
}

#[test]
fn denominator_is_never_zero() {
    let name = Number::from_name("x".to_owned()).unwrap();
    for number in [literal("0"), literal("0.0"), literal("17"), name] {
        assert!(number.denominator().term_count() > 0);
        assert_ne!(*number.denominator(), PIPoly::zero());
    }
}

#[test]
fn monomial_of_zero_is_the_zero_polynomial() {
    assert_eq!(PIPoly::monomial(big(3), big(0)), PIPoly::zero());
    assert_eq!(PIPoly::monomial(big(3), big(0)).term_count(), 0);
    let poly = PIPoly::monomial(big(3), big(8));
    assert_eq!(poly.term_count(), 1);
    assert_eq!(poly.coefficient(&big(3)), Some(&big(8)));
    assert_eq!(poly.coefficient(&big(8)), None);
    assert_ne!(poly, PIPoly::monomial(big(8), big(3)));
    assert_ne!(poly, PIPoly::monomial(big(3), big(9)));
    assert_eq!(poly, PIPoly::monomial(big(3), big(8)));
    let poly = PIPoly::monomial(BigInteger::new(true, vec![2]), BigInteger::new(true, vec![7]));
    assert_eq!(
        poly.coefficient(&BigInteger::new(true, vec![2])),
        Some(&BigInteger::new(true, vec![7]))
    );
    assert_eq!(poly.coefficient(&big(2)), None);
}
