use bracket_lexer::integer::BigInteger;
use num_bigint::{BigInt, Sign};

fn same(value: &BigInteger, expected: &BigInt) -> bool {
    let (sign, digits) = expected.to_u32_digits();
    value.is_negative() == (sign == Sign::Minus) && *value.magnitude() == digits
}

#[test]
fn decimal_is_read_exactly() {
    assert_eq!(BigInteger::from_decimal("0").unwrap().magnitude(), &Vec::<u32>::new());
    assert_eq!(BigInteger::from_decimal("1125").unwrap().magnitude(), &vec![1125]);
    assert_eq!(BigInteger::from_decimal("4294967295").unwrap().magnitude(), &vec![4294967295]);
    assert_eq!(BigInteger::from_decimal("4294967296").unwrap().magnitude(), &vec![0, 1]);
    assert_eq!(BigInteger::from_decimal("112500000000").unwrap().magnitude(), &vec![830850304, 26]);
    assert_eq!(
        BigInteger::from_decimal("340282366920938463463374607431768211456").unwrap().magnitude(),
        &vec![0, 0, 0, 0, 1]
    );
    assert_eq!(BigInteger::from_decimal("000123").unwrap(), BigInteger::from_u32(123));
    assert!(!BigInteger::from_decimal("7").unwrap().is_negative());
}

#[test]
fn decimal_agrees_with_the_parser() {
    for text in [
        "0",
        "9",
        "10",
        "18446744073709551615",
        "18446744073709551616",
        "99999999999999999999999999999999999999999",
    ] {
        let expected: BigInt = text.parse().unwrap();
        assert!(same(&BigInteger::from_decimal(text).unwrap(), &expected), "{text}");
    }
}

#[test]
fn text_that_is_no_decimal_is_refused() {
    for text in ["", "+1", "-1", "1_000", "_1", "1.0", " 1", "1a", "a", "١"] {
        assert!(BigInteger::from_decimal(text).is_none(), "{text:?}");
    }
}

#[test]
fn powers_of_ten() {
    assert_eq!(BigInteger::power_of_ten(0), BigInteger::from_u32(1));
    assert_eq!(BigInteger::power_of_ten(1), BigInteger::from_u32(10));
    assert_eq!(BigInteger::power_of_ten(9), BigInteger::from_u32(1_000_000_000));
    assert_eq!(BigInteger::power_of_ten(10).magnitude(), &vec![1410065408, 2]);
    assert_eq!(BigInteger::power_of_ten(19), BigInteger::from_u64(10_000_000_000_000_000_000));
    assert_eq!(
        BigInteger::power_of_ten(30),
        BigInteger::from_decimal("1000000000000000000000000000000").unwrap()
    );
}

#[test]
fn zero_digits_at_the_top_are_dropped() {
    assert_eq!(BigInteger::new(false, vec![5, 0, 0]).magnitude(), &vec![5]);
    assert_eq!(BigInteger::new(false, vec![0, 7, 0]).magnitude(), &vec![0, 7]);
    assert_eq!(BigInteger::new(false, vec![0, 0]).magnitude(), &Vec::<u32>::new());
    assert_eq!(BigInteger::new(false, vec![5, 0]), BigInteger::from_u32(5));
    assert_eq!(BigInteger::new(false, vec![]), BigInteger::from_u32(0));
}

#[test]
fn zero_is_not_negative() {
    let zero = BigInteger::new(true, vec![0, 0]);
    assert!(zero.is_zero());
    assert!(!zero.is_negative());
    assert_eq!(zero, BigInteger::from_u32(0));
    let minus_five = BigInteger::new(true, vec![5]);
    assert!(minus_five.is_negative());
    assert!(!minus_five.is_zero());
    assert_ne!(minus_five, BigInteger::from_u32(5));
    assert_eq!(minus_five.magnitude(), &vec![5]);
    assert!(same(&minus_five, &BigInt::from(-5)));
}

#[test]
fn small_integers() {
    assert_eq!(BigInteger::from_u32(0).magnitude(), &Vec::<u32>::new());
    assert_eq!(BigInteger::from_u32(u32::MAX).magnitude(), &vec![u32::MAX]);
    assert_eq!(BigInteger::from_u64(0).magnitude(), &Vec::<u32>::new());
    assert_eq!(BigInteger::from_u64(1).magnitude(), &vec![1]);
    assert_eq!(BigInteger::from_u64(1 << 32).magnitude(), &vec![0, 1]);
    assert_eq!(BigInteger::from_u64(u64::MAX).magnitude(), &vec![u32::MAX, u32::MAX]);
    assert_eq!(
        BigInteger::from_u64(0x1234_5678_9abc_def0).magnitude(),
        &vec![0x9abc_def0, 0x1234_5678]
    );
    assert_eq!(BigInteger::from_usize(77), BigInteger::from_u32(77));
    assert!(same(&BigInteger::from_usize(usize::MAX), &BigInt::from(usize::MAX)));
    assert!(BigInteger::from_u64(0).is_zero());
    assert!(!BigInteger::from_u64(1 << 40).is_zero());
}

#[test]
fn equal_integers_are_equal() {
    assert_eq!(BigInteger::from_u64(300), BigInteger::from_decimal("300").unwrap());
    assert_ne!(BigInteger::from_u64(300), BigInteger::from_decimal("301").unwrap());
    assert_ne!(BigInteger::from_u64(1 << 32), BigInteger::from_u64(1));
    assert_ne!(BigInteger::from_u64(1 << 32), BigInteger::from_u64(0));
}
