use lumen_runtime::exception::Exception;
use lumen_runtime::integer::big::{big_int_to_usize, BigInt, Integer, Sign};

fn raw(sign: Sign, digits: &[u32]) -> BigInt {
    BigInt::new(sign, digits.to_vec())
}

#[test]
fn new_drops_most_significant_zero_digits() {
    let b = BigInt::new(Sign::Plus, vec![5, 0, 0]);
    assert_eq!(b.sign(), Sign::Plus);
    assert_eq!(b.to_u32_digits(), (Sign::Plus, vec![5]));
}

#[test]
fn new_of_zero_magnitude_has_no_sign() {
    let b = BigInt::new(Sign::Minus, vec![0, 0]);
    assert_eq!(b.sign(), Sign::NoSign);
    assert_eq!(b.to_u32_digits(), (Sign::NoSign, vec![]));
}

#[test]
fn new_with_no_sign_is_zero() {
    let b = BigInt::new(Sign::NoSign, vec![7]);
    assert_eq!(b.sign(), Sign::NoSign);
    assert_eq!(b.to_u32_digits(), (Sign::NoSign, vec![]));
    assert!(b == BigInt::new(Sign::Plus, vec![]));
}

#[test]
fn positive_small_value_converts_to_itself() {
    assert_eq!(big_int_to_usize(&raw(Sign::Plus, &[5])), Ok(5));
    assert_eq!(big_int_to_usize(&raw(Sign::Plus, &[1027])), Ok(1027));
    assert_eq!(big_int_to_usize(&raw(Sign::Plus, &[0xdead_beef])), Ok(0xdead_beef));
}

#[test]
fn positive_two_digit_value_converts() {
    let r = big_int_to_usize(&raw(Sign::Plus, &[0x0000_0001, 0x0000_0002]));
    if usize::BITS == 64 {
        assert_eq!(r, Ok(0x0000_0002_0000_0001));
    } else {
        assert_eq!(r, Ok(1));
    }
}

#[test]
fn positive_value_beyond_a_word_wraps() {
    // 2^64 + 3
    let r = big_int_to_usize(&raw(Sign::Plus, &[3, 0, 1]));
    assert_eq!(r, Ok(3));
}

#[test]
fn digits_with_high_zeros_convert_by_value() {
    assert_eq!(big_int_to_usize(&raw(Sign::Plus, &[9, 0, 0])), Ok(9));
}

#[test]
fn zero_converts_to_zero() {
    assert_eq!(big_int_to_usize(&raw(Sign::NoSign, &[])), Ok(0));
    assert_eq!(big_int_to_usize(&raw(Sign::NoSign, &[42])), Ok(0));
}

#[test]
fn canonical_forms_of_equal_values_are_equal() {
    assert!(raw(Sign::Minus, &[4, 0]) == raw(Sign::Minus, &[4]));
    assert!(raw(Sign::Minus, &[4]) != raw(Sign::Plus, &[4]));
}

#[test]
fn negative_is_bad_argument() {
    assert_eq!(big_int_to_usize(&raw(Sign::Minus, &[1])), Err(Exception::Badarg));
}

#[test]
fn integer_new_keeps_inner() {
    let i = Integer::new(raw(Sign::Plus, &[1, 2]));
    assert_eq!(i.inner.to_u32_digits(), (Sign::Plus, vec![1, 2]));
}

#[test]
fn integers_equal_by_value() {
    assert!(Integer::new(raw(Sign::Plus, &[5, 0])) == Integer::new(raw(Sign::Plus, &[5])));
    assert!(Integer::new(raw(Sign::NoSign, &[3])) == Integer::new(raw(Sign::Plus, &[])));
    assert!(Integer::new(raw(Sign::Minus, &[5])) != Integer::new(raw(Sign::Plus, &[5])));
    assert!(Integer::new(raw(Sign::Plus, &[5, 1])) != Integer::new(raw(Sign::Plus, &[5, 2])));
}

#[test]
fn try_from_integer_converts() {
    let i = Integer::new(raw(Sign::Plus, &[77]));
    assert_eq!(usize::try_from(&i), Ok(77));
    assert_eq!(usize::try_from(i), Ok(77));
    let n = Integer::new(raw(Sign::Minus, &[77]));
    assert_eq!(usize::try_from(n), Err(Exception::Badarg));
}
