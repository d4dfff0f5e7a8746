//! Big integers: a sign and a magnitude in base 2^32, and their conversion
//! to a machine word.

use vstd::arithmetic::div_mod::*;
use vstd::prelude::*;

use crate::exception::Exception;

verus! {

/// The sign of a big integer.
#[derive(Debug, Clone, Copy, PartialEq, Eq, Structural, Hash)]
pub enum Sign {
    Minus,
    NoSign,
    Plus,
}

/// An arbitrary-precision integer: a sign and the magnitude's digits in
/// base 2^32, least significant digit first, always in canonical form (see
/// `canonical`), so that equal values have equal representations.
#[derive(Debug, PartialEq, Eq, Hash)]
pub struct BigInt {
    sign: Sign,
    digits: Vec<u32>,
}

/// The value of little-endian base-2^32 digits.
pub open spec fn digits_value(digits: Seq<u32>) -> nat
    decreases digits.len(),
{
    if digits.len() == 0 {
        0
    } else {
        digits[0] as nat + 0x1_0000_0000nat * digits_value(digits.drop_first())
    }
}

/// The value of big-endian bytes.
pub open spec fn bytes_be_value(bytes: Seq<u8>) -> nat
    decreases bytes.len(),
{
    if bytes.len() == 0 {
        0
    } else {
        bytes_be_value(bytes.drop_last()) * 256 + bytes.last() as nat
    }
}

/// The number of values of a `usize`.
pub open spec fn usize_modulus() -> nat {
    usize::MAX as nat + 1
}

/// The value that a sign and digits stand for: zero whatever the digits
/// when the sign is `NoSign`.
pub open spec fn signed_value(sign: Sign, digits: Seq<u32>) -> int {
    match sign {
        Sign::Minus => -digits_value(digits),
        Sign::NoSign => 0,
        Sign::Plus => digits_value(digits) as int,
    }
}

/// The sign of a value, as `num_bigint` keeps it.
pub open spec fn sign_of(value: int) -> Sign {
    if value < 0 {
        Sign::Minus
    } else if value == 0 {
        Sign::NoSign
    } else {
        Sign::Plus
    }
}

/// The absolute value.
pub open spec fn abs(value: int) -> nat {
    if value < 0 {
        (-value) as nat
    } else {
        value as nat
    }
}

/// The canonical form of a sign and digits: no most significant zero digit,
/// and the sign is `NoSign` exactly when there is no digit.
pub open spec fn canonical(sign: Sign, digits: Seq<u32>) -> bool {
    &&& (digits.len() == 0 <==> sign == Sign::NoSign)
    &&& digits.len() > 0 ==> digits.last() != 0
}

impl View for BigInt {
    type V = int;

    /// The value of the integer.
    closed spec fn view(&self) -> int {
        signed_value(self.sign, self.digits@)
    }
}

impl BigInt {
    #[verifier::type_invariant]
    closed spec fn is_canonical(&self) -> bool {
        canonical(self.sign, self.digits@)
    }

    /// The integer of the given sign and magnitude, in canonical form: a
    /// magnitude of zero or the sign `NoSign` give zero.
    pub fn new(sign: Sign, digits: Vec<u32>) -> (r: BigInt)
        ensures
            r@ == signed_value(sign, digits@),
    {
        let (s, d) = normalize(sign, digits);
        BigInt { sign: s, digits: d }
    }

    /// The sign of the integer.
    pub fn sign(&self) -> (r: Sign)
        ensures
            r == sign_of(self@),
    {
        proof {
            use_type_invariant(self);
            lemma_canonical_sign(self.sign, self.digits@);
        }
        self.sign
    }

    /// The sign and the digits of the magnitude, least significant first,
    /// in canonical form.
    pub fn to_u32_digits(&self) -> (r: (Sign, Vec<u32>))
        ensures
            canonical(r.0, r.1@),
            signed_value(r.0, r.1@) == self@,
    {
        proof {
            use_type_invariant(self);
        }
        let mut digits: Vec<u32> = Vec::new();
        let mut i: usize = 0;
        while i < self.digits.len()
            invariant
                0 <= i <= self.digits.len(),
                digits@ == self.digits@.take(i as int),
            decreases self.digits.len() - i,
        {
            digits.push(self.digits[i]);
            i = i + 1;
            assert(digits@ =~= self.digits@.take(i as int));
        }
        assert(digits@ =~= self.digits@);
        (self.sign, digits)
    }
}

/// In canonical form the sign is that of the value.
proof fn lemma_canonical_sign(sign: Sign, digits: Seq<u32>)
    requires
        canonical(sign, digits),
    ensures
        sign == sign_of(signed_value(sign, digits)),
        digits_value(digits) == abs(signed_value(sign, digits)),
{
    if digits.len() > 0 {
        lemma_canonical_digits_positive(digits);
    }
}

/// Calls `num_bigint::BigInt::new` and reads the result back with
/// `num_bigint::BigInt::to_u32_digits`. The claim: the sign and digits come
/// back in canonical form with the value of the sign and digits given.
#[verifier::external_body]
fn normalize(sign: Sign, digits: Vec<u32>) -> (r: (Sign, Vec<u32>))
    ensures
        canonical(r.0, r.1@),
        signed_value(r.0, r.1@) == signed_value(sign, digits@),
{
    let outside_sign = match sign {
        Sign::Minus => num_bigint::Sign::Minus,
        Sign::NoSign => num_bigint::Sign::NoSign,
        Sign::Plus => num_bigint::Sign::Plus,
    };
    let (s, d) = num_bigint::BigInt::new(outside_sign, digits).to_u32_digits();
    let s = match s {
        num_bigint::Sign::Minus => Sign::Minus,
        num_bigint::Sign::NoSign => Sign::NoSign,
        num_bigint::Sign::Plus => Sign::Plus,
    };
    (s, d)
}

/// Calls `num_bigint::BigInt::to_bytes_be` on the integer of the given sign
/// and digits (made with `num_bigint::BigInt::new`). The claim: the sign is
/// that of the value, the bytes are the magnitude in big-endian order, with
/// no leading zero byte, and `[0]` for zero.
#[verifier::external_body]
fn big_int_to_bytes_be(big_int: &BigInt) -> (r: (Sign, Vec<u8>))
    ensures
        r.0 == sign_of(big_int@),
        bytes_be_value(r.1@) == abs(big_int@),
        r.1@.len() >= 1,
        r.1@.len() > 1 ==> r.1@[0] != 0,
{
    let outside_sign = match big_int.sign {
        Sign::Minus => num_bigint::Sign::Minus,
        Sign::NoSign => num_bigint::Sign::NoSign,
        Sign::Plus => num_bigint::Sign::Plus,
    };
    let (s, bytes) = num_bigint::BigInt::new(outside_sign, big_int.digits.clone()).to_bytes_be();
    let s = match s {
        num_bigint::Sign::Minus => Sign::Minus,
        num_bigint::Sign::NoSign => Sign::NoSign,
        num_bigint::Sign::Plus => Sign::Plus,
    };
    (s, bytes)
}

/// What converting a big integer of the given value to a `usize` gives: a
/// positive value gives itself modulo 2^`usize::BITS`, zero gives 0, and a
/// negative value is a bad argument.
pub open spec fn usize_of_big_int(value: int) -> Result<usize, Exception> {
    if value > 0 {
        Ok((value % usize_modulus() as int) as usize)
    } else if value == 0 {
        Ok(0usize)
    } else {
        Err(Exception::Badarg)
    }
}

/// Shifting a word left by a byte and or-ing a byte in is appending the
/// byte to the word's value, modulo the word size.
proof fn lemma_shift_in_byte(acc: usize, byte: u8, v: nat)
    requires
        acc as nat == v % usize_modulus(),
    ensures
        ((acc << 8usize) | (byte as usize)) as nat == (v * 256 + byte as nat) % usize_modulus(),
{
    let m = usize_modulus() as int;
    assert(usize::BITS == 64 ==> ((acc << 8usize) | (byte as usize)) as int == ((acc as int) * 256
        + byte as int) % 0x1_0000_0000_0000_0000) by (bit_vector);
    assert(usize::BITS == 32 ==> ((acc << 8usize) | (byte as usize)) as int == ((acc as int) * 256
        + byte as int) % 0x1_0000_0000) by (bit_vector);
    assert(usize::BITS == 64 ==> m == 0x1_0000_0000_0000_0000);
    assert(usize::BITS == 32 ==> m == 0x1_0000_0000);
    assert(usize::BITS == 32 || usize::BITS == 64);
    assert(((acc as int) * 256 + byte as int) % m == ((v as int) * 256 + byte as int) % m) by {
        lemma_mul_mod_noop_left(v as int, 256, m);
        lemma_add_mod_noop((acc as int) * 256, byte as int, m);
        lemma_add_mod_noop((v as int) * 256, byte as int, m);
    }
}

/// Converts a big integer to a `usize`. A positive integer gives its value
/// modulo 2^`usize::BITS` (the bytes that do not fit are shifted out), zero
/// gives 0, and a negative integer is a bad argument.
pub fn big_int_to_usize(big_int: &BigInt) -> (r: Result<usize, Exception>)
    ensures
        r == usize_of_big_int(big_int@),
{
    match big_int.sign() {
        Sign::Plus => {
            let (_, bytes) = big_int_to_bytes_be(big_int);
            let mut acc: usize = 0;
            let mut i: usize = 0;
            assert(bytes@.take(0) =~= Seq::<u8>::empty());
            assert(0nat % usize_modulus() == 0) by {
                lemma_small_mod(0, usize_modulus());
            }
            while i < bytes.len()
                invariant
                    0 <= i <= bytes.len(),
                    acc as nat == bytes_be_value(bytes@.take(i as int)) % usize_modulus(),
                decreases bytes.len() - i,
            {
                let byte = bytes[i];
                proof {
                    lemma_shift_in_byte(acc, byte, bytes_be_value(bytes@.take(i as int)));
                    assert(bytes@.take(i + 1).drop_last() =~= bytes@.take(i as int));
                }
                acc = (acc << 8) | (byte as usize);
                i = i + 1;
            }
            assert(bytes@.take(bytes.len() as int) =~= bytes@);
            Ok(acc)
        },
        Sign::NoSign => Ok(0),
        Sign::Minus => Err(Exception::Badarg),
    }
}

/// Digits whose most significant digit is not zero have a positive value.
proof fn lemma_canonical_digits_positive(d: Seq<u32>)
    requires
        d.len() > 0,
        d.last() != 0,
    ensures
        digits_value(d) > 0,
    decreases d.len(),
{
    if d.len() > 1 {
        assert(d.drop_first().last() == d.last());
        lemma_canonical_digits_positive(d.drop_first());
    }
}

/// Digits with no most significant zero digit are the only such digits of
/// their value.
proof fn lemma_canonical_digits_unique(d1: Seq<u32>, d2: Seq<u32>)
    requires
        d1.len() > 0 ==> d1.last() != 0,
        d2.len() > 0 ==> d2.last() != 0,
        digits_value(d1) == digits_value(d2),
    ensures
        d1 == d2,
    decreases d1.len(),
{
    if d1.len() == 0 {
        if d2.len() > 0 {
            lemma_canonical_digits_positive(d2);
        }
        assert(d1 =~= d2);
    } else if d2.len() == 0 {
        lemma_canonical_digits_positive(d1);
    } else {
        let r1 = digits_value(d1.drop_first());
        let r2 = digits_value(d2.drop_first());
        assert(d1[0] + 0x1_0000_0000 * r1 == d2[0] + 0x1_0000_0000 * r2);
        assert(d1[0] == d2[0] && r1 == r2) by (nonlinear_arith)
            requires
                d1[0] + 0x1_0000_0000 * r1 == d2[0] + 0x1_0000_0000 * r2,
                0 <= d1[0] < 0x1_0000_0000,
                0 <= d2[0] < 0x1_0000_0000,
                r1 >= 0,
                r2 >= 0,
        ;
        if d1.len() > 1 {
            assert(d1.drop_first().last() == d1.last());
        }
        if d2.len() > 1 {
            assert(d2.drop_first().last() == d2.last());
        }
        lemma_canonical_digits_unique(d1.drop_first(), d2.drop_first());
        assert forall|i: int| 0 <= i < d1.len() implies d1[i] == d2[i] by {
            if i > 0 {
                assert(d1[i] == d1.drop_first()[i - 1]);
                assert(d2[i] == d2.drop_first()[i - 1]);
            }
        }
        assert(d1 =~= d2);
    }
}

/// Canonical forms are unique: two canonical signs and digits of the same
/// value are the same. As `BigInt` keeps its sign and digits canonical,
/// comparing or hashing its representation agrees with comparing values.
pub proof fn lemma_canonical_unique(s1: Sign, d1: Seq<u32>, s2: Sign, d2: Seq<u32>)
    requires
        canonical(s1, d1),
        canonical(s2, d2),
        signed_value(s1, d1) == signed_value(s2, d2),
    ensures
        s1 == s2,
        d1 == d2,
{
    lemma_canonical_sign(s1, d1);
    lemma_canonical_sign(s2, d2);
    lemma_canonical_digits_unique(d1, d2);
}

/// A non-negative value that a `usize` holds converts to itself.
pub proof fn lemma_usize_of_big_int_in_range(value: int)
    requires
        0 <= value < usize_modulus(),
    ensures
        usize_of_big_int(value) == Ok::<usize, Exception>(value as usize),
{
    if value > 0 {
        lemma_small_mod(value as nat, usize_modulus());
    }
}

/// An integer term that does not fit in a machine word.
#[derive(Debug, Hash)]
pub struct Integer {
    pub inner: BigInt,
}

impl Integer {
    /// Wraps a big integer.
    pub fn new(inner: BigInt) -> (r: Integer)
        ensures
            r.inner == inner,
    {
        Integer { inner }
    }
}

/// Compares two big integers with `==` of `num_bigint::BigInt`, each made
/// with `num_bigint::BigInt::new` from its sign and digits. The claim: the
/// result is whether the two values are equal.
#[verifier::external_body]
fn big_int_eq(a: &BigInt, b: &BigInt) -> (r: bool)
    ensures
        r == (a@ == b@),
{
    let sa = match a.sign {
        Sign::Minus => num_bigint::Sign::Minus,
        Sign::NoSign => num_bigint::Sign::NoSign,
        Sign::Plus => num_bigint::Sign::Plus,
    };
    let sb = match b.sign {
        Sign::Minus => num_bigint::Sign::Minus,
        Sign::NoSign => num_bigint::Sign::NoSign,
        Sign::Plus => num_bigint::Sign::Plus,
    };
    num_bigint::BigInt::new(sa, a.digits.clone()) == num_bigint::BigInt::new(sb, b.digits.clone())
}

impl PartialEq for Integer {
    fn eq(&self, other: &Integer) -> (r: bool) {
        big_int_eq(&self.inner, &other.inner)
    }
}

impl vstd::std_specs::cmp::PartialEqSpecImpl for Integer {
    open spec fn obeys_eq_spec() -> bool {
        true
    }

    open spec fn eq_spec(&self, other: &Integer) -> bool {
        self.inner@ == other.inner@
    }
}

impl Eq for Integer {

}

impl TryFrom<Integer> for usize {
    type Error = Exception;

    fn try_from(integer: Integer) -> (r: Result<usize, Exception>) {
        big_int_to_usize(&integer.inner)
    }
}

impl vstd::std_specs::convert::TryFromSpecImpl<Integer> for usize {
    open spec fn obeys_try_from_spec() -> bool {
        true
    }

    open spec fn try_from_spec(integer: Integer) -> Result<usize, Exception> {
        usize_of_big_int(integer.inner@)
    }
}

impl<'a> TryFrom<&'a Integer> for usize {
    type Error = Exception;

    fn try_from(integer_ref: &'a Integer) -> (r: Result<usize, Exception>) {
        big_int_to_usize(&integer_ref.inner)
    }
}

impl<'a> vstd::std_specs::convert::TryFromSpecImpl<&'a Integer> for usize {
    open spec fn obeys_try_from_spec() -> bool {
        true
    }

    open spec fn try_from_spec(integer_ref: &'a Integer) -> Result<usize, Exception> {
        usize_of_big_int(integer_ref.inner@)
    }
}

/// Calls `u64::try_from` on the `num_bigint::BigInt` made with
/// `num_bigint::BigInt::new` from the sign and digits. The claim: the value
/// when it lies in `0..2^64`, else `None`.
#[verifier::external_body]
pub(crate) fn big_int_to_u64(big_int: &BigInt) -> (r: Option<u64>)
    ensures
        r == if 0 <= big_int@ <= u64::MAX {
            Some(big_int@ as u64)
        } else {
            None
        },
{
    let sign = match big_int.sign {
        Sign::Minus => num_bigint::Sign::Minus,
        Sign::NoSign => num_bigint::Sign::NoSign,
        Sign::Plus => num_bigint::Sign::Plus,
    };
    u64::try_from(&num_bigint::BigInt::new(sign, big_int.digits.clone())).ok()
}

} // verus!
