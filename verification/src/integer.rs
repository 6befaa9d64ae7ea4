//! Arbitrary-precision integers. The arithmetic is done by the `num` crate;
//! this type keeps the sign and the base 2^32 digits as plain values.
use vstd::prelude::*;

use num::bigint::{BigInt, Sign};

use crate::symbol::is_ascii_digit;

verus! {

/// The value of base 2^32 digits, least significant first.
pub open spec fn digits_value(d: Seq<u32>) -> nat
    decreases d.len(),
{
    if d.len() == 0 {
        0
    } else {
        d[0] as nat + 4294967296 * digits_value(d.drop_first())
    }
}

/// The value of a text of decimal digits, most significant first.
pub open spec fn decimal_value(s: Seq<char>) -> nat
    decreases s.len(),
{
    if s.len() == 0 {
        0
    } else {
        decimal_value(s.drop_last()) * 10 + (s.last() as nat - 48) as nat
    }
}

/// Every character of `s` is an ASCII digit.
pub open spec fn all_digits(s: Seq<char>) -> bool {
    forall|i: int| 0 <= i < s.len() ==> is_ascii_digit(#[trigger] s[i])
}

/// Integer division rounding toward zero, as Rust and `num` do.
pub open spec fn trunc_div(a: int, b: int) -> int {
    let q = abs(a) / abs(b);
    if (a >= 0) == (b > 0) || q == 0 {
        q
    } else {
        -q
    }
}

pub open spec fn abs(a: int) -> int {
    if a < 0 {
        -a
    } else {
        a
    }
}

/// An integer of any size: a sign and its magnitude in base 2^32 digits,
/// least significant first, with no leading zero digit and no negative zero.
#[derive(Debug, PartialEq, Eq)]
pub struct Integer {
    negative: bool,
    digits: Vec<u32>,
}

impl View for Integer {
    type V = int;

    closed spec fn view(&self) -> int {
        if self.negative {
            -(digits_value(self.digits@) as int)
        } else {
            digits_value(self.digits@) as int
        }
    }
}

proof fn lemma_digits_value_positive(d: Seq<u32>)
    requires
        d.len() > 0,
        d.last() != 0,
    ensures
        digits_value(d) > 0,
    decreases d.len(),
{
    if d.len() > 1 {
        lemma_digits_value_positive(d.drop_first());
    }
}

impl Integer {
    #[verifier::type_invariant]
    closed spec fn canonical(self) -> bool {
        &&& self.digits@.len() > 0 ==> self.digits@.last() != 0
        &&& self.negative ==> self.digits@.len() > 0
    }

    /// Whether the integer is zero.
    pub fn is_zero(&self) -> (r: bool)
        ensures
            r == (self@ == 0),
    {
        proof {
            use_type_invariant(self);
            if self.digits@.len() > 0 {
                lemma_digits_value_positive(self.digits@);
            }
        }
        self.digits.len() == 0
    }

    /// Calls `BigInt::from(i64)` and keeps its sign and digits
    /// (`BigInt::to_u32_digits`); the value is `value`.
    #[verifier::external_body]
    fn bigint_from_i64(value: i64) -> (r: Integer)
        ensures
            r@ == value as int,
    {
        let (sign, digits) = BigInt::from(value).to_u32_digits();
        Integer { negative: sign == Sign::Minus, digits }
    }

    /// Calls `str::parse::<BigInt>` (`BigInt::from_str`, base 10) on a nonempty
    /// text of ASCII digits; the value is the decimal value of the text.
    #[verifier::external_body]
    fn bigint_from_decimal(digits: &str) -> (r: Integer)
        requires
            digits@.len() > 0,
            all_digits(digits@),
        ensures
            r@ == decimal_value(digits@) as int,
    {
        let value: BigInt = digits.parse().unwrap();
        let (sign, digits) = value.to_u32_digits();
        Integer { negative: sign == Sign::Minus, digits }
    }

    /// Calls `BigInt + BigInt`; the value is the sum.
    #[verifier::external_body]
    fn bigint_add(&self, other: &Integer) -> (r: Integer)
        ensures
            r@ == self@ + other@,
    {
        let a = BigInt::from_slice(if self.negative { Sign::Minus } else { Sign::Plus }, &self.digits);
        let b = BigInt::from_slice(if other.negative { Sign::Minus } else { Sign::Plus }, &other.digits);
        let (sign, digits) = (a + b).to_u32_digits();
        Integer { negative: sign == Sign::Minus, digits }
    }

    /// Calls `BigInt - BigInt`; the value is the difference.
    #[verifier::external_body]
    fn bigint_sub(&self, other: &Integer) -> (r: Integer)
        ensures
            r@ == self@ - other@,
    {
        let a = BigInt::from_slice(if self.negative { Sign::Minus } else { Sign::Plus }, &self.digits);
        let b = BigInt::from_slice(if other.negative { Sign::Minus } else { Sign::Plus }, &other.digits);
        let (sign, digits) = (a - b).to_u32_digits();
        Integer { negative: sign == Sign::Minus, digits }
    }

    /// Calls `BigInt * BigInt`; the value is the product.
    #[verifier::external_body]
    fn bigint_mul(&self, other: &Integer) -> (r: Integer)
        ensures
            r@ == self@ * other@,
    {
        let a = BigInt::from_slice(if self.negative { Sign::Minus } else { Sign::Plus }, &self.digits);
        let b = BigInt::from_slice(if other.negative { Sign::Minus } else { Sign::Plus }, &other.digits);
        let (sign, digits) = (a * b).to_u32_digits();
        Integer { negative: sign == Sign::Minus, digits }
    }

    /// Calls `BigInt / BigInt`, which rounds toward zero and panics on a zero
    /// divisor (excluded here).
    #[verifier::external_body]
    fn bigint_div(&self, other: &Integer) -> (r: Integer)
        requires
            other@ != 0,
        ensures
            r@ == trunc_div(self@, other@),
    {
        let a = BigInt::from_slice(if self.negative { Sign::Minus } else { Sign::Plus }, &self.digits);
        let b = BigInt::from_slice(if other.negative { Sign::Minus } else { Sign::Plus }, &other.digits);
        let (sign, digits) = (a / b).to_u32_digits();
        Integer { negative: sign == Sign::Minus, digits }
    }

    /// Calls `BigInt::to_string` (base 10, a leading `-` when negative).
    #[verifier::external_body]
    fn bigint_to_string(&self) -> (r: String)
        ensures
            r@ == decimal_text(self@),
    {
        BigInt::from_slice(if self.negative { Sign::Minus } else { Sign::Plus }, &self.digits).to_string()
    }

    /// The integer `value`.
    pub fn from_i64(value: i64) -> (r: Integer)
        ensures
            r@ == value as int,
    {
        Self::bigint_from_i64(value)
    }

    /// The integer that a nonempty text of ASCII digits spells in base 10.
    pub fn from_decimal(digits: &str) -> (r: Integer)
        requires
            digits@.len() > 0,
            all_digits(digits@),
        ensures
            r@ == decimal_value(digits@) as int,
    {
        Self::bigint_from_decimal(digits)
    }

    pub fn add(&self, other: &Integer) -> (r: Integer)
        ensures
            r@ == self@ + other@,
    {
        self.bigint_add(other)
    }

    pub fn sub(&self, other: &Integer) -> (r: Integer)
        ensures
            r@ == self@ - other@,
    {
        self.bigint_sub(other)
    }

    pub fn mul(&self, other: &Integer) -> (r: Integer)
        ensures
            r@ == self@ * other@,
    {
        self.bigint_mul(other)
    }

    /// The quotient rounded toward zero.
    pub fn div(&self, other: &Integer) -> (r: Integer)
        requires
            other@ != 0,
        ensures
            r@ == trunc_div(self@, other@),
    {
        self.bigint_div(other)
    }

    /// The text in base 10, with a leading `-` when negative.
    pub fn to_decimal_string(&self) -> (r: String)
        ensures
            r@ == decimal_text(self@),
    {
        self.bigint_to_string()
    }

    /// A copy with the same value.
    pub fn duplicate(&self) -> (r: Integer)
        ensures
            r@ == self@,
    {
        proof {
            use_type_invariant(self);
        }
        let digits = self.digits.clone();
        assert(digits@ == self.digits@);
        Integer { negative: self.negative, digits }
    }
}

impl Clone for Integer {
    fn clone(&self) -> (r: Self)
        ensures
            r@ == self@,
    {
        self.duplicate()
    }
}

/// The decimal digits of a natural number, most significant first, without
/// leading zeros ("0" for zero).
pub open spec fn nat_decimal(n: nat) -> Seq<char>
    decreases n,
{
    if n < 10 {
        seq![(48 + n) as char]
    } else {
        nat_decimal(n / 10).push((48 + n % 10) as char)
    }
}

/// The decimal text of an integer, with a leading `-` when negative.
pub open spec fn decimal_text(n: int) -> Seq<char> {
    if n < 0 {
        seq!['-'] + nat_decimal((-n) as nat)
    } else {
        nat_decimal(n as nat)
    }
}

} // verus!
