//! Arbitrary-precision integers for range bounds and instruction constants.
//!
//! The unsigned magnitudes live in `num_bigint::BigUint`, reached through a
//! small set of trusted wrappers whose contracts speak of the digit sequence
//! the crate stores. Signed values are the library's own sign-and-magnitude
//! pairs, with all signed arithmetic implemented and verified here.

use vstd::prelude::*;
use vstd::arithmetic::power2::pow2;

verus! {

#[verifier::external_type_specification]
#[verifier::external_body]
pub struct ExBigUint(num_bigint::BigUint);

/// The digit sequence a `num_bigint::BigUint` holds: base-2^64 digits in
/// little-endian order, with no trailing zero digit.
pub uninterp spec fn big_digits(x: num_bigint::BigUint) -> Seq<u64>;

/// The natural number a little-endian base-2^64 digit sequence denotes.
pub open spec fn digits_val(s: Seq<u64>) -> nat
    decreases s.len(),
{
    if s.len() == 0 {
        0
    } else {
        (s[0] + digits_val(s.skip(1)) * pow2(64)) as nat
    }
}

/// The numeric value of a `BigUint`.
pub open spec fn big(x: num_bigint::BigUint) -> nat {
    digits_val(big_digits(x))
}

/// Relies on `num_bigint::BigUint::from(u128)`: the result holds exactly the
/// given value.
#[verifier::external_body]
pub fn big_from_u128(v: u128) -> (r: num_bigint::BigUint)
    ensures
        big(r) == v,
{
    num_bigint::BigUint::from(v)
}

/// Relies on `u128::try_from(&BigUint)`: succeeds exactly when the value fits
/// in 128 bits, and then returns it.
#[verifier::external_body]
pub fn big_to_u128(x: &num_bigint::BigUint) -> (r: Option<u128>)
    ensures
        match r {
            Some(v) => big(*x) == v,
            None => big(*x) > u128::MAX,
        },
{
    u128::try_from(x).ok()
}

/// Relies on `BigUint::clone`: the copy holds the same digits.
#[verifier::external_body]
pub fn big_clone(x: &num_bigint::BigUint) -> (r: num_bigint::BigUint)
    ensures
        big_digits(r) == big_digits(*x),
{
    x.clone()
}

/// Relies on `BigUint`'s addition: the result's value is the sum.
#[verifier::external_body]
pub fn big_add(a: &num_bigint::BigUint, b: &num_bigint::BigUint) -> (r: num_bigint::BigUint)
    ensures
        big(r) == big(*a) + big(*b),
{
    a + b
}

/// Relies on `BigUint`'s subtraction, which panics when the subtrahend is
/// larger; the precondition rules that out.
#[verifier::external_body]
pub fn big_sub(a: &num_bigint::BigUint, b: &num_bigint::BigUint) -> (r: num_bigint::BigUint)
    requires
        big(*b) <= big(*a),
    ensures
        big(r) == big(*a) - big(*b),
{
    a - b
}

/// Relies on `BigUint`'s multiplication: the result's value is the product.
#[verifier::external_body]
pub fn big_mul(a: &num_bigint::BigUint, b: &num_bigint::BigUint) -> (r: num_bigint::BigUint)
    ensures
        big(r) == big(*a) * big(*b),
{
    a * b
}

/// Relies on `BigUint`'s division (quotient rounded toward zero), which
/// panics on a zero divisor; the precondition rules that out.
#[verifier::external_body]
pub fn big_div(a: &num_bigint::BigUint, b: &num_bigint::BigUint) -> (r: num_bigint::BigUint)
    requires
        big(*b) > 0,
    ensures
        big(r) == big(*a) / big(*b),
{
    a / b
}

/// Relies on `BigUint`'s remainder, which panics on a zero divisor; the
/// precondition rules that out.
#[verifier::external_body]
pub fn big_rem(a: &num_bigint::BigUint, b: &num_bigint::BigUint) -> (r: num_bigint::BigUint)
    requires
        big(*b) > 0,
    ensures
        big(r) == big(*a) % big(*b),
{
    a % b
}

/// Relies on `Ord::cmp` for `BigUint`: the order is the numeric order.
/// Returns 0 for less, 1 for equal, 2 for greater.
#[verifier::external_body]
pub fn big_cmp(a: &num_bigint::BigUint, b: &num_bigint::BigUint) -> (r: u8)
    ensures
        r == 0 <==> big(*a) < big(*b),
        r == 1 <==> big(*a) == big(*b),
        r == 2 <==> big(*a) > big(*b),
{
    match a.cmp(b) {
        core::cmp::Ordering::Less => 0,
        core::cmp::Ordering::Equal => 1,
        core::cmp::Ordering::Greater => 2,
    }
}

/// Relies on `BigUint::bits`: the number of bits needed to represent the
/// value, 0 for the value 0. The precondition keeps the count inside `u64`,
/// which is forced by the return type of `bits` itself.
#[verifier::external_body]
pub fn big_bits(x: &num_bigint::BigUint) -> (r: u64)
    requires
        big(*x) < pow2(u64::MAX as nat),
    ensures
        big(*x) < pow2(r as nat),
        r > 0 ==> pow2((r - 1) as nat) <= big(*x),
        big(*x) == 0 ==> r == 0,
{
    x.bits()
}

/// Relies on `BigUint`'s left shift by a `u32`: multiplication by that power
/// of two.
#[verifier::external_body]
pub fn big_shl(a: &num_bigint::BigUint, n: u32) -> (r: num_bigint::BigUint)
    ensures
        big(r) == big(*a) * pow2(n as nat),
{
    a << n
}

/// 2 to the given power, as a `BigUint`.
pub fn big_pow2(n: u32) -> (r: num_bigint::BigUint)
    ensures
        big(r) == pow2(n as nat),
{
    let one = big_from_u128(1);
    big_shl(&one, n)
}

pub fn big_is_zero(x: &num_bigint::BigUint) -> (r: bool)
    ensures
        r <==> big(*x) == 0,
{
    let zero = big_from_u128(0);
    big_cmp(x, &zero) == 1
}

pub fn big_lt(a: &num_bigint::BigUint, b: &num_bigint::BigUint) -> (r: bool)
    ensures
        r <==> big(*a) < big(*b),
{
    big_cmp(a, b) == 0
}

pub fn big_le(a: &num_bigint::BigUint, b: &num_bigint::BigUint) -> (r: bool)
    ensures
        r <==> big(*a) <= big(*b),
{
    big_cmp(a, b) != 2
}

pub fn big_eq(a: &num_bigint::BigUint, b: &num_bigint::BigUint) -> (r: bool)
    ensures
        r <==> big(*a) == big(*b),
{
    big_cmp(a, b) == 1
}

/// A signed arbitrary-precision integer: a sign and a `BigUint` magnitude.
/// Zero is always stored with `neg == false`.
#[derive(Debug)]
pub struct Signed {
    pub neg: bool,
    pub mag: num_bigint::BigUint,
}

impl Signed {
    /// Well-formed: a negative value has a non-zero magnitude.
    pub open spec fn wf(&self) -> bool {
        self.neg ==> big(self.mag) > 0
    }

    /// The integer this value denotes.
    pub open spec fn val(&self) -> int {
        if self.neg {
            -(big(self.mag) as int)
        } else {
            big(self.mag) as int
        }
    }

    pub fn from_u128(v: u128) -> (r: Signed)
        ensures
            r.wf(),
            r.val() == v,
    {
        Signed { neg: false, mag: big_from_u128(v) }
    }

    pub fn from_i128(v: i128) -> (r: Signed)
        ensures
            r.wf(),
            r.val() == v,
    {
        if v < 0 {
            let m: u128 = ((-(v + 1)) as u128) + 1;
            Signed { neg: true, mag: big_from_u128(m) }
        } else {
            Signed { neg: false, mag: big_from_u128(v as u128) }
        }
    }

    pub fn copy_val(&self) -> (r: Signed)
        ensures
            r.val() == self.val(),
            r.neg == self.neg,
            r.wf() <==> self.wf(),
    {
        Signed { neg: self.neg, mag: big_clone(&self.mag) }
    }

    pub fn is_neg(&self) -> (r: bool)
        requires
            self.wf(),
        ensures
            r <==> self.val() < 0,
    {
        self.neg
    }

    pub fn lt(&self, other: &Signed) -> (r: bool)
        requires
            self.wf(),
            other.wf(),
        ensures
            r <==> self.val() < other.val(),
    {
        match (self.neg, other.neg) {
            (true, false) => true,
            (false, true) => false,
            (false, false) => big_lt(&self.mag, &other.mag),
            (true, true) => big_lt(&other.mag, &self.mag),
        }
    }

    pub fn le(&self, other: &Signed) -> (r: bool)
        requires
            self.wf(),
            other.wf(),
        ensures
            r <==> self.val() <= other.val(),
    {
        !other.lt(self)
    }

    pub fn eq_val(&self, other: &Signed) -> (r: bool)
        requires
            self.wf(),
            other.wf(),
        ensures
            r <==> self.val() == other.val(),
    {
        self.le(other) && other.le(self)
    }

    /// The smaller of the two values, copied.
    pub fn min_val(&self, other: &Signed) -> (r: Signed)
        requires
            self.wf(),
            other.wf(),
        ensures
            r.wf(),
            r.val() == if self.val() <= other.val() {
                self.val()
            } else {
                other.val()
            },
    {
        if self.le(other) {
            self.copy_val()
        } else {
            other.copy_val()
        }
    }

    /// The larger of the two values, copied.
    pub fn max_val(&self, other: &Signed) -> (r: Signed)
        requires
            self.wf(),
            other.wf(),
        ensures
            r.wf(),
            r.val() == if self.val() >= other.val() {
                self.val()
            } else {
                other.val()
            },
    {
        if self.le(other) {
            other.copy_val()
        } else {
            self.copy_val()
        }
    }

    /// The value negated.
    pub fn neg_val(&self) -> (r: Signed)
        requires
            self.wf(),
        ensures
            r.wf(),
            r.val() == -self.val(),
    {
        if big_is_zero(&self.mag) {
            Signed { neg: false, mag: big_clone(&self.mag) }
        } else {
            Signed { neg: !self.neg, mag: big_clone(&self.mag) }
        }
    }

    /// Sum of two signed values.
    pub fn add_val(&self, other: &Signed) -> (r: Signed)
        requires
            self.wf(),
            other.wf(),
        ensures
            r.wf(),
            r.val() == self.val() + other.val(),
    {
        if self.neg == other.neg {
            Signed { neg: self.neg, mag: big_add(&self.mag, &other.mag) }
        } else {
            // Signs differ: the result takes the sign of the larger magnitude.
            let c = big_cmp(&self.mag, &other.mag);
            if c == 1 {
                Signed { neg: false, mag: big_from_u128(0) }
            } else if c == 2 {
                Signed { neg: self.neg, mag: big_sub(&self.mag, &other.mag) }
            } else {
                Signed { neg: other.neg, mag: big_sub(&other.mag, &self.mag) }
            }
        }
    }

    /// Difference of two signed values.
    pub fn sub_val(&self, other: &Signed) -> (r: Signed)
        requires
            self.wf(),
            other.wf(),
        ensures
            r.wf(),
            r.val() == self.val() - other.val(),
    {
        let negated = other.neg_val();
        self.add_val(&negated)
    }
}

} // verus!
