//! Value ranges `[lower, upper)` and their derived bit widths.

use vstd::prelude::*;
use vstd::arithmetic::power2::{pow2, lemma_pow2_strictly_increases};

use crate::bignum::{big, big_bits, big_from_u128, big_pow2, big_sub, Signed};

verus! {

/// Cap on the magnitude of range bounds. Bit widths must fit the width
/// fields of the instruction representation, which forces a bound of this
/// shape on the ranges themselves.
pub open spec fn bound_limit() -> nat {
    pow2(0xFFFF_FFFE as nat)
}

/// `r` is the number of bits needed to represent `n` as an unsigned number
/// (0 bits for the value 0).
pub open spec fn is_bit_len(n: nat, r: nat) -> bool {
    &&& n < pow2(r)
    &&& r > 0 ==> pow2((r - 1) as nat) <= n
}

/// Pushing then dropping the last element gives the sequence back.
pub broadcast proof fn lemma_push_drop_last<A>(s: Seq<A>, x: A)
    ensures
        (#[trigger] s.push(x)).drop_last() == s,
        s.push(x).last() == x,
{
    assert(s.push(x).drop_last() =~= s);
}

/// The number of bits needed to represent `n`, as a function.
pub open spec fn bit_len(n: nat) -> nat
    decreases n,
{
    if n == 0 {
        0
    } else {
        1 + bit_len(n / 2)
    }
}

pub proof fn lemma_bit_len(n: nat)
    ensures
        is_bit_len(n, bit_len(n)),
    decreases n,
{
    vstd::arithmetic::power2::lemma2_to64();
    if n > 0 {
        lemma_bit_len(n / 2);
        assert(pow2(bit_len(n)) == 2 * pow2(bit_len(n / 2))) by {
            vstd::arithmetic::power2::lemma_pow2_adds(bit_len(n / 2), 1);
            vstd::arithmetic::power2::lemma2_to64();
        }
        assert(n < 2 * pow2(bit_len(n / 2))) by {
            assert(n / 2 < pow2(bit_len(n / 2)));
            assert(n <= 2 * (n / 2) + 1);
        }
        if bit_len(n / 2) > 0 {
            assert(pow2(bit_len(n / 2)) == 2 * pow2((bit_len(n / 2) - 1) as nat)) by {
                vstd::arithmetic::power2::lemma_pow2_adds((bit_len(n / 2) - 1) as nat, 1);
                vstd::arithmetic::power2::lemma2_to64();
            }
            assert(pow2((bit_len(n) - 1) as nat) <= n) by {
                assert(pow2((bit_len(n / 2) - 1) as nat) <= n / 2);
            }
        } else {
            vstd::arithmetic::power2::lemma2_to64();
            assert(pow2((bit_len(n) - 1) as nat) == 1);
        }
        assert(n < pow2(bit_len(n)));
        assert(pow2((bit_len(n) - 1) as nat) <= n);
    }
}

pub proof fn lemma_bit_len_unique(n: nat, r1: nat, r2: nat)
    requires
        is_bit_len(n, r1),
        is_bit_len(n, r2),
    ensures
        r1 == r2,
{
    if r1 < r2 {
        lemma_pow2_strictly_increases(r1, (r2 - 1) as nat);
        if r1 < r2 - 1 {
        }
        assert(pow2((r2 - 1) as nat) >= pow2(r1));
    }
    if r2 < r1 {
        if r2 < r1 - 1 {
            lemma_pow2_strictly_increases(r2, (r1 - 1) as nat);
        }
        assert(pow2((r1 - 1) as nat) >= pow2(r2));
    }
}

/// A width derived from an in-limit range fits the engine's width fields.
pub proof fn lemma_width_in_limit(t: nat, w: nat)
    requires
        is_bit_len(t, w),
        t < pow2(0xFFFF_FFFF as nat),
    ensures
        w <= 0xFFFF_FFFF,
{
    if w > 0xFFFF_FFFF {
        lemma_pow2_strictly_increases(0xFFFF_FFFF as nat, (w - 1) as nat);
        if w - 1 == 0xFFFF_FFFF {
        }
        assert(pow2((w - 1) as nat) >= pow2(0xFFFF_FFFF as nat));
    }
}

/// A smaller number never needs more bits.
pub proof fn lemma_bit_len_monotone(n1: nat, r1: nat, n2: nat, r2: nat)
    requires
        is_bit_len(n1, r1),
        is_bit_len(n2, r2),
        n1 <= n2,
    ensures
        r1 <= r2,
{
    if r2 < r1 {
        if r2 < r1 - 1 {
            lemma_pow2_strictly_increases(r2, (r1 - 1) as nat);
        }
        assert(pow2((r1 - 1) as nat) >= pow2(r2));
    }
}

/// An inclusive-exclusive value range `[lower, upper)` with
/// arbitrary-precision bounds.
#[derive(Debug)]
pub struct Range {
    pub lower: Signed,
    pub upper: Signed,
}

impl Range {
    /// Well-formed: non-empty, with bounds small enough that every derived
    /// bit width fits the instruction representation's width fields.
    pub open spec fn wf(&self) -> bool {
        &&& self.lower.wf()
        &&& self.upper.wf()
        &&& self.lower.val() < self.upper.val()
        &&& -(bound_limit() as int) <= self.lower.val()
        &&& self.upper.val() <= bound_limit() as int
    }

    /// Membership: `lower <= v < upper`.
    pub open spec fn holds(&self, v: int) -> bool {
        self.lower.val() <= v < self.upper.val()
    }

    /// The number the offset bit width is derived from:
    /// `upper - lower - 1`, the largest offset a member can have.
    pub open spec fn offset_target(&self) -> nat {
        (self.upper.val() - self.lower.val() - 1) as nat
    }

    /// The number the zero-based bit width is derived from: `upper - 1` for
    /// a non-negative range. For a range with a negative lower bound the
    /// zero-based width falls back to the offset width, which for the
    /// symmetric ranges of signed machine integers is exactly the two's
    /// complement register width.
    pub open spec fn zero_based_target(&self) -> nat {
        if self.lower.val() >= 0 {
            (self.upper.val() - 1) as nat
        } else {
            self.offset_target()
        }
    }

    pub fn copy_range(&self) -> (r: Range)
        ensures
            r.lower.val() == self.lower.val(),
            r.upper.val() == self.upper.val(),
            r.wf() <==> self.wf(),
            r.lower.neg == self.lower.neg,
            r.upper.neg == self.upper.neg,
    {
        Range { lower: self.lower.copy_val(), upper: self.upper.copy_val() }
    }

    /// Bits needed once the range is shifted to start at zero.
    pub fn offset_bit_width(&self) -> (r: u64)
        requires
            self.wf(),
        ensures
            is_bit_len(self.offset_target(), r as nat),
    {
        let d = self.upper.sub_val(&self.lower);
        let one = big_from_u128(1);
        let m = big_sub(&d.mag, &one);
        proof {
            assert(d.val() == big(d.mag)) by {
                assert(d.val() > 0);
            }
            assert(big(m) == self.offset_target());
            assert(big(m) < pow2(u64::MAX as nat)) by {
                lemma_pow2_strictly_increases(0xFFFF_FFFE as nat + 1, u64::MAX as nat);
                lemma_pow2_strictly_increases(0xFFFF_FFFE as nat, 0xFFFF_FFFE as nat + 1);
                assert(big(m) < 2 * bound_limit());
                assert(2 * pow2(0xFFFF_FFFE as nat) == pow2(0xFFFF_FFFE as nat + 1)) by {
                    vstd::arithmetic::power2::lemma_pow2_adds(0xFFFF_FFFE as nat, 1);
                    vstd::arithmetic::power2::lemma2_to64();
                }
            }
        }
        big_bits(&m)
    }

    /// Bits needed to represent `upper - 1` as unsigned, or the offset width
    /// when the range reaches below zero.
    pub fn zero_based_bit_width(&self) -> (r: u64)
        requires
            self.wf(),
        ensures
            is_bit_len(self.zero_based_target(), r as nat),
    {
        if self.lower.is_neg() {
            self.offset_bit_width()
        } else {
            let one = big_from_u128(1);
            let m = big_sub(&self.upper.mag, &one);
            proof {
                assert(self.upper.val() == big(self.upper.mag));
                assert(big(m) == self.zero_based_target());
                assert(big(m) < pow2(u64::MAX as nat)) by {
                    lemma_pow2_strictly_increases(0xFFFF_FFFE as nat, u64::MAX as nat);
                }
            }
            big_bits(&m)
        }
    }

    /// The range `[0, 2^n)` of a plain `n`-bit unsigned integer.
    pub fn of_unsigned_width(n: u32) -> (r: Range)
        requires
            n <= 0xFFFF_FFFE,
        ensures
            r.wf(),
            r.lower.val() == 0,
            r.upper.val() == pow2(n as nat),
    {
        proof {
            vstd::arithmetic::power2::lemma_pow2_pos(n as nat);
            if (n as nat) < 0xFFFF_FFFE as nat {
                lemma_pow2_strictly_increases(n as nat, 0xFFFF_FFFE as nat);
            }
        }
        Range {
            lower: Signed { neg: false, mag: big_from_u128(0) },
            upper: Signed { neg: false, mag: big_pow2(n) },
        }
    }

    /// The range `[-2^(n-1), 2^(n-1))` of a plain `n`-bit signed integer.
    pub fn of_signed_width(n: u32) -> (r: Range)
        requires
            1 <= n <= 0xFFFF_FFFE,
        ensures
            r.wf(),
            r.lower.val() == -(pow2((n - 1) as nat) as int),
            r.upper.val() == pow2((n - 1) as nat),
    {
        proof {
            vstd::arithmetic::power2::lemma_pow2_pos((n - 1) as nat);
            if ((n - 1) as nat) < 0xFFFF_FFFE as nat {
                lemma_pow2_strictly_increases((n - 1) as nat, 0xFFFF_FFFE as nat);
            }
        }
        Range {
            lower: Signed { neg: true, mag: big_pow2(n - 1) },
            upper: Signed { neg: false, mag: big_pow2(n - 1) },
        }
    }
}

} // verus!
