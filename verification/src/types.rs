//! Concrete types and the type layout builder: native memory layout and
//! numeric value range, derived deterministically from the type alone.

pub mod uint32;

use vstd::prelude::*;
use vstd::arithmetic::power2::pow2;

use crate::bignum::{big, big_add, big_from_u128, big_mul, big_pow2, Signed};
use crate::error::Error;
use crate::utils::{is_bit_len, Range};

verus! {

/// The prime modulus of the 252-bit field element type.
pub open spec fn felt_prime() -> nat {
    pow2(251) + 17 * pow2(192) + 1
}

pub proof fn lemma_felt_prime_bound()
    ensures
        felt_prime() < pow2(252),
{
    vstd::arithmetic::power2::lemma_pow2_adds(5, 192);
    vstd::arithmetic::power2::lemma_pow2_adds(251, 1);
    vstd::arithmetic::power2::lemma2_to64();
    assert(17 * pow2(192) < 32 * pow2(192)) by {
        vstd::arithmetic::power2::lemma_pow2_pos(192);
        vstd::arithmetic::mul::lemma_mul_strict_inequality(17, 32, pow2(192) as int);
    }
    assert(32 * pow2(192) == pow2(5) * pow2(192));
    crate::ir::lemma_pow2_le(197, 250);
    crate::ir::lemma_pow2_le(0, 250);
    assert(pow2(251) + pow2(251) == pow2(252));
    assert(pow2(250) + pow2(250) <= pow2(251)) by {
        vstd::arithmetic::power2::lemma_pow2_adds(250, 1);
    }
}

/// The prime modulus, as a value.
pub fn make_felt_prime() -> (r: num_bigint::BigUint)
    ensures
        big(r) == felt_prime(),
{
    let hi = big_pow2(251);
    let mid = big_mul(&big_from_u128(17), &big_pow2(192));
    let lo = big_from_u128(1);
    big_add(&big_add(&hi, &mid), &lo)
}

/// A native memory layout: size and alignment in bytes.
#[derive(Clone, Copy, Debug, PartialEq, Eq, Structural)]
pub struct Layout {
    pub size: usize,
    pub align: usize,
}

/// `n` rounded up to the next multiple of `a`.
pub open spec fn round_up(n: nat, a: nat) -> nat {
    (n + (a - (n as int) % (a as int)) % (a as int)) as nat
}

pub proof fn lemma_round_up(n: nat, a: nat)
    requires
        a >= 1,
    ensures
        round_up(n, a) >= n,
        round_up(n, a) % a == 0,
        round_up(n, a) < n + a,
{
    let ai = a as int;
    let ni = n as int;
    vstd::arithmetic::div_mod::lemma_mod_bound(ni, ai);
    vstd::arithmetic::div_mod::lemma_mod_bound(ai - ni % ai, ai);
    if ni % ai == 0 {
        vstd::arithmetic::div_mod::lemma_mod_self_0(ai);
        assert((ai - 0int) % ai == 0);
        assert(round_up(n, a) == n);
    } else {
        vstd::arithmetic::div_mod::lemma_small_mod((ai - ni % ai) as nat, a);
        assert(round_up(n, a) == n + ai - ni % ai);
        assert((ni + (ai - ni % ai)) % ai == 0) by {
            vstd::arithmetic::div_mod::lemma_add_mod_noop(ni, ai - ni % ai, ai);
            vstd::arithmetic::div_mod::lemma_small_mod((ai - ni % ai) as nat, a);
            assert(ni % ai + (ai - ni % ai) % ai == ai);
            vstd::arithmetic::div_mod::lemma_mod_self_0(ai);
        }
    }
}

/// Extend a layout by a member: the member sits at the current size rounded
/// up to its alignment; the compound alignment is the larger of the two.
/// Returns the new layout and the member's offset.
pub open spec fn spec_extend(l: (nat, nat), member: (nat, nat)) -> ((nat, nat), nat) {
    let offset = round_up(l.0, member.1);
    ((offset + member.0, if l.1 >= member.1 {
        l.1
    } else {
        member.1
    }), offset)
}

impl Layout {
    pub open spec fn wf(&self) -> bool {
        self.align >= 1
    }

    /// The zero-sized layout.
    pub fn empty() -> (r: Layout)
        ensures
            r.size == 0,
            r.align == 1,
    {
        Layout { size: 0, align: 1 }
    }

    /// Sequential layout extension; fails only when the result no longer
    /// fits the machine's sizes.
    pub fn extend(&self, member: Layout) -> (r: Result<(Layout, usize), Error>)
        requires
            self.wf(),
            member.wf(),
        ensures
            match r {
                Ok((l, offset)) => {
                    &&& l.wf()
                    &&& spec_extend(
                        (self.size as nat, self.align as nat),
                        (member.size as nat, member.align as nat),
                    ) == ((l.size as nat, l.align as nat), offset as nat)
                },
                Err(e) => {
                    &&& e matches Error::LayoutError
                    &&& spec_extend(
                        (self.size as nat, self.align as nat),
                        (member.size as nat, member.align as nat),
                    ).0.0 > usize::MAX
                },
            },
    {
        proof {
            lemma_round_up(self.size as nat, member.align as nat);
        }
        let a = member.align;
        // offset = round_up(self.size, a), computed without overflow.
        let pad = (a - self.size % a) % a;
        if pad > usize::MAX - self.size {
            return Err(Error::LayoutError);
        }
        let offset = self.size + pad;
        if member.size > usize::MAX - offset {
            return Err(Error::LayoutError);
        }
        let size = offset + member.size;
        let align = if self.align >= member.align {
            self.align
        } else {
            member.align
        };
        Ok((Layout { size, align }, offset))
    }
}

/// A concrete type: a node in the closed set of type variants the backend
/// lowers. Composite members are held inline, so that layout and range are
/// pure functions of the type itself.
#[derive(Debug)]
pub enum ConcreteType {
    Felt252,
    Uint8,
    Uint16,
    Uint32,
    Uint64,
    Uint128,
    Sint8,
    Sint16,
    Sint32,
    Sint64,
    Sint128,
    /// A sub-ranged integer, stored in offset representation.
    BoundedInt { range: Range },
    NonZero { inner: Box<ConcreteType> },
    Boxed { inner: Box<ConcreteType> },
    Nullable { inner: Box<ConcreteType> },
    Array { inner: Box<ConcreteType> },
    Struct { members: Vec<ConcreteType> },
    Enum { variants: Vec<ConcreteType> },
    /// The range-check resource counter.
    RangeCheck,
    /// The gas counter.
    GasBuiltin,
    /// The cost table pointer.
    BuiltinCosts,
}

/// The declared numeric range of an integer-like type, as bounds.
pub open spec fn spec_int_range(ty: ConcreteType) -> Option<(int, int)>
    decreases ty,
{
    match ty {
        ConcreteType::Felt252 => Some((0, felt_prime() as int)),
        ConcreteType::Uint8 => Some((0, pow2(8) as int)),
        ConcreteType::Uint16 => Some((0, pow2(16) as int)),
        ConcreteType::Uint32 => Some((0, pow2(32) as int)),
        ConcreteType::Uint64 => Some((0, pow2(64) as int)),
        ConcreteType::Uint128 => Some((0, pow2(128) as int)),
        ConcreteType::Sint8 => Some((-pow2(7), pow2(7) as int)),
        ConcreteType::Sint16 => Some((-pow2(15), pow2(15) as int)),
        ConcreteType::Sint32 => Some((-pow2(31), pow2(31) as int)),
        ConcreteType::Sint64 => Some((-pow2(63), pow2(63) as int)),
        ConcreteType::Sint128 => Some((-pow2(127), pow2(127) as int)),
        ConcreteType::BoundedInt { range } => Some((range.lower.val(), range.upper.val())),
        ConcreteType::NonZero { inner } => spec_int_range(*inner),
        _ => None,
    }
}

/// Whether the type is represented as a zero-based offset into its range
/// (the sub-ranged integer convention).
pub open spec fn spec_is_bounded_int(ty: ConcreteType) -> bool
    decreases ty,
{
    match ty {
        ConcreteType::BoundedInt { .. } => true,
        ConcreteType::NonZero { inner } => spec_is_bounded_int(*inner),
        _ => false,
    }
}

impl ConcreteType {
    /// Well-formed: every range in the type is well-formed.
    pub open spec fn wf(&self) -> bool
        decreases self,
    {
        match self {
            ConcreteType::BoundedInt { range } => range.wf(),
            ConcreteType::NonZero { inner } => inner.wf(),
            ConcreteType::Boxed { inner } => inner.wf(),
            ConcreteType::Nullable { inner } => inner.wf(),
            ConcreteType::Array { inner } => inner.wf(),
            ConcreteType::Struct { members } => forall|i: int|
                0 <= i < members@.len() ==> #[trigger] members@[i].wf(),
            ConcreteType::Enum { variants } => forall|i: int|
                0 <= i < variants@.len() ==> #[trigger] variants@[i].wf(),
            _ => true,
        }
    }

    /// The declared `[lower, upper)` range of an integer-like type; any
    /// other type is a fatal input-program error.
    pub fn integer_range(&self) -> (r: Result<Range, Error>)
        requires
            self.wf(),
        ensures
            match r {
                Ok(rg) => {
                    &&& rg.wf()
                    &&& spec_int_range(*self) == Some((rg.lower.val(), rg.upper.val()))
                },
                Err(e) => {
                    &&& e matches Error::IntegerLikeTypeExpected
                    &&& spec_int_range(*self) is None
                },
            },
        decreases self,
    {
        proof {
            lemma_felt_prime_bound();
            vstd::arithmetic::power2::lemma2_to64();
        }
        match self {
            ConcreteType::Felt252 => {
                let prime = make_felt_prime();
                let r = Range {
                    lower: Signed { neg: false, mag: big_from_u128(0) },
                    upper: Signed { neg: false, mag: prime },
                };
                proof {
                    crate::ir::lemma_pow2_le(252, 0xFFFF_FFFE as nat);
                }
                Ok(r)
            },
            ConcreteType::Uint8 => Ok(Range::of_unsigned_width(8)),
            ConcreteType::Uint16 => Ok(Range::of_unsigned_width(16)),
            ConcreteType::Uint32 => Ok(Range::of_unsigned_width(32)),
            ConcreteType::Uint64 => Ok(Range::of_unsigned_width(64)),
            ConcreteType::Uint128 => Ok(Range::of_unsigned_width(128)),
            ConcreteType::Sint8 => Ok(Range::of_signed_width(8)),
            ConcreteType::Sint16 => Ok(Range::of_signed_width(16)),
            ConcreteType::Sint32 => Ok(Range::of_signed_width(32)),
            ConcreteType::Sint64 => Ok(Range::of_signed_width(64)),
            ConcreteType::Sint128 => Ok(Range::of_signed_width(128)),
            ConcreteType::BoundedInt { range } => Ok(range.copy_range()),
            ConcreteType::NonZero { inner } => inner.integer_range(),
            _ => Err(Error::IntegerLikeTypeExpected),
        }
    }

    /// Whether values of this type use the offset representation.
    pub fn is_bounded_int(&self) -> (r: bool)
        ensures
            r == spec_is_bounded_int(*self),
        decreases self,
    {
        match self {
            ConcreteType::BoundedInt { .. } => true,
            ConcreteType::NonZero { inner } => inner.is_bounded_int(),
            _ => false,
        }
    }

    /// Whether the type is a signed integer; `None` for a type with no
    /// derivable sign.
    pub fn is_integer_signed(&self) -> (r: Option<bool>)
        ensures
            r == spec_is_integer_signed(*self),
        decreases self,
    {
        match self {
            ConcreteType::Felt252 => Some(false),
            ConcreteType::Uint8 => Some(false),
            ConcreteType::Uint16 => Some(false),
            ConcreteType::Uint32 => Some(false),
            ConcreteType::Uint64 => Some(false),
            ConcreteType::Uint128 => Some(false),
            ConcreteType::Sint8 => Some(true),
            ConcreteType::Sint16 => Some(true),
            ConcreteType::Sint32 => Some(true),
            ConcreteType::Sint64 => Some(true),
            ConcreteType::Sint128 => Some(true),
            ConcreteType::BoundedInt { .. } => Some(false),
            ConcreteType::NonZero { inner } => inner.is_integer_signed(),
            _ => None,
        }
    }

    /// The bit width of the register that holds a value of this type, for
    /// integer-like types.
    pub fn integer_width(&self) -> (r: Option<u64>)
        requires
            self.wf(),
        ensures
            r == spec_integer_width(*self),
        decreases self,
    {
        match self {
            ConcreteType::Felt252 => Some(252),
            ConcreteType::Uint8 => Some(8),
            ConcreteType::Uint16 => Some(16),
            ConcreteType::Uint32 => Some(32),
            ConcreteType::Uint64 => Some(64),
            ConcreteType::Uint128 => Some(128),
            ConcreteType::Sint8 => Some(8),
            ConcreteType::Sint16 => Some(16),
            ConcreteType::Sint32 => Some(32),
            ConcreteType::Sint64 => Some(64),
            ConcreteType::Sint128 => Some(128),
            ConcreteType::BoundedInt { range } => {
                let w = range.offset_bit_width();
                proof {
                    crate::utils::lemma_bit_len(range.offset_target());
                    crate::utils::lemma_bit_len_unique(
                        range.offset_target(),
                        w as nat,
                        crate::utils::bit_len(range.offset_target()),
                    );
                }
                Some(w)
            },
            ConcreteType::NonZero { inner } => inner.integer_width(),
            _ => None,
        }
    }
}

/// The sign of an integer-like type.
pub open spec fn spec_is_integer_signed(ty: ConcreteType) -> Option<bool>
    decreases ty,
{
    match ty {
        ConcreteType::Felt252 => Some(false),
        ConcreteType::Uint8 => Some(false),
        ConcreteType::Uint16 => Some(false),
        ConcreteType::Uint32 => Some(false),
        ConcreteType::Uint64 => Some(false),
        ConcreteType::Uint128 => Some(false),
        ConcreteType::Sint8 => Some(true),
        ConcreteType::Sint16 => Some(true),
        ConcreteType::Sint32 => Some(true),
        ConcreteType::Sint64 => Some(true),
        ConcreteType::Sint128 => Some(true),
        ConcreteType::BoundedInt { .. } => Some(false),
        ConcreteType::NonZero { inner } => spec_is_integer_signed(*inner),
        _ => None,
    }
}

/// The register width of an integer-like type: the plain width for machine
/// integers, 252 for field elements, the offset bit width for sub-ranged
/// integers.
pub open spec fn spec_integer_width(ty: ConcreteType) -> Option<u64>
    decreases ty,
{
    match ty {
        ConcreteType::Felt252 => Some(252),
        ConcreteType::Uint8 => Some(8),
        ConcreteType::Uint16 => Some(16),
        ConcreteType::Uint32 => Some(32),
        ConcreteType::Uint64 => Some(64),
        ConcreteType::Uint128 => Some(128),
        ConcreteType::Sint8 => Some(8),
        ConcreteType::Sint16 => Some(16),
        ConcreteType::Sint32 => Some(32),
        ConcreteType::Sint64 => Some(64),
        ConcreteType::Sint128 => Some(128),
        ConcreteType::BoundedInt { range } => Some(
            crate::utils::bit_len(range.offset_target()) as u64,
        ),
        ConcreteType::NonZero { inner } => spec_integer_width(*inner),
        _ => None,
    }
}

} // verus!
