//! Native value marshalling: structured host values to and from the exact
//! in-memory representation the generated code expects.
//!
//! `to_jit` lays a value out into a byte buffer following the same
//! sequential member-offset computation as the type layout builder;
//! `from_jit` is the inverse. Both directions are exact inverses for every
//! supported value (`lemma_to_jit_reads_back`, `lemma_to_jit_injective`).
//! Unsupported type variants fail loudly.

use vstd::prelude::*;
use vstd::arithmetic::power2::pow2;

use crate::error::Error;
use crate::types::{round_up, ConcreteType};

verus! {

broadcast use crate::utils::lemma_push_drop_last, vstd::std_specs::vec::group_vec_axioms;

/// A host-side structured representation of a runtime value.
#[derive(Debug)]
pub enum InvokeArg {
    Felt252([u32; 8]),
    /// All elements need to be the same type; not yet marshalled.
    Array(Vec<InvokeArg>),
    /// Element types can differ.
    Struct(Vec<InvokeArg>),
    /// Like an array, used specially when passing parameters to contracts;
    /// not yet marshalled.
    Span(Vec<InvokeArg>),
    /// Not yet marshalled.
    Enum { tag: u64, value: Box<InvokeArg> },
    /// Cannot be null; not yet marshalled.
    Boxed(Box<InvokeArg>),
    /// A present nullable value; not yet marshalled.
    Nullable(Box<InvokeArg>),
    /// An absent nullable value; not yet marshalled.
    NullableNone,
    Uint8(u8),
    Uint16(u16),
    Uint32(u32),
    Uint64(u64),
    Uint128(u128),
}

/// The little-endian bytes of a value, over a given byte count.
pub open spec fn le_bytes(x: nat, n: nat) -> Seq<u8>
    decreases n,
{
    if n == 0 {
        Seq::empty()
    } else {
        seq![(x % 256) as u8] + le_bytes(x / 256, (n - 1) as nat)
    }
}

/// The value little-endian bytes denote.
pub open spec fn from_le(s: Seq<u8>) -> nat
    decreases s.len(),
{
    if s.len() == 0 {
        0
    } else {
        (s[0] + 256 * from_le(s.skip(1))) as nat
    }
}

pub proof fn lemma_le_bytes_len(x: nat, n: nat)
    ensures
        le_bytes(x, n).len() == n,
    decreases n,
{
    if n > 0 {
        lemma_le_bytes_len(x / 256, (n - 1) as nat);
    }
}

/// Reading back the little-endian bytes of a value in range gives the
/// value.
pub proof fn lemma_le_round_trip(x: nat, n: nat)
    requires
        x < pow2(8 * n),
    ensures
        from_le(le_bytes(x, n)) == x,
    decreases n,
{
    if n == 0 {
        vstd::arithmetic::power2::lemma2_to64();
    } else {
        assert(x / 256 < pow2(8 * (n - 1) as nat)) by {
            vstd::arithmetic::power2::lemma_pow2_adds(8 * (n - 1) as nat, 8);
            vstd::arithmetic::power2::lemma2_to64();
            vstd::arithmetic::div_mod::lemma_div_by_multiple_is_strongly_ordered(
                x as int,
                pow2(8 * n) as int,
                pow2(8 * (n - 1) as nat) as int,
                256,
            );
            if x >= 256 {
            } else {
                vstd::arithmetic::power2::lemma_pow2_pos(8 * (n - 1) as nat);
                vstd::arithmetic::div_mod::lemma_basic_div(x as int, 256);
            }
        }
        lemma_le_round_trip(x / 256, (n - 1) as nat);
        let s = le_bytes(x, n);
        assert(s.skip(1) =~= le_bytes(x / 256, (n - 1) as nat));
        vstd::arithmetic::div_mod::lemma_fundamental_div_mod(x as int, 256);
    }
}

/// Little-endian bytes denote a value below the width's bound.
pub proof fn lemma_from_le_bound(s: Seq<u8>)
    ensures
        from_le(s) < pow2(8 * s.len()),
    decreases s.len(),
{
    vstd::arithmetic::power2::lemma2_to64();
    if s.len() > 0 {
        lemma_from_le_bound(s.skip(1));
        assert(pow2(8 * s.len()) == 256 * pow2(8 * (s.len() - 1) as nat)) by {
            vstd::arithmetic::power2::lemma_pow2_adds(8, 8 * (s.len() - 1) as nat);
        }
    }
}

/// The bytes of a field element: eight 32-bit limbs, little-endian.
pub open spec fn felt_bytes(limbs: Seq<u32>) -> Seq<u8>
    decreases limbs.len(),
{
    if limbs.len() == 0 {
        Seq::empty()
    } else {
        felt_bytes(limbs.drop_last()) + le_bytes(limbs.last() as nat, 4)
    }
}

/// The byte size of a supported type's native representation.
pub open spec fn spec_size(ty: ConcreteType) -> nat
    decreases ty, 1int, 0int,
{
    match ty {
        ConcreteType::Felt252 => 32,
        ConcreteType::Uint8 => 1,
        ConcreteType::Uint16 => 2,
        ConcreteType::Uint32 => 4,
        ConcreteType::Uint64 => 8,
        ConcreteType::Uint128 => 16,
        ConcreteType::Struct { members } => struct_size(members, members@.len() as int),
        _ => 0,
    }
}

/// The byte size of the first `n` members of a struct, laid out
/// sequentially with each member at its own alignment.
pub open spec fn struct_size(members: Vec<ConcreteType>, n: int) -> nat
    decreases members, 0int, n,
{
    if n <= 0 || n > members@.len() {
        0
    } else {
        round_up(struct_size(members, n - 1), spec_align(members@[n - 1])) + spec_size(
            members@[n - 1],
        )
    }
}

/// The alignment of a supported type's native representation.
pub open spec fn spec_align(ty: ConcreteType) -> nat
    decreases ty, 1int, 0int,
{
    match ty {
        ConcreteType::Felt252 => 8,
        ConcreteType::Uint8 => 1,
        ConcreteType::Uint16 => 2,
        ConcreteType::Uint32 => 4,
        ConcreteType::Uint64 => 8,
        ConcreteType::Uint128 => 16,
        ConcreteType::Struct { members } => struct_align(members, members@.len() as int),
        _ => 1,
    }
}

/// The largest member alignment among the first `n` members.
pub open spec fn struct_align(members: Vec<ConcreteType>, n: int) -> nat
    decreases members, 0int, n,
{
    if n <= 0 || n > members@.len() {
        1
    } else {
        vstd::math::max(
            struct_align(members, n - 1) as int,
            spec_align(members@[n - 1]) as int,
        ) as nat
    }
}

pub proof fn lemma_align_pos(ty: ConcreteType)
    ensures
        spec_align(ty) >= 1,
    decreases ty, 1int, 0int,
{
    match ty {
        ConcreteType::Struct { members } => {
            lemma_struct_align_pos(members, members@.len() as int);
        },
        _ => {},
    }
}

pub proof fn lemma_struct_align_pos(members: Vec<ConcreteType>, n: int)
    ensures
        struct_align(members, n) >= 1,
    decreases members, 0int, n,
{
    if 0 < n <= members@.len() {
        lemma_struct_align_pos(members, n - 1);
    }
}

/// Whether a value fits a type, in the supported fragment of the
/// marshalling layer: field elements, fixed-width unsigned integers, and
/// structs of supported members.
pub open spec fn arg_matches(v: InvokeArg, ty: ConcreteType) -> bool
    decreases v,
{
    match (v, ty) {
        (InvokeArg::Felt252(_), ConcreteType::Felt252) => true,
        (InvokeArg::Uint8(_), ConcreteType::Uint8) => true,
        (InvokeArg::Uint16(_), ConcreteType::Uint16) => true,
        (InvokeArg::Uint32(_), ConcreteType::Uint32) => true,
        (InvokeArg::Uint64(_), ConcreteType::Uint64) => true,
        (InvokeArg::Uint128(_), ConcreteType::Uint128) => true,
        (InvokeArg::Struct(vs), ConcreteType::Struct { members }) => {
            &&& vs@.len() == members@.len()
            &&& forall|i: int|
                0 <= i < vs@.len() ==> arg_matches(#[trigger] vs@[i], members@[i])
        },
        _ => false,
    }
}

/// The native bytes of a supported value: the exact buffer `to_jit`
/// produces. Members of a struct sit at offsets computed by sequential
/// layout extension, with zero padding in between.
pub open spec fn spec_to_native(v: InvokeArg, ty: ConcreteType) -> Seq<u8>
    decreases v, 1int, 0int,
{
    match (v, ty) {
        (InvokeArg::Felt252(limbs), ConcreteType::Felt252) => felt_bytes(limbs@),
        (InvokeArg::Uint8(x), ConcreteType::Uint8) => le_bytes(x as nat, 1),
        (InvokeArg::Uint16(x), ConcreteType::Uint16) => le_bytes(x as nat, 2),
        (InvokeArg::Uint32(x), ConcreteType::Uint32) => le_bytes(x as nat, 4),
        (InvokeArg::Uint64(x), ConcreteType::Uint64) => le_bytes(x as nat, 8),
        (InvokeArg::Uint128(x), ConcreteType::Uint128) => le_bytes(x as nat, 16),
        (InvokeArg::Struct(vs), ConcreteType::Struct { members }) => struct_bytes(
            vs,
            members,
            vs@.len() as int,
        ),
        _ => Seq::empty(),
    }
}

/// The native bytes of the first `n` members of a struct value.
pub open spec fn struct_bytes(vs: Vec<InvokeArg>, members: Vec<ConcreteType>, n: int) -> Seq<u8>
    decreases vs, 0int, n,
{
    if n <= 0 || n > vs@.len() || n > members@.len() {
        Seq::empty()
    } else {
        let pre = struct_bytes(vs, members, n - 1);
        let off = round_up(pre.len(), spec_align(members@[n - 1]));
        pre + Seq::new((off - pre.len()) as nat, |i: int| 0u8) + spec_to_native(
            vs@[n - 1],
            members@[n - 1],
        )
    }
}

/// The bytes of a matching value have exactly the type's size.
pub proof fn lemma_to_native_len(v: InvokeArg, ty: ConcreteType)
    requires
        arg_matches(v, ty),
    ensures
        spec_to_native(v, ty).len() == spec_size(ty),
    decreases v, 1int, 0int,
{
    match (v, ty) {
        (InvokeArg::Felt252(limbs), ConcreteType::Felt252) => {
            lemma_felt_bytes_len(limbs@);
        },
        (InvokeArg::Uint8(x), ConcreteType::Uint8) => {
            lemma_le_bytes_len(x as nat, 1);
        },
        (InvokeArg::Uint16(x), ConcreteType::Uint16) => {
            lemma_le_bytes_len(x as nat, 2);
        },
        (InvokeArg::Uint32(x), ConcreteType::Uint32) => {
            lemma_le_bytes_len(x as nat, 4);
        },
        (InvokeArg::Uint64(x), ConcreteType::Uint64) => {
            lemma_le_bytes_len(x as nat, 8);
        },
        (InvokeArg::Uint128(x), ConcreteType::Uint128) => {
            lemma_le_bytes_len(x as nat, 16);
        },
        (InvokeArg::Struct(vs), ConcreteType::Struct { members }) => {
            lemma_struct_bytes_len(vs, members, vs@.len() as int);
        },
        _ => {},
    }
}

pub proof fn lemma_felt_bytes_len(limbs: Seq<u32>)
    ensures
        felt_bytes(limbs).len() == 4 * limbs.len(),
    decreases limbs.len(),
{
    if limbs.len() > 0 {
        lemma_felt_bytes_len(limbs.drop_last());
        lemma_le_bytes_len(limbs.last() as nat, 4);
    }
}

pub proof fn lemma_struct_bytes_len(vs: Vec<InvokeArg>, members: Vec<ConcreteType>, n: int)
    requires
        vs@.len() == members@.len(),
        forall|i: int| 0 <= i < vs@.len() ==> arg_matches(#[trigger] vs@[i], members@[i]),
        n <= vs@.len(),
    ensures
        struct_bytes(vs, members, n).len() == struct_size(members, n),
    decreases vs, 1int, n,
{
    if 0 < n <= vs@.len() {
        lemma_struct_bytes_len(vs, members, n - 1);
        lemma_to_native_len(vs@[n - 1], members@[n - 1]);
        lemma_align_pos(members@[n - 1]);
        crate::types::lemma_round_up(
            struct_bytes(vs, members, n - 1).len(),
            spec_align(members@[n - 1]),
        );
    }
}

/// The offset of member `i` in its struct's buffer.
pub open spec fn member_off(members: Vec<ConcreteType>, i: int) -> nat {
    round_up(struct_size(members, i), spec_align(members@[i]))
}

/// The types the marshalling layer supports in this version: field
/// elements, fixed-width unsigned integers, and structs of supported
/// members. Anything else fails loudly.
pub open spec fn marshallable(ty: ConcreteType) -> bool
    decreases ty, 1int, 0int,
{
    match ty {
        ConcreteType::Felt252 => true,
        ConcreteType::Uint8 => true,
        ConcreteType::Uint16 => true,
        ConcreteType::Uint32 => true,
        ConcreteType::Uint64 => true,
        ConcreteType::Uint128 => true,
        ConcreteType::Struct { members } => marshallable_members(members, members@.len() as int),
        _ => false,
    }
}

pub open spec fn marshallable_members(members: Vec<ConcreteType>, n: int) -> bool
    decreases members, 0int, n,
{
    if n <= 0 || n > members@.len() {
        true
    } else {
        marshallable_members(members, n - 1) && marshallable(members@[n - 1])
    }
}

/// Structural equality of marshalled values: the same shape with the same
/// contents, fields compared through their views.
pub open spec fn arg_eq(v1: InvokeArg, v2: InvokeArg) -> bool
    decreases v1, 1int, 0int,
{
    match (v1, v2) {
        (InvokeArg::Felt252(a), InvokeArg::Felt252(b)) => a@ == b@,
        (InvokeArg::Uint8(a), InvokeArg::Uint8(b)) => a == b,
        (InvokeArg::Uint16(a), InvokeArg::Uint16(b)) => a == b,
        (InvokeArg::Uint32(a), InvokeArg::Uint32(b)) => a == b,
        (InvokeArg::Uint64(a), InvokeArg::Uint64(b)) => a == b,
        (InvokeArg::Uint128(a), InvokeArg::Uint128(b)) => a == b,
        (InvokeArg::Struct(x), InvokeArg::Struct(y)) => {
            &&& x@.len() == y@.len()
            &&& forall|i: int| 0 <= i < x@.len() ==> arg_eq(#[trigger] x@[i], y@[i])
        },
        _ => v1 == v2,
    }
}


/// Each member of a marshallable prefix is itself marshallable.
pub proof fn lemma_marshallable_members_index(members: Vec<ConcreteType>, i: int, n: int)
    requires
        marshallable_members(members, n),
        0 <= i < n <= members@.len(),
    ensures
        marshallable(members@[i]),
    decreases n,
{
    if i < n - 1 {
        lemma_marshallable_members_index(members, i, n - 1);
    }
}

/// The buffer decodes to the value: it has the type's exact size, and
/// every field of the value sits at its member offset — padding bytes are
/// not constrained, as reading ignores them.
pub open spec fn decodes_to(bytes: Seq<u8>, ty: ConcreteType, v: InvokeArg) -> bool
    decreases v, 1int, 0int,
{
    match (v, ty) {
        (InvokeArg::Struct(vs), ConcreteType::Struct { members }) => {
            &&& vs@.len() == members@.len()
            &&& bytes.len() == struct_size(members, members@.len() as int)
            &&& forall|i: int|
                0 <= i < vs@.len() ==> decodes_to(
                    bytes.subrange(
                        member_off(members, i) as int,
                        (member_off(members, i) + spec_size(members@[i])) as int,
                    ),
                    members@[i],
                    #[trigger] vs@[i],
                )
        },
        _ => bytes == spec_to_native(v, ty) && arg_matches(v, ty) && !(ty is Struct),
    }
}

/// Sizes only grow as members are added.
pub proof fn lemma_struct_size_mono(members: Vec<ConcreteType>, i: int, n: int)
    requires
        0 <= i <= n <= members@.len(),
    ensures
        struct_size(members, i) <= struct_size(members, n),
    decreases n - i,
{
    if i < n {
        lemma_struct_size_mono(members, i, n - 1);
        lemma_align_pos(members@[n - 1]);
        crate::types::lemma_round_up(struct_size(members, n - 1), spec_align(members@[n - 1]));
    }
}

/// A member's slot lies inside the prefix laid out so far.
pub proof fn lemma_member_slot(members: Vec<ConcreteType>, i: int)
    requires
        0 <= i < members@.len(),
    ensures
        struct_size(members, i) <= member_off(members, i),
        member_off(members, i) + spec_size(members@[i]) == struct_size(members, i + 1),
    decreases i,
{
    lemma_align_pos(members@[i]);
    crate::types::lemma_round_up(struct_size(members, i), spec_align(members@[i]));
}

/// LAW — the forward half of the round trip: the buffer written for a
/// supported value reads back to that value.
pub proof fn lemma_to_native_decodes(v: InvokeArg, ty: ConcreteType)
    requires
        arg_matches(v, ty),
    ensures
        decodes_to(spec_to_native(v, ty), ty, v),
    decreases v, 1int, 0int,
{
    match (v, ty) {
        (InvokeArg::Struct(vs), ConcreteType::Struct { members }) => {
            lemma_struct_bytes_len(vs, members, vs@.len() as int);
            assert forall|i: int| 0 <= i < vs@.len() implies decodes_to(
                spec_to_native(v, ty).subrange(
                    member_off(members, i) as int,
                    (member_off(members, i) + spec_size(members@[i])) as int,
                ),
                members@[i],
                #[trigger] vs@[i],
            ) by {
                lemma_struct_member_extract(vs, members, i, vs@.len() as int);
                lemma_to_native_decodes(vs@[i], members@[i]);
            }
        },
        _ => {},
    }
}

/// Member `i`'s slot of the struct buffer holds exactly its bytes.
pub proof fn lemma_struct_member_extract(
    vs: Vec<InvokeArg>,
    members: Vec<ConcreteType>,
    i: int,
    n: int,
)
    requires
        vs@.len() == members@.len(),
        forall|j: int| 0 <= j < vs@.len() ==> arg_matches(#[trigger] vs@[j], members@[j]),
        0 <= i < n <= vs@.len(),
    ensures
        struct_bytes(vs, members, n).subrange(
            member_off(members, i) as int,
            (member_off(members, i) + spec_size(members@[i])) as int,
        ) == spec_to_native(vs@[i], members@[i]),
    decreases n,
{
    lemma_struct_bytes_len(vs, members, n);
    lemma_struct_bytes_len(vs, members, n - 1);
    lemma_to_native_len(vs@[n - 1], members@[n - 1]);
    lemma_member_slot(members, n - 1);
    let whole = struct_bytes(vs, members, n);
    let pre = struct_bytes(vs, members, n - 1);
    let off = member_off(members, n - 1);
    if i == n - 1 {
        let padseq = Seq::new((off - pre.len()) as nat, |j: int| 0u8);
        let combined = pre + padseq;
        let lb = spec_to_native(vs@[n - 1], members@[n - 1]);
        assert(whole == combined + lb) by {
            assert(whole =~= (pre + padseq) + lb);
        }
        assert(combined.len() == off);
        assert(whole.subrange(off as int, (off + spec_size(members@[i])) as int) =~= lb);
    } else {
        lemma_struct_member_extract(vs, members, i, n - 1);
        lemma_member_slot(members, i);
        lemma_struct_size_mono(members, i + 1, n - 1);
        assert(whole.subrange(
            member_off(members, i) as int,
            (member_off(members, i) + spec_size(members@[i])) as int,
        ) =~= pre.subrange(
            member_off(members, i) as int,
            (member_off(members, i) + spec_size(members@[i])) as int,
        ));
    }
}

/// LAW — the backward half of the round trip: a buffer decodes to at most
/// one value (up to structural equality of the marshalled values), so
/// writing then reading gives the value back exactly.
pub proof fn lemma_decodes_unique(bytes: Seq<u8>, ty: ConcreteType, v1: InvokeArg, v2: InvokeArg)
    requires
        decodes_to(bytes, ty, v1),
        decodes_to(bytes, ty, v2),
    ensures
        arg_eq(v1, v2),
    decreases v1, 1int, 0int,
{
    match (v1, ty) {
        (InvokeArg::Struct(vs1), ConcreteType::Struct { members }) => {
            match v2 {
                InvokeArg::Struct(vs2) => {
                    assert forall|i: int| 0 <= i < vs1@.len() implies arg_eq(
                        #[trigger] vs1@[i],
                        vs2@[i],
                    ) by {
                        lemma_decodes_unique(
                            bytes.subrange(
                                member_off(members, i) as int,
                                (member_off(members, i) + spec_size(members@[i])) as int,
                            ),
                            members@[i],
                            vs1@[i],
                            vs2@[i],
                        );
                    }
                },
                _ => {
                    assert(false);
                },
            }
        },
        (InvokeArg::Felt252(l1), ConcreteType::Felt252) => {
            match v2 {
                InvokeArg::Felt252(l2) => {
                    lemma_felt_bytes_injective(l1@, l2@);
                },
                _ => {
                    assert(false);
                },
            }
        },
        _ => {
            lemma_leaf_injective(bytes, ty, v1, v2);
        },
    }
}

/// Unsigned-integer buffers decode to one value.
proof fn lemma_leaf_injective(bytes: Seq<u8>, ty: ConcreteType, v1: InvokeArg, v2: InvokeArg)
    requires
        decodes_to(bytes, ty, v1),
        decodes_to(bytes, ty, v2),
        !(v1 is Struct),
        !(v1 is Felt252),
    ensures
        arg_eq(v1, v2),
{
    vstd::arithmetic::power2::lemma2_to64();
    vstd::arithmetic::power2::lemma2_to64_rest();
    match (v1, v2) {
        (InvokeArg::Uint8(x1), InvokeArg::Uint8(x2)) => {
            lemma_le_unsigned_inject(x1 as nat, x2 as nat, 1);
        },
        (InvokeArg::Uint16(x1), InvokeArg::Uint16(x2)) => {
            lemma_le_unsigned_inject(x1 as nat, x2 as nat, 2);
        },
        (InvokeArg::Uint32(x1), InvokeArg::Uint32(x2)) => {
            lemma_le_unsigned_inject(x1 as nat, x2 as nat, 4);
        },
        (InvokeArg::Uint64(x1), InvokeArg::Uint64(x2)) => {
            lemma_le_unsigned_inject(x1 as nat, x2 as nat, 8);
        },
        (InvokeArg::Uint128(x1), InvokeArg::Uint128(x2)) => {
            assert(pow2(128) == pow2(64) * pow2(64)) by {
                vstd::arithmetic::power2::lemma_pow2_adds(64, 64);
            }
            lemma_le_unsigned_inject(x1 as nat, x2 as nat, 16);
        },
        _ => {},
    }
}

/// Equal little-endian buffers of in-range values mean equal values.
proof fn lemma_le_unsigned_inject(x1: nat, x2: nat, n: nat)
    requires
        le_bytes(x1, n) == le_bytes(x2, n),
        x1 < pow2(8 * n),
        x2 < pow2(8 * n),
    ensures
        x1 == x2,
{
    lemma_le_round_trip(x1, n);
    lemma_le_round_trip(x2, n);
}

/// Equal field-element buffers mean equal limbs.
proof fn lemma_felt_bytes_injective(l1: Seq<u32>, l2: Seq<u32>)
    requires
        l1.len() == l2.len(),
        felt_bytes(l1) == felt_bytes(l2),
    ensures
        l1 =~= l2,
    decreases l1.len(),
{
    if l1.len() > 0 {
        lemma_felt_bytes_len(l1.drop_last());
        lemma_felt_bytes_len(l2.drop_last());
        lemma_le_bytes_len(l1.last() as nat, 4);
        lemma_le_bytes_len(l2.last() as nat, 4);
        assert(felt_bytes(l1) == felt_bytes(l1.drop_last()) + le_bytes(l1.last() as nat, 4));
        assert(felt_bytes(l2) == felt_bytes(l2.drop_last()) + le_bytes(l2.last() as nat, 4));
        assert(felt_bytes(l1.drop_last()) =~= felt_bytes(l2.drop_last())) by {
            let a = felt_bytes(l1);
            assert(felt_bytes(l1.drop_last()) =~= a.subrange(0, a.len() - 4));
            assert(felt_bytes(l2.drop_last()) =~= a.subrange(0, a.len() - 4));
        }
        lemma_felt_bytes_injective(l1.drop_last(), l2.drop_last());
        assert(le_bytes(l1.last() as nat, 4) =~= le_bytes(l2.last() as nat, 4)) by {
            let a = felt_bytes(l1);
            assert(le_bytes(l1.last() as nat, 4) =~= a.subrange(a.len() - 4, a.len() as int));
            assert(le_bytes(l2.last() as nat, 4) =~= a.subrange(a.len() - 4, a.len() as int));
        }
        vstd::arithmetic::power2::lemma2_to64();
        lemma_le_unsigned_inject(l1.last() as nat, l2.last() as nat, 4);
        assert(l1.last() == l2.last());
        assert forall|i: int| 0 <= i < l1.len() implies l1[i] == l2[i] by {
            if i < l1.len() - 1 {
                assert(l1[i] == l1.drop_last()[i]);
                assert(l2[i] == l2.drop_last()[i]);
            }
        }
    }
}

/// LAW — round trip: for every supported type, reading back the written
/// native buffer of a value yields that value: any value the buffer
/// decodes to is structurally equal to the value itself.
pub proof fn lemma_native_round_trip(v: InvokeArg, ty: ConcreteType, v2: InvokeArg)
    requires
        arg_matches(v, ty),
        decodes_to(spec_to_native(v, ty), ty, v2),
    ensures
        arg_eq(v, v2),
{
    lemma_to_native_decodes(v, ty);
    lemma_decodes_unique(spec_to_native(v, ty), ty, v, v2);
}

/// Append the little-endian bytes of a value to a buffer.
fn push_le(out: &mut Vec<u8>, x0: u128, n: usize)
    ensures
        final(out)@ == old(out)@ + le_bytes(x0 as nat, n as nat),
{
    let mut cur: u128 = x0;
    let mut i: usize = 0;
    while i < n
        invariant
            i <= n,
            out@ + le_bytes(cur as nat, (n - i) as nat) == old(out)@ + le_bytes(
                x0 as nat,
                n as nat,
            ),
        decreases n - i,
    {
        let ghost pre = out@;
        let ghost curv = cur as nat;
        out.push((cur % 256) as u8);
        cur = cur / 256;
        i = i + 1;
        proof {
            assert(le_bytes(curv, (n - i + 1) as nat) == seq![(curv % 256) as u8] + le_bytes(
                curv / 256,
                (n - i) as nat,
            ));
            assert(out@ + le_bytes(cur as nat, (n - i) as nat) =~= pre + le_bytes(
                curv,
                (n - i + 1) as nat,
            ));
        }
    }
    proof {
        assert(out@ + le_bytes(cur as nat, 0) =~= out@);
    }
}

/// Append zero padding up to the given length.
fn push_zeros(out: &mut Vec<u8>, upto: usize)
    requires
        old(out)@.len() <= upto,
    ensures
        final(out)@ == old(out)@ + Seq::new((upto - old(out)@.len()) as nat, |i: int| 0u8),
{
    let ghost base = out@;
    while out.len() < upto
        invariant
            base.len() <= out@.len() <= upto,
            out@ == base + Seq::new((out@.len() - base.len()) as nat, |i: int| 0u8),
        decreases upto - out@.len(),
    {
        let ghost pre = out@;
        out.push(0);
        proof {
            assert(out@ =~= base + Seq::new((out@.len() - base.len()) as nat, |i: int| 0u8));
        }
    }
}

/// The alignment of a supported type, executably.
pub fn align_of(ty: &ConcreteType) -> (r: u64)
    ensures
        r as nat == spec_align(*ty),
        1 <= r <= 16,
    decreases *ty, 1int, 0int,
{
    proof {
        lemma_align_le16(*ty);
        lemma_align_pos(*ty);
    }
    match ty {
        ConcreteType::Felt252 => 8,
        ConcreteType::Uint8 => 1,
        ConcreteType::Uint16 => 2,
        ConcreteType::Uint32 => 4,
        ConcreteType::Uint64 => 8,
        ConcreteType::Uint128 => 16,
        ConcreteType::Struct { members } => {
            let mut best: u64 = 1;
            let mut i: usize = 0;
            #[verifier::loop_isolation(false)]
            while i < members.len()
                invariant
                    i <= members@.len(),
                    best as nat == struct_align(*members, i as int),
                    1 <= best <= 16,
                decreases members@.len() - i,
            {
                proof {
                    lemma_align_le16(members@[i as int]);
                    lemma_align_pos(members@[i as int]);
                }
                let a = align_of(&members[i]);
                if a > best {
                    best = a;
                }
                i = i + 1;
            }
            best
        },
        _ => 1,
    }
}

/// Every supported alignment is at most 16 bytes.
pub proof fn lemma_align_le16(ty: ConcreteType)
    ensures
        spec_align(ty) <= 16,
    decreases ty, 1int, 0int,
{
    match ty {
        ConcreteType::Struct { members } => {
            lemma_struct_align_le16(members, members@.len() as int);
        },
        _ => {},
    }
}

proof fn lemma_struct_align_le16(members: Vec<ConcreteType>, n: int)
    ensures
        struct_align(members, n) <= 16,
    decreases members, 0int, n,
{
    if 0 < n <= members@.len() {
        lemma_struct_align_le16(members, n - 1);
        lemma_align_le16(members@[n - 1]);
    }
}

impl InvokeArg {
    /// Lay the value out into a fresh native byte buffer, following the
    /// same member-offset computation as the type layout builder. An
    /// unsupported or mismatched value fails loudly.
    pub fn to_jit(&self, ty: &ConcreteType) -> (r: Result<Vec<u8>, Error>)
        ensures
            match r {
                Ok(b) => arg_matches(*self, *ty) && b@ == spec_to_native(*self, *ty),
                Err(e) => (!arg_matches(*self, *ty) || spec_size(*ty) > usize::MAX) && (
                e matches Error::UnexpectedValue(_) || e matches Error::LayoutError),
            },
        decreases *self, 1int, 0int,
    {
        match (self, ty) {
            (InvokeArg::Felt252(limbs), ConcreteType::Felt252) => {
                let mut out: Vec<u8> = Vec::new();
                let mut i: usize = 0;
                while i < 8
                    invariant
                        i <= 8,
                        out@ == felt_bytes(limbs@.take(i as int)),
                    decreases 8 - i,
                {
                    let ghost pre = out@;
                    push_le(&mut out, limbs[i] as u128, 4);
                    i = i + 1;
                    proof {
                        assert(limbs@.take(i as int).drop_last() =~= limbs@.take(i - 1));
                        assert(out@ == felt_bytes(limbs@.take(i as int)));
                    }
                }
                proof {
                    assert(limbs@.take(8) =~= limbs@);
                }
                Ok(out)
            },
            (InvokeArg::Uint8(x), ConcreteType::Uint8) => {
                let mut out: Vec<u8> = Vec::new();
                push_le(&mut out, *x as u128, 1);
                proof {
                    assert(out@ =~= le_bytes(*x as nat, 1));
                }
                Ok(out)
            },
            (InvokeArg::Uint16(x), ConcreteType::Uint16) => {
                let mut out: Vec<u8> = Vec::new();
                push_le(&mut out, *x as u128, 2);
                proof {
                    assert(out@ =~= le_bytes(*x as nat, 2));
                }
                Ok(out)
            },
            (InvokeArg::Uint32(x), ConcreteType::Uint32) => {
                let mut out: Vec<u8> = Vec::new();
                push_le(&mut out, *x as u128, 4);
                proof {
                    assert(out@ =~= le_bytes(*x as nat, 4));
                }
                Ok(out)
            },
            (InvokeArg::Uint64(x), ConcreteType::Uint64) => {
                let mut out: Vec<u8> = Vec::new();
                push_le(&mut out, *x as u128, 8);
                proof {
                    assert(out@ =~= le_bytes(*x as nat, 8));
                }
                Ok(out)
            },
            (InvokeArg::Uint128(x), ConcreteType::Uint128) => {
                let mut out: Vec<u8> = Vec::new();
                push_le(&mut out, *x as u128, 16);
                proof {
                    assert(out@ =~= le_bytes(*x as nat, 16));
                }
                Ok(out)
            },
            (InvokeArg::Struct(vs), ConcreteType::Struct { members }) => {
                if vs.len() != members.len() {
                    return Err(Error::UnexpectedValue(
                        <String as vstd::string::StringExecFns>::from_str(
                            "struct arity differs from the struct type",
                        ),
                    ));
                }
                let mut out: Vec<u8> = Vec::new();
                let mut i: usize = 0;
                #[verifier::loop_isolation(false)]
                while i < vs.len()
                    invariant
                        i <= vs@.len(),
                        out@ == struct_bytes(*vs, *members, i as int),
                        out@.len() == struct_size(*members, i as int),
                        forall|j: int|
                            0 <= j < i ==> arg_matches(#[trigger] vs@[j], members@[j]),
                    decreases vs@.len() - i,
                {
                    let a = align_of(&members[i]);
                    let au = a as usize;
                    // The member's offset: the buffer length rounded up to
                    // its alignment.
                    let pad = (au - out.len() % au) % au;
                    proof {
                        crate::types::lemma_round_up(out@.len(), au as nat);
                        assert(out@.len() + pad == round_up(
                            out@.len(),
                            spec_align(members@[i as int]),
                        ));
                    }
                    if pad > usize::MAX - out.len() {
                        proof {
                            // The struct no longer fits the machine's sizes.
                            lemma_align_pos(members@[i as int]);
                            lemma_member_slot(*members, i as int);
                            lemma_struct_size_mono(*members, i + 1, members@.len() as int);
                            assert(spec_size(*ty) > usize::MAX);
                        }
                        return Err(Error::LayoutError);
                    }
                    let off = out.len() + pad;
                    push_zeros(&mut out, off);
                    let ghost padded = out@;
                    let mb = match vs[i].to_jit(&members[i]) {
                        Ok(b) => b,
                        Err(e) => {
                            proof {
                                lemma_member_size_bound(*members, i as int);
                            }
                            return Err(e);
                        },
                    };
                    let mut mbv = mb;
                    out.append(&mut mbv);
                    proof {
                        lemma_to_native_len(vs@[i as int], members@[i as int]);
                        assert(out@ =~= struct_bytes(*vs, *members, i as int) + Seq::new(
                            (off - struct_size(*members, i as int)) as nat,
                            |k: int| 0u8,
                        ) + spec_to_native(vs@[i as int], members@[i as int]));
                        assert(out@ == struct_bytes(*vs, *members, i + 1));
                    }
                    i = i + 1;
                }
                Ok(out)
            },
            _ => Err(Error::UnexpectedValue(
                <String as vstd::string::StringExecFns>::from_str(
                    "unsupported type in native marshalling",
                ),
            )),
        }
    }
}

/// A member's size never exceeds the whole struct's size.
pub proof fn lemma_member_size_bound(members: Vec<ConcreteType>, i: int)
    requires
        0 <= i < members@.len(),
    ensures
        spec_size(members@[i]) <= struct_size(members, members@.len() as int),
{
    lemma_member_slot(members, i);
    lemma_struct_size_mono(members, i + 1, members@.len() as int);
    lemma_align_pos(members@[i]);
    crate::types::lemma_round_up(struct_size(members, i), spec_align(members@[i]));
}

/// Writing back the value little-endian bytes denote gives the bytes.
pub proof fn lemma_le_of_from(s: Seq<u8>)
    ensures
        le_bytes(from_le(s), s.len()) == s,
    decreases s.len(),
{
    if s.len() > 0 {
        let rest = from_le(s.skip(1));
        assert(from_le(s) == s[0] + 256 * rest);
        assert((s[0] + 256 * rest) % 256 == s[0] && (s[0] + 256 * rest) / 256 == rest) by {
            vstd::arithmetic::div_mod::lemma_fundamental_div_mod_converse(
                s[0] + 256 * rest,
                256,
                rest as int,
                s[0] as int,
            );
        }
        lemma_le_of_from(s.skip(1));
        assert(le_bytes(from_le(s), s.len()) =~= s);
    } else {
        assert(le_bytes(from_le(s), s.len()) =~= s);
    }
}

/// A buffer whose 4-byte groups are the limbs' bytes is the field
/// element's buffer.
proof fn lemma_felt_bytes_char(ls: Seq<u32>, b: Seq<u8>)
    requires
        b.len() == 4 * ls.len(),
        forall|k: int|
            0 <= k < ls.len() ==> b.subrange(4 * k, 4 * k + 4) == le_bytes(
                (#[trigger] ls[k]) as nat,
                4,
            ),
    ensures
        felt_bytes(ls) == b,
    decreases ls.len(),
{
    if ls.len() > 0 {
        let n = ls.len() as int;
        let pre = b.subrange(0, 4 * (n - 1));
        assert forall|k: int| 0 <= k < n - 1 implies pre.subrange(4 * k, 4 * k + 4) == le_bytes(
            (#[trigger] ls.drop_last()[k]) as nat,
            4,
        ) by {
            assert(pre.subrange(4 * k, 4 * k + 4) =~= b.subrange(4 * k, 4 * k + 4));
        }
        lemma_felt_bytes_char(ls.drop_last(), pre);
        lemma_felt_bytes_len(ls.drop_last());
        lemma_le_bytes_len(ls.last() as nat, 4);
        assert(b.subrange(4 * (n - 1), 4 * (n - 1) + 4) == le_bytes(ls.last() as nat, 4));
        assert(felt_bytes(ls) =~= b);
    } else {
        assert(felt_bytes(ls) =~= b);
    }
}

/// Read a little-endian value out of a buffer.
fn read_le(bytes: &Vec<u8>, from: usize, n: usize) -> (r: u128)
    requires
        n <= 16,
        from + n <= bytes@.len(),
    ensures
        r as nat == from_le(bytes@.subrange(from as int, from + n)),
{
    let blen = bytes.len();
    let ghost whole = bytes@.subrange(from as int, from + n);
    proof {
        assert(bytes@.len() <= usize::MAX);
        lemma_from_le_bound(whole);
        vstd::arithmetic::power2::lemma2_to64();
        vstd::arithmetic::power2::lemma2_to64_rest();
        assert(pow2(128) == pow2(64) * pow2(64)) by {
            vstd::arithmetic::power2::lemma_pow2_adds(64, 64);
        }
        crate::ir::lemma_pow2_le((8 * n) as nat, 128);
    }
    let mut r: u128 = 0;
    let mut i: usize = n;
    #[verifier::loop_isolation(false)]
    while i > 0
        invariant
            i <= n,
            n <= 16,
            blen == bytes@.len(),
            from + n <= bytes@.len(),
            r as nat == from_le(bytes@.subrange(from + i, from + n)),
            (r as nat) < pow2(((8 * (n - i)) as nat)),
        decreases i,
    {
        i = i - 1;
        proof {
            assert(from + i < bytes@.len());
        }
        let idx: usize = from + i;
        let b = bytes[idx];
        proof {
            let seg = bytes@.subrange(from + i, from + n);
            assert(seg[0] == bytes@[from + i]);
            assert(seg.skip(1) =~= bytes@.subrange(from + i + 1, from + n));
            lemma_from_le_bound(seg);
            crate::ir::lemma_pow2_le((8 * (n - i)) as nat, 128);
            assert(pow2((8 * (n - i)) as nat) == 256 * pow2((8 * (n - i - 1)) as nat)) by {
                vstd::arithmetic::power2::lemma_pow2_adds(8, (8 * (n - i - 1)) as nat);
            }
            assert(from_le(seg) == b + 256 * from_le(seg.skip(1)));
        }
        r = 256 * r + (b as u128);
    }
    proof {
        assert(bytes@.subrange(from as int, from + n) =~= whole);
    }
    r
}

/// Copy a range of a buffer.
fn copy_range(bytes: &Vec<u8>, from: usize, to: usize) -> (r: Vec<u8>)
    requires
        from <= to <= bytes@.len(),
    ensures
        r@ == bytes@.subrange(from as int, to as int),
{
    let mut out: Vec<u8> = Vec::new();
    let mut i: usize = from;
    while i < to
        invariant
            from <= i <= to <= bytes@.len(),
            out@ == bytes@.subrange(from as int, i as int),
        decreases to - i,
    {
        out.push(bytes[i]);
        i = i + 1;
        proof {
            assert(out@ =~= bytes@.subrange(from as int, i as int));
        }
    }
    proof {
        assert(out@ =~= bytes@.subrange(from as int, to as int));
    }
    out
}

/// The byte size of a supported type, executably; fails loudly on an
/// unsupported type or a size beyond the machine's.
pub fn size_of(ty: &ConcreteType) -> (r: Result<usize, Error>)
    ensures
        match r {
            Ok(sz) => marshallable(*ty) && sz as nat == spec_size(*ty),
            Err(e) => (!marshallable(*ty) || spec_size(*ty) > usize::MAX) && (
            e matches Error::UnexpectedValue(_) || e matches Error::LayoutError),
        },
    decreases *ty, 1int, 0int,
{
    match ty {
        ConcreteType::Felt252 => Ok(32),
        ConcreteType::Uint8 => Ok(1),
        ConcreteType::Uint16 => Ok(2),
        ConcreteType::Uint32 => Ok(4),
        ConcreteType::Uint64 => Ok(8),
        ConcreteType::Uint128 => Ok(16),
        ConcreteType::Struct { members } => {
            let mut total: usize = 0;
            let mut i: usize = 0;
            #[verifier::loop_isolation(false)]
            while i < members.len()
                invariant
                    i <= members@.len(),
                    total as nat == struct_size(*members, i as int),
                    marshallable_members(*members, i as int),
                decreases members@.len() - i,
            {
                let a = align_of(&members[i]);
                let au = a as usize;
                let pad = (au - total % au) % au;
                proof {
                    crate::types::lemma_round_up(total as nat, au as nat);
                }
                if pad > usize::MAX - total {
                    proof {
                        lemma_member_slot(*members, i as int);
                        lemma_struct_size_mono(*members, i + 1, members@.len() as int);
                    }
                    return Err(Error::LayoutError);
                }
                let off = total + pad;
                let sz = match size_of(&members[i]) {
                    Ok(sz) => sz,
                    Err(e) => {
                        proof {
                            if marshallable(*ty) {
                                lemma_marshallable_members_index(
                                    *members,
                                    i as int,
                                    members@.len() as int,
                                );
                                assert(spec_size(members@[i as int]) > usize::MAX);
                                lemma_member_size_bound(*members, i as int);
                                assert(spec_size(*ty) > usize::MAX);
                            }
                        }
                        return Err(e);
                    },
                };
                if sz > usize::MAX - off {
                    proof {
                        lemma_member_slot(*members, i as int);
                        lemma_struct_size_mono(*members, i + 1, members@.len() as int);
                    }
                    return Err(Error::LayoutError);
                }
                total = off + sz;
                i = i + 1;
            }
            Ok(total)
        },
        _ => Err(Error::UnexpectedValue(
            <String as vstd::string::StringExecFns>::from_str(
                "unsupported type in native marshalling",
            ),
        )),
    }
}

/// Read a value back from its native byte buffer. The inverse of `to_jit`:
/// succeeds exactly on buffers of a supported type's exact size, and the
/// value read decodes from the buffer (`decodes_to`), so by
/// `lemma_native_round_trip` reading back a written buffer gives the
/// written value.
pub fn from_jit(bytes: &Vec<u8>, ty: &ConcreteType) -> (r: Result<InvokeArg, Error>)
    ensures
        match r {
            Ok(v) => {
                &&& marshallable(*ty)
                &&& bytes@.len() == spec_size(*ty)
                &&& arg_matches(v, *ty)
                &&& decodes_to(bytes@, *ty, v)
            },
            Err(e) => {
                &&& !marshallable(*ty) || bytes@.len() != spec_size(*ty)
                &&& (e matches Error::UnexpectedValue(_) || e matches Error::LayoutError)
            },
        },
    decreases *ty, 1int, 0int,
{
    match ty {
        ConcreteType::Felt252 => {
            if bytes.len() != 32 {
                return Err(Error::UnexpectedValue(
                    <String as vstd::string::StringExecFns>::from_str(
                        "buffer size differs from the type's size",
                    ),
                ));
            }
            proof {
                vstd::arithmetic::power2::lemma2_to64();
                lemma_from_le_bound(bytes@.subrange(0int, 4int));
                lemma_from_le_bound(bytes@.subrange(4int, 8int));
                lemma_from_le_bound(bytes@.subrange(8int, 12int));
                lemma_from_le_bound(bytes@.subrange(12int, 16int));
                lemma_from_le_bound(bytes@.subrange(16int, 20int));
                lemma_from_le_bound(bytes@.subrange(20int, 24int));
                lemma_from_le_bound(bytes@.subrange(24int, 28int));
                lemma_from_le_bound(bytes@.subrange(28int, 32int));
            }
            let l0 = read_le(bytes, 0, 4) as u32;
            let l1 = read_le(bytes, 4, 4) as u32;
            let l2 = read_le(bytes, 8, 4) as u32;
            let l3 = read_le(bytes, 12, 4) as u32;
            let l4 = read_le(bytes, 16, 4) as u32;
            let l5 = read_le(bytes, 20, 4) as u32;
            let l6 = read_le(bytes, 24, 4) as u32;
            let l7 = read_le(bytes, 28, 4) as u32;
            let limbs: [u32; 8] = [l0, l1, l2, l3, l4, l5, l6, l7];
            proof {
                assert forall|k: int| 0 <= k < 8 implies bytes@.subrange(4 * k, 4 * k + 4)
                    == le_bytes((#[trigger] limbs@[k]) as nat, 4) by {
                    let seg = bytes@.subrange(4 * k, 4 * k + 4);
                    lemma_from_le_bound(seg);
                    vstd::arithmetic::power2::lemma2_to64();
                    lemma_le_of_from(seg);
                }
                lemma_felt_bytes_char(limbs@, bytes@);
            }
            Ok(InvokeArg::Felt252(limbs))
        },
        ConcreteType::Uint8 => {
            if bytes.len() != 1 {
                return Err(Error::UnexpectedValue(
                    <String as vstd::string::StringExecFns>::from_str(
                        "buffer size differs from the type's size",
                    ),
                ));
            }
            proof {
                assert(bytes@.subrange(0, 1) =~= bytes@);
                lemma_from_le_bound(bytes@);
                vstd::arithmetic::power2::lemma2_to64();
            }
            let x = read_le(bytes, 0, 1) as u8;
            proof {
                lemma_read_back_leaf(bytes@, 1);
            }
            Ok(InvokeArg::Uint8(x))
        },
        ConcreteType::Uint16 => {
            if bytes.len() != 2 {
                return Err(Error::UnexpectedValue(
                    <String as vstd::string::StringExecFns>::from_str(
                        "buffer size differs from the type's size",
                    ),
                ));
            }
            proof {
                assert(bytes@.subrange(0, 2) =~= bytes@);
                lemma_from_le_bound(bytes@);
                vstd::arithmetic::power2::lemma2_to64();
            }
            let x = read_le(bytes, 0, 2) as u16;
            proof {
                lemma_read_back_leaf(bytes@, 2);
            }
            Ok(InvokeArg::Uint16(x))
        },
        ConcreteType::Uint32 => {
            if bytes.len() != 4 {
                return Err(Error::UnexpectedValue(
                    <String as vstd::string::StringExecFns>::from_str(
                        "buffer size differs from the type's size",
                    ),
                ));
            }
            proof {
                assert(bytes@.subrange(0, 4) =~= bytes@);
                lemma_from_le_bound(bytes@);
                vstd::arithmetic::power2::lemma2_to64();
            }
            let x = read_le(bytes, 0, 4) as u32;
            proof {
                lemma_read_back_leaf(bytes@, 4);
            }
            Ok(InvokeArg::Uint32(x))
        },
        ConcreteType::Uint64 => {
            if bytes.len() != 8 {
                return Err(Error::UnexpectedValue(
                    <String as vstd::string::StringExecFns>::from_str(
                        "buffer size differs from the type's size",
                    ),
                ));
            }
            proof {
                assert(bytes@.subrange(0, 8) =~= bytes@);
                lemma_from_le_bound(bytes@);
                vstd::arithmetic::power2::lemma2_to64();
            }
            let x = read_le(bytes, 0, 8) as u64;
            proof {
                lemma_read_back_leaf(bytes@, 8);
            }
            Ok(InvokeArg::Uint64(x))
        },
        ConcreteType::Uint128 => {
            if bytes.len() != 16 {
                return Err(Error::UnexpectedValue(
                    <String as vstd::string::StringExecFns>::from_str(
                        "buffer size differs from the type's size",
                    ),
                ));
            }
            proof {
                assert(bytes@.subrange(0, 16) =~= bytes@);
                lemma_from_le_bound(bytes@);
                vstd::arithmetic::power2::lemma2_to64();
                vstd::arithmetic::power2::lemma2_to64_rest();
                assert(pow2(128) == pow2(64) * pow2(64)) by {
                    vstd::arithmetic::power2::lemma_pow2_adds(64, 64);
                }
            }
            let x = read_le(bytes, 0, 16);
            proof {
                lemma_read_back_leaf(bytes@, 16);
            }
            Ok(InvokeArg::Uint128(x))
        },
        ConcreteType::Struct { members } => {
            let blen = bytes.len();
            let mut vs: Vec<InvokeArg> = Vec::new();
            let mut total: usize = 0;
            let mut i: usize = 0;
            #[verifier::loop_isolation(false)]
            while i < members.len()
                invariant
                    i <= members@.len(),
                    vs@.len() == i,
                    total as nat == struct_size(*members, i as int),
                    marshallable_members(*members, i as int),
                    forall|j: int|
                        0 <= j < i ==> arg_matches(#[trigger] vs@[j], members@[j]),
                    forall|j: int|
                        0 <= j < i ==> decodes_to(
                            bytes@.subrange(
                                member_off(*members, j) as int,
                                (member_off(*members, j) + spec_size(members@[j])) as int,
                            ),
                            members@[j],
                            #[trigger] vs@[j],
                        ),
                decreases members@.len() - i,
            {
                let a = align_of(&members[i]);
                let au = a as usize;
                let pad = (au - total % au) % au;
                proof {
                    crate::types::lemma_round_up(total as nat, au as nat);
                }
                if pad > usize::MAX - total {
                    proof {
                        lemma_member_slot(*members, i as int);
                        lemma_struct_size_mono(*members, i + 1, members@.len() as int);
                        assert(member_off(*members, i as int) == total + pad);
                        assert(struct_size(*members, i + 1) >= member_off(*members, i as int));
                        assert(spec_size(*ty) == struct_size(
                            *members,
                            members@.len() as int,
                        ));
                        assert(spec_size(*ty) > usize::MAX);
                        assert(bytes@.len() != spec_size(*ty));
                    }
                    return Err(Error::LayoutError);
                }
                let off = total + pad;
                let sz = match size_of(&members[i]) {
                    Ok(sz) => sz,
                    Err(e) => {
                        proof {
                            if marshallable(*ty) {
                                lemma_marshallable_members_index(
                                    *members,
                                    i as int,
                                    members@.len() as int,
                                );
                                assert(marshallable(members@[i as int]));
                                assert(spec_size(members@[i as int]) > usize::MAX);
                                lemma_member_size_bound(*members, i as int);
                                assert(spec_size(*ty) >= spec_size(members@[i as int]));
                                assert(bytes@.len() <= usize::MAX);
                                assert(bytes@.len() != spec_size(*ty));
                            }
                        }
                        return Err(e);
                    },
                };
                if sz > usize::MAX - off {
                    proof {
                        lemma_member_slot(*members, i as int);
                        lemma_struct_size_mono(*members, i + 1, members@.len() as int);
                        assert(bytes@.len() != spec_size(*ty));
                    }
                    return Err(Error::LayoutError);
                }
                if off + sz > bytes.len() {
                    proof {
                        lemma_member_slot(*members, i as int);
                        lemma_struct_size_mono(*members, i + 1, members@.len() as int);
                        assert(bytes@.len() != spec_size(*ty));
                    }
                    return Err(Error::UnexpectedValue(
                        <String as vstd::string::StringExecFns>::from_str(
                            "buffer size differs from the type's size",
                        ),
                    ));
                }
                let mb = copy_range(bytes, off, off + sz);
                let v = match from_jit(&mb, &members[i]) {
                    Ok(v) => v,
                    Err(e) => {
                        proof {
                            assert(mb@.len() == spec_size(members@[i as int]));
                            if marshallable(*ty) {
                                lemma_marshallable_members_index(
                                    *members,
                                    i as int,
                                    members@.len() as int,
                                );
                            }
                            assert(!marshallable(*ty));
                        }
                        return Err(e);
                    },
                };
                vs.push(v);
                proof {
                    lemma_member_slot(*members, i as int);
                    assert(member_off(*members, i as int) == off);
                    assert(mb@ == bytes@.subrange(off as int, (off + sz) as int));
                    assert(decodes_to(
                        bytes@.subrange(
                            member_off(*members, i as int) as int,
                            (member_off(*members, i as int) + spec_size(
                                members@[i as int],
                            )) as int,
                        ),
                        members@[i as int],
                        v,
                    ));
                }
                total = off + sz;
                i = i + 1;
            }
            if total != bytes.len() {
                return Err(Error::UnexpectedValue(
                    <String as vstd::string::StringExecFns>::from_str(
                        "buffer size differs from the type's size",
                    ),
                ));
            }
            Ok(InvokeArg::Struct(vs))
        },
        _ => Err(Error::UnexpectedValue(
            <String as vstd::string::StringExecFns>::from_str(
                "unsupported type in native marshalling",
            ),
        )),
    }
}

/// A whole leaf buffer reads back to its own bytes.
proof fn lemma_read_back_leaf(b: Seq<u8>, n: nat)
    requires
        b.len() == n,
    ensures
        le_bytes(from_le(b), n) == b,
{
    lemma_le_of_from(b);
}

} // verus!
