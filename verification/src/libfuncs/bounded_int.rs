//! Sub-ranged ("bounded") integer libfuncs: the bounded-range arithmetic
//! algorithm and its companions.
//!
//! Bounded arithmetic works in a computation range covering the operands'
//! and the destination's ranges: each operand is extended to the
//! computation width, re-offset to a common zero point, the raw operation
//! is performed, and the result is re-offset and truncated to the
//! destination's offset representation.

use vstd::prelude::*;
use vstd::arithmetic::power2::pow2;

use crate::bignum::{big, Signed};
use crate::error::Error;
use crate::ir::{args_fit, eval_body_from, vals_after, FuncBody, Op, Outcome, Terminator};
use crate::libfuncs::{
    args2, const_enc, enc_ok, extend_and_offset, lemma_mod_mod_pow2, lemma_prep_embeds,
    lemma_ranges_enc_ok, lemma_vals_after_prefix, nat_width_of, operand_enc, prep_sem, sub_const,
    trunc_to,
};
use crate::metadata::MetadataStorage;
use crate::program::{
    BoundedIntConcreteLibfunc, BoundedIntConstrainConcreteLibfunc, BoundedIntDivRemConcreteLibfunc,
    BoundedIntTrimConcreteLibfunc, LibfuncSignature, ProgramRegistry, SignatureOnlyConcreteLibfunc,
};
use crate::types::{spec_int_range, spec_is_bounded_int, ConcreteType};
use crate::utils::bit_len;

verus! {

broadcast use crate::utils::lemma_push_drop_last;

/// The three operations sharing the bounded-range arithmetic shape.
#[derive(Clone, Copy, Debug, PartialEq, Eq, Structural)]
pub enum ArithKind {
    Add,
    Sub,
    Mul,
}

/// The signature shape of a two-operand, one-branch, one-output libfunc,
/// with every type resolvable and integer-like.
pub open spec fn arith_sig_ok(registry: ProgramRegistry, sig: LibfuncSignature) -> bool {
    &&& sig.param_signatures@.len() == 2
    &&& sig.branch_signatures@.len() == 1
    &&& sig.branch_signatures@[0].vars@.len() == 1
    &&& sig.param_signatures@[0] < registry.types@.len()
    &&& sig.param_signatures@[1] < registry.types@.len()
    &&& sig.branch_signatures@[0].vars@[0] < registry.types@.len()
    &&& spec_int_range(arith_lhs_ty(registry, sig)) is Some
    &&& spec_int_range(arith_rhs_ty(registry, sig)) is Some
    &&& spec_int_range(arith_dst_ty(registry, sig)) is Some
}

pub open spec fn arith_lhs_ty(registry: ProgramRegistry, sig: LibfuncSignature) -> ConcreteType {
    registry.types@[sig.param_signatures@[0] as int]
}

pub open spec fn arith_rhs_ty(registry: ProgramRegistry, sig: LibfuncSignature) -> ConcreteType {
    registry.types@[sig.param_signatures@[1] as int]
}

pub open spec fn arith_dst_ty(registry: ProgramRegistry, sig: LibfuncSignature) -> ConcreteType {
    registry.types@[sig.branch_signatures@[0].vars@[0] as int]
}

/// The entry block an arithmetic builder expects: fresh, with one parameter
/// per operand at its natural width.
pub open spec fn arith_entry_ok(
    registry: ProgramRegistry,
    sig: LibfuncSignature,
    body: FuncBody,
    entry: int,
) -> bool {
    &&& 0 <= entry < body.blocks@.len()
    &&& body.blocks@[entry].ops@.len() == 0
    &&& body.blocks@[entry].term is None
    &&& body.blocks@[entry].params@.len() == 2
    &&& body.blocks@[entry].params@[0] as nat == nat_width_of(arith_lhs_ty(registry, sig))
    &&& body.blocks@[entry].params@[1] as nat == nat_width_of(arith_rhs_ty(registry, sig))
}

/// The lower bound of the computation range: the smallest of the ranges'
/// lower bounds, forced to include zero for multiplication.
pub open spec fn arith_compute_lower(kind: ArithKind, l1: int, l2: int, ld: int) -> int {
    let m = vstd::math::min(vstd::math::min(l1, l2), ld);
    if kind is Mul {
        vstd::math::min(m, 0)
    } else {
        m
    }
}

/// The constant added to an operand's register during preparation.
pub open spec fn arith_prep_k(kind: ArithKind, bounded: bool, l: int, cl: int) -> int {
    if kind is Mul {
        if bounded {
            l
        } else {
            0
        }
    } else {
        if bounded {
            l - cl
        } else {
            l
        }
    }
}

/// The operand value a prepared register represents (modulo the computation
/// width): the offset representation plus the preparation constant.
pub open spec fn arith_prep_t(kind: ArithKind, bounded: bool, l: int, cl: int, x: int) -> int {
    (if bounded {
        x - l
    } else {
        x
    }) + arith_prep_k(kind, bounded, l, cl)
}

/// The constant subtracted from the raw result to reach the destination's
/// zero point.
pub open spec fn arith_res_off(kind: ArithKind, ld: int, cl: int) -> int {
    match kind {
        ArithKind::Add => ld - cl,
        ArithKind::Sub => ld,
        ArithKind::Mul => vstd::math::max(ld, cl),
    }
}

/// The value bounded arithmetic leaves in the destination register, for
/// operand values `a` and `b`.
pub open spec fn bounded_arith_sem(
    kind: ArithKind,
    registry: ProgramRegistry,
    sig: LibfuncSignature,
    a: int,
    b: int,
) -> nat {
    let lu1 = spec_int_range(arith_lhs_ty(registry, sig)).unwrap();
    let lu2 = spec_int_range(arith_rhs_ty(registry, sig)).unwrap();
    let lud = spec_int_range(arith_dst_ty(registry, sig)).unwrap();
    let cl = arith_compute_lower(kind, lu1.0, lu2.0, lud.0);
    let t1 = arith_prep_t(kind, spec_is_bounded_int(arith_lhs_ty(registry, sig)), lu1.0, cl, a);
    let t2 = arith_prep_t(kind, spec_is_bounded_int(arith_rhs_ty(registry, sig)), lu2.0, cl, b);
    let raw = match kind {
        ArithKind::Add => t1 + t2,
        ArithKind::Sub => t1 - t2,
        ArithKind::Mul => t1 * t2,
    };
    let wd = bit_len((lud.1 - lud.0 - 1) as nat);
    ((raw - arith_res_off(kind, lud.0, cl)) % (pow2(wd) as int)) as nat
}

/// Both operand values lie in their declared ranges.
pub open spec fn arith_inputs_ok(
    registry: ProgramRegistry,
    sig: LibfuncSignature,
    a: int,
    b: int,
) -> bool {
    let lu1 = spec_int_range(arith_lhs_ty(registry, sig)).unwrap();
    let lu2 = spec_int_range(arith_rhs_ty(registry, sig)).unwrap();
    lu1.0 <= a < lu1.1 && lu2.0 <= b < lu2.1
}

/// The block arguments encoding an operand pair.
pub open spec fn arith_args(
    registry: ProgramRegistry,
    sig: LibfuncSignature,
    a: int,
    b: int,
) -> Seq<nat> {
    let lu1 = spec_int_range(arith_lhs_ty(registry, sig)).unwrap();
    let lu2 = spec_int_range(arith_rhs_ty(registry, sig)).unwrap();
    args2(
        operand_enc(
            spec_is_bounded_int(arith_lhs_ty(registry, sig)),
            lu1.0,
            nat_width_of(arith_lhs_ty(registry, sig)),
            a,
        ),
        operand_enc(
            spec_is_bounded_int(arith_rhs_ty(registry, sig)),
            lu2.0,
            nat_width_of(arith_rhs_ty(registry, sig)),
            b,
        ),
    )
}

/// What a successful bounded-arithmetic lowering guarantees: the entry
/// block is terminated with its single success branch, and evaluating it on
/// any in-range operand pair branches out with exactly the value
/// `bounded_arith_sem` describes.
pub open spec fn arith_postcond(
    kind: ArithKind,
    registry: ProgramRegistry,
    sig: LibfuncSignature,
    oldb: FuncBody,
    newb: FuncBody,
    entry: int,
) -> bool {
    &&& newb.blocks@ == oldb.blocks@.update(entry, newb.blocks@[entry])
    &&& newb.blocks@[entry].params == oldb.blocks@[entry].params
    &&& newb.blocks@[entry].term matches Some(Terminator::BranchOut { branch, args }) && branch
        == 0 && args@.len() == sig.branch_signatures@[0].vars@.len()
    &&& forall|a: int, b: int, fuel: nat|
        arith_inputs_ok(registry, sig, a, b) && fuel >= 1 ==> #[trigger] eval_body_from(
            newb,
            entry,
            arith_args(registry, sig, a, b),
            fuel,
        ) == (Outcome::Branches {
            branch: 0nat,
            vals: seq![bounded_arith_sem(kind, registry, sig, a, b)],
        })
}

/// Generate the operations for the bounded addition libfunc.
pub fn build_add(
    registry: &ProgramRegistry,
    body: &mut FuncBody,
    entry: usize,
    metadata: &mut MetadataStorage,
    info: &SignatureOnlyConcreteLibfunc,
) -> (res: Result<(), Error>)
    requires
        registry.wf(),
        arith_sig_ok(*registry, info.signature),
        arith_entry_ok(*registry, info.signature, *old(body), entry as int),
    ensures
        res is Ok,
        arith_postcond(
            ArithKind::Add,
            *registry,
            info.signature,
            *old(body),
            *final(body),
            entry as int,
        ),
{
    build_arith_op(ArithKind::Add, registry, body, entry, metadata, info)
}

/// Generate the operations for the bounded subtraction libfunc.
pub fn build_sub(
    registry: &ProgramRegistry,
    body: &mut FuncBody,
    entry: usize,
    metadata: &mut MetadataStorage,
    info: &SignatureOnlyConcreteLibfunc,
) -> (res: Result<(), Error>)
    requires
        registry.wf(),
        arith_sig_ok(*registry, info.signature),
        arith_entry_ok(*registry, info.signature, *old(body), entry as int),
    ensures
        res is Ok,
        arith_postcond(
            ArithKind::Sub,
            *registry,
            info.signature,
            *old(body),
            *final(body),
            entry as int,
        ),
{
    build_arith_op(ArithKind::Sub, registry, body, entry, metadata, info)
}

/// Generate the operations for the bounded multiplication libfunc.
pub fn build_mul(
    registry: &ProgramRegistry,
    body: &mut FuncBody,
    entry: usize,
    metadata: &mut MetadataStorage,
    info: &SignatureOnlyConcreteLibfunc,
) -> (res: Result<(), Error>)
    requires
        registry.wf(),
        arith_sig_ok(*registry, info.signature),
        arith_entry_ok(*registry, info.signature, *old(body), entry as int),
    ensures
        res is Ok,
        arith_postcond(
            ArithKind::Mul,
            *registry,
            info.signature,
            *old(body),
            *final(body),
            entry as int,
        ),
{
    build_arith_op(ArithKind::Mul, registry, body, entry, metadata, info)
}

/// The shared emission of the three bounded arithmetic libfuncs.
#[verifier::rlimit(100)]
fn build_arith_op(
    kind: ArithKind,
    registry: &ProgramRegistry,
    body: &mut FuncBody,
    entry: usize,
    _metadata: &mut MetadataStorage,
    info: &SignatureOnlyConcreteLibfunc,
) -> (res: Result<(), Error>)
    requires
        registry.wf(),
        arith_sig_ok(*registry, info.signature),
        arith_entry_ok(*registry, info.signature, *old(body), entry as int),
    ensures
        res is Ok,
        arith_postcond(kind, *registry, info.signature, *old(body), *final(body), entry as int),
{
    let ghost sig = info.signature;
    let ghost params = body.blocks@[entry as int].params@;
    let ghost lhs_ty_s = arith_lhs_ty(*registry, sig);
    let ghost rhs_ty_s = arith_rhs_ty(*registry, sig);
    let ghost dst_ty_s = arith_dst_ty(*registry, sig);
    let ghost lu1 = spec_int_range(lhs_ty_s).unwrap();
    let ghost lu2 = spec_int_range(rhs_ty_s).unwrap();
    let ghost lud = spec_int_range(dst_ty_s).unwrap();

    // Extract the ranges for the operands and the result type.
    let lhs_ty = match registry.get_type(info.signature.param_signatures[0]) {
        Ok(t) => t,
        Err(e) => {
            return Err(e);
        },
    };
    let rhs_ty = match registry.get_type(info.signature.param_signatures[1]) {
        Ok(t) => t,
        Err(e) => {
            return Err(e);
        },
    };
    let dst_ty = match registry.get_type(info.signature.branch_signatures[0].vars[0]) {
        Ok(t) => t,
        Err(e) => {
            return Err(e);
        },
    };
    let lhs_range = match lhs_ty.integer_range() {
        Ok(r) => r,
        Err(e) => {
            return Err(e);
        },
    };
    let rhs_range = match rhs_ty.integer_range() {
        Ok(r) => r,
        Err(e) => {
            return Err(e);
        },
    };
    let dst_range = match dst_ty.integer_range() {
        Ok(r) => r,
        Err(e) => {
            return Err(e);
        },
    };

    let lhs_bounded = lhs_ty.is_bounded_int();
    let rhs_bounded = rhs_ty.is_bounded_int();

    // The operands' natural register widths.
    let lhs_width: u64 = if lhs_bounded {
        lhs_range.offset_bit_width()
    } else {
        lhs_range.zero_based_bit_width()
    };
    let rhs_width: u64 = if rhs_bounded {
        rhs_range.offset_bit_width()
    } else {
        rhs_range.zero_based_bit_width()
    };
    proof {
        lemma_exec_width(lhs_ty_s, lhs_range, lhs_bounded, lhs_width);
        lemma_exec_width(rhs_ty_s, rhs_range, rhs_bounded, rhs_width);
    }

    // Calculate the computation range; multiplication forcibly includes 0.
    let m3 = lhs_range.lower.min_val(&rhs_range.lower).min_val(&dst_range.lower);
    let compute_lower = if matches!(kind, ArithKind::Mul) {
        let zero = Signed::from_u128(0);
        m3.min_val(&zero)
    } else {
        m3
    };
    let compute_upper = lhs_range.upper.max_val(&rhs_range.upper).max_val(&dst_range.upper);
    let compute_range = crate::utils::Range { lower: compute_lower, upper: compute_upper };
    let ghost cl = arith_compute_lower(kind, lu1.0, lu2.0, lud.0);
    proof {
        assert(compute_range.lower.val() == cl);
        assert(compute_range.wf());
    }
    // The working width: wide enough for every re-offset operand, zero-based
    // for the absolute values multiplication works on.
    let compute_w = if matches!(kind, ArithKind::Mul) {
        compute_range.zero_based_bit_width()
    } else {
        compute_range.offset_bit_width()
    };
    let dst_w = dst_range.offset_bit_width();
    proof {
        let ghost ct = if kind is Mul {
            compute_range.zero_based_target()
        } else {
            compute_range.offset_target()
        };
        crate::utils::lemma_bit_len(ct);
        crate::utils::lemma_bit_len_unique(ct, compute_w as nat, bit_len(ct));
        crate::utils::lemma_bit_len(dst_range.offset_target());
        crate::utils::lemma_bit_len_unique(
            dst_range.offset_target(),
            dst_w as nat,
            bit_len(dst_range.offset_target()),
        );
        // The computation width covers both operands and the destination.
        if !lhs_bounded {
            lemma_ranges_enc_ok(lhs_ty_s);
        }
        if !rhs_bounded {
            lemma_ranges_enc_ok(rhs_ty_s);
        }
        crate::utils::lemma_bit_len_monotone(
            if lhs_bounded {
                lhs_range.offset_target()
            } else {
                lhs_range.zero_based_target()
            },
            lhs_width as nat,
            ct,
            compute_w as nat,
        );
        crate::utils::lemma_bit_len_monotone(
            if rhs_bounded {
                rhs_range.offset_target()
            } else {
                rhs_range.zero_based_target()
            },
            rhs_width as nat,
            ct,
            compute_w as nat,
        );
        crate::utils::lemma_bit_len_monotone(
            dst_range.offset_target(),
            dst_w as nat,
            ct,
            compute_w as nat,
        );
        // The computation width stays inside the engine's width fields.
        assert(ct < pow2(0xFFFF_FFFF as nat)) by {
            assert(ct < 2 * crate::utils::bound_limit());
            assert(2 * pow2(0xFFFF_FFFE as nat) == pow2(0xFFFF_FFFF as nat)) by {
                vstd::arithmetic::power2::lemma_pow2_adds(0xFFFF_FFFE as nat, 1);
                vstd::arithmetic::power2::lemma2_to64();
            }
        }
        crate::utils::lemma_width_in_limit(ct, compute_w as nat);
    }

    // Zero-extend operands into the computation range.
    if compute_w < lhs_width {
        return Err(Error::NativeAssert(crate::error::panic::NativeAssertError::new(
            <String as vstd::string::StringExecFns>::from_str(
                "the lhs bit width must be less or equal than the compute range's",
            ),
        )));
    }
    if compute_w < rhs_width {
        return Err(Error::NativeAssert(crate::error::panic::NativeAssertError::new(
            <String as vstd::string::StringExecFns>::from_str(
                "the rhs bit width must be less or equal than the compute range's",
            ),
        )));
    }

    // Offset the operands so that they are compatible with the operation.
    let lhs_offset = if matches!(kind, ArithKind::Mul) {
        if lhs_bounded {
            lhs_range.lower.copy_val()
        } else {
            Signed::from_u128(0)
        }
    } else {
        if lhs_bounded {
            lhs_range.lower.sub_val(&compute_range.lower)
        } else {
            lhs_range.lower.copy_val()
        }
    };
    let lhs_sign_ext = !lhs_bounded && lhs_range.lower.is_neg();
    let r1 = extend_and_offset(body, entry, 0, lhs_width, compute_w, lhs_sign_ext, &lhs_offset);
    let ghost body_a = *body;

    let rhs_offset = if matches!(kind, ArithKind::Mul) {
        if rhs_bounded {
            rhs_range.lower.copy_val()
        } else {
            Signed::from_u128(0)
        }
    } else {
        if rhs_bounded {
            rhs_range.lower.sub_val(&compute_range.lower)
        } else {
            rhs_range.lower.copy_val()
        }
    };
    let rhs_sign_ext = !rhs_bounded && rhs_range.lower.is_neg();
    proof {
        lemma_vals_after_prefix(
            Seq::<nat>::empty(),
            params,
            old(body).blocks@[entry as int].ops@,
            body_a.blocks@[entry as int].ops@,
        );
        crate::ir::lemma_widths_after_len(params, body_a.blocks@[entry as int].ops@);
    }
    let r2 = extend_and_offset(body, entry, 1, rhs_width, compute_w, rhs_sign_ext, &rhs_offset);
    let ghost body_b = *body;
    proof {
        // Widths of earlier values survive the appended operations.
        lemma_vals_after_prefix(
            Seq::<nat>::empty(),
            params,
            body_a.blocks@[entry as int].ops@,
            body_b.blocks@[entry as int].ops@,
        );
        crate::ir::lemma_widths_after_len(params, body_a.blocks@[entry as int].ops@);
        crate::ir::lemma_widths_after_len(params, body_b.blocks@[entry as int].ops@);
    }

    // Compute the operation.
    let r_sum = match kind {
        ArithKind::Add => body.push_op(entry, Op::AddI { a: r1, b: r2 }),
        ArithKind::Sub => body.push_op(entry, Op::SubI { a: r1, b: r2 }),
        ArithKind::Mul => body.push_op(entry, Op::MulI { a: r1, b: r2 }),
    };
    let ghost body_c = *body;

    // Offset and truncate the result to the output type.
    let res_offset = match kind {
        ArithKind::Add => dst_range.lower.sub_val(&compute_range.lower),
        ArithKind::Sub => dst_range.lower.copy_val(),
        ArithKind::Mul => dst_range.lower.max_val(&compute_range.lower),
    };
    let r_res = sub_const(body, entry, r_sum, compute_w, &res_offset);
    let ghost body_d = *body;

    let r_tr = trunc_to(body, entry, r_res, compute_w, dst_w);
    let ghost body_e = *body;

    let mut out_args: Vec<usize> = Vec::new();
    out_args.push(r_tr);
    body.set_term(entry, Terminator::BranchOut { branch: 0, args: out_args });

    proof {
        let fb = *body;
        assert(fb.blocks@ =~= old(body).blocks@.update(entry as int, fb.blocks@[entry as int]));
        assert forall|a: int, b: int, fuel: nat|
            arith_inputs_ok(*registry, sig, a, b) && fuel >= 1 implies #[trigger] eval_body_from(
            fb,
            entry as int,
            arith_args(*registry, sig, a, b),
            fuel,
        ) == (Outcome::Branches {
            branch: 0nat,
            vals: seq![bounded_arith_sem(kind, *registry, sig, a, b)],
        }) by {
            lemma_arith_eval(
                kind,
                *registry,
                sig,
                fb,
                entry as int,
                params,
                *old(body),
                body_a,
                body_b,
                body_c,
                body_d,
                body_e,
                r1,
                r2,
                r_sum,
                r_res,
                r_tr,
                lhs_bounded,
                rhs_bounded,
                lhs_sign_ext,
                rhs_sign_ext,
                lhs_width,
                rhs_width,
                compute_w,
                dst_w,
                lhs_offset.val(),
                rhs_offset.val(),
                res_offset.val(),
                out_args@,
                a,
                b,
                fuel,
            );
        }
    }
    Ok(())
}

/// The widths the builders compute match the natural widths of the types.
proof fn lemma_exec_width(ty: ConcreteType, rg: crate::utils::Range, bounded: bool, w: u64)
    requires
        spec_int_range(ty) is Some,
        bounded == spec_is_bounded_int(ty),
        rg.lower.val() == spec_int_range(ty).unwrap().0,
        rg.upper.val() == spec_int_range(ty).unwrap().1,
        rg.lower.val() < rg.upper.val(),
        if bounded {
            crate::utils::is_bit_len(rg.offset_target(), w as nat)
        } else {
            crate::utils::is_bit_len(rg.zero_based_target(), w as nat)
        },
    ensures
        w as nat == nat_width_of(ty),
{
    if bounded {
        crate::utils::lemma_bit_len(rg.offset_target());
        crate::utils::lemma_bit_len_unique(
            rg.offset_target(),
            w as nat,
            bit_len(rg.offset_target()),
        );
    } else {
        crate::utils::lemma_bit_len(rg.zero_based_target());
        crate::utils::lemma_bit_len_unique(
            rg.zero_based_target(),
            w as nat,
            bit_len(rg.zero_based_target()),
        );
    }
}

/// Evaluating the emitted arithmetic sequence on encoded in-range operands
/// yields the bounded-arithmetic semantics. The hypotheses record exactly
/// what the emission steps guarantee.
#[verifier::rlimit(100)]
#[verifier::spinoff_prover]
proof fn lemma_arith_eval(
    kind: ArithKind,
    registry: ProgramRegistry,
    sig: LibfuncSignature,
    fb: FuncBody,
    entry: int,
    params: Seq<u64>,
    body_0: FuncBody,
    body_a: FuncBody,
    body_b: FuncBody,
    body_c: FuncBody,
    body_d: FuncBody,
    body_e: FuncBody,
    r1: usize,
    r2: usize,
    r_sum: usize,
    r_res: usize,
    r_tr: usize,
    lhs_bounded: bool,
    rhs_bounded: bool,
    lhs_sign_ext: bool,
    rhs_sign_ext: bool,
    lhs_width: u64,
    rhs_width: u64,
    compute_w: u64,
    dst_w: u64,
    lhs_off: int,
    rhs_off: int,
    res_off: int,
    oargs: Seq<usize>,
    a: int,
    b: int,
    fuel: nat,
)
    requires
        arith_sig_ok(registry, sig),
        arith_inputs_ok(registry, sig, a, b),
        fuel >= 1,
        lhs_bounded == spec_is_bounded_int(arith_lhs_ty(registry, sig)),
        rhs_bounded == spec_is_bounded_int(arith_rhs_ty(registry, sig)),
        lhs_width as nat == nat_width_of(arith_lhs_ty(registry, sig)),
        rhs_width as nat == nat_width_of(arith_rhs_ty(registry, sig)),
        lhs_width <= compute_w,
        rhs_width <= compute_w,
        dst_w <= compute_w,
        ({
            let lu1 = spec_int_range(arith_lhs_ty(registry, sig)).unwrap();
            let lu2 = spec_int_range(arith_rhs_ty(registry, sig)).unwrap();
            let lud = spec_int_range(arith_dst_ty(registry, sig)).unwrap();
            let cl = arith_compute_lower(kind, lu1.0, lu2.0, lud.0);
            &&& (!lhs_bounded ==> enc_ok(lu1.0, lu1.1, lhs_width as nat) && lhs_sign_ext == (
                lu1.0 < 0))
            &&& (!rhs_bounded ==> enc_ok(lu2.0, lu2.1, rhs_width as nat) && rhs_sign_ext == (
                lu2.0 < 0))
            &&& (lhs_bounded ==> !lhs_sign_ext)
            &&& (rhs_bounded ==> !rhs_sign_ext)
            &&& lhs_off == arith_prep_k(kind, lhs_bounded, lu1.0, cl)
            &&& rhs_off == arith_prep_k(kind, rhs_bounded, lu2.0, cl)
            &&& res_off == arith_res_off(kind, lud.0, cl)
            &&& (lhs_bounded ==> crate::utils::is_bit_len(
                (lu1.1 - lu1.0 - 1) as nat,
                lhs_width as nat,
            ))
            &&& (rhs_bounded ==> crate::utils::is_bit_len(
                (lu2.1 - lu2.0 - 1) as nat,
                rhs_width as nat,
            ))
            &&& dst_w as nat == bit_len((lud.1 - lud.0 - 1) as nat)
        }),
        lhs_sign_ext ==> lhs_width >= 1,
        rhs_sign_ext ==> rhs_width >= 1,
        params.len() == 2,
        params[0] == lhs_width,
        params[1] == rhs_width,
        0 <= entry < body_0.blocks@.len(),
        body_0.blocks@[entry].params@ == params,
        body_0.blocks@[entry].ops@.len() == 0,
        // The two operand preparations.
        body_a.blocks@[entry].params@ == params,
        body_a.blocks@[entry].wf_ops(),
        r1 < body_a.blocks@[entry].n_vals(),
        body_a.blocks@[entry].widths()[r1 as int] == compute_w,
        forall|ar: Seq<nat>|
            args_fit(ar, params) ==> {
                let pv = vals_after(ar, params, body_0.blocks@[entry].ops@);
                let nv = #[trigger] vals_after(ar, params, body_a.blocks@[entry].ops@);
                &&& forall|i: int| 0 <= i < pv.len() ==> nv[i] == pv[i]
                &&& nv[r1 as int] == prep_sem(pv[0], lhs_width as nat, compute_w as nat,
                    lhs_sign_ext, lhs_off)
            },
        body_b.blocks@[entry].params@ == params,
        body_b.blocks@[entry].wf_ops(),
        r2 < body_b.blocks@[entry].n_vals(),
        body_b.blocks@[entry].widths()[r2 as int] == compute_w,
        body_b.blocks@[entry].widths()[r1 as int] == compute_w,
        r1 < body_b.blocks@[entry].n_vals(),
        forall|ar: Seq<nat>|
            args_fit(ar, params) ==> {
                let pv = vals_after(ar, params, body_a.blocks@[entry].ops@);
                let nv = #[trigger] vals_after(ar, params, body_b.blocks@[entry].ops@);
                &&& forall|i: int| 0 <= i < pv.len() ==> nv[i] == pv[i]
                &&& nv[r2 as int] == prep_sem(pv[1], rhs_width as nat, compute_w as nat,
                    rhs_sign_ext, rhs_off)
            },
        // The raw operation.
        body_c.blocks@[entry].params@ == params,
        body_c.blocks@[entry].wf_ops(),
        body_c.blocks@[entry].ops@ == body_b.blocks@[entry].ops@.push(
            match kind {
                ArithKind::Add => Op::AddI { a: r1, b: r2 },
                ArithKind::Sub => Op::SubI { a: r1, b: r2 },
                ArithKind::Mul => Op::MulI { a: r1, b: r2 },
            },
        ),
        r_sum == body_b.blocks@[entry].n_vals(),
        // The re-offsetting.
        body_d.blocks@[entry].params@ == params,
        body_d.blocks@[entry].wf_ops(),
        r_res < body_d.blocks@[entry].n_vals(),
        forall|ar: Seq<nat>|
            args_fit(ar, params) ==> {
                let pv = vals_after(ar, params, body_c.blocks@[entry].ops@);
                let nv = #[trigger] vals_after(ar, params, body_d.blocks@[entry].ops@);
                &&& forall|i: int| 0 <= i < pv.len() ==> nv[i] == pv[i]
                &&& nv[r_res as int] == ((pv[r_sum as int] - res_off) % (pow2(
                    compute_w as nat,
                ) as int)) as nat
            },
        // The truncation.
        body_e.blocks@[entry].params@ == params,
        body_e.blocks@[entry].wf_ops(),
        r_tr < body_e.blocks@[entry].n_vals(),
        forall|ar: Seq<nat>|
            args_fit(ar, params) ==> {
                let pv = vals_after(ar, params, body_d.blocks@[entry].ops@);
                let nv = #[trigger] vals_after(ar, params, body_e.blocks@[entry].ops@);
                &&& forall|i: int| 0 <= i < pv.len() ==> nv[i] == pv[i]
                &&& nv[r_tr as int] == pv[r_res as int] % pow2(dst_w as nat)
            },
        // The finished block.
        0 <= entry < fb.blocks@.len(),
        fb.blocks@[entry].params@ == params,
        fb.blocks@[entry].ops@ == body_e.blocks@[entry].ops@,
        fb.blocks@[entry].wf_ops(),
        fb.blocks@[entry].term matches Some(Terminator::BranchOut { branch, args }) && branch == 0
            && args@ == oargs,
        oargs == seq![r_tr],
    ensures
        eval_body_from(fb, entry, arith_args(registry, sig, a, b), fuel) == (Outcome::Branches {
            branch: 0nat,
            vals: seq![bounded_arith_sem(kind, registry, sig, a, b)],
        }),
{
    let lhs_ty_s = arith_lhs_ty(registry, sig);
    let rhs_ty_s = arith_rhs_ty(registry, sig);
    let dst_ty_s = arith_dst_ty(registry, sig);
    let lu1 = spec_int_range(lhs_ty_s).unwrap();
    let lu2 = spec_int_range(rhs_ty_s).unwrap();
    let lud = spec_int_range(dst_ty_s).unwrap();
    let cl = arith_compute_lower(kind, lu1.0, lu2.0, lud.0);
    let opsa = body_a.blocks@[entry].ops@;
    let opsb = body_b.blocks@[entry].ops@;
    let opsc = body_c.blocks@[entry].ops@;
    let opsd = body_d.blocks@[entry].ops@;
    let opse = body_e.blocks@[entry].ops@;
    let pw = pow2(compute_w as nat) as int;

    let w1 = nat_width_of(lhs_ty_s);
    let w2 = nat_width_of(rhs_ty_s);
    let ar = arith_args(registry, sig, a, b);
    let e1 = operand_enc(lhs_bounded, lu1.0, w1, a);
    let e2 = operand_enc(rhs_bounded, lu2.0, w2, b);
    assert(ar == args2(e1, e2));
    assert(ar.len() == 2 && ar[0] == e1 && ar[1] == e2);
    // The encodings fit the block parameters.
    vstd::arithmetic::power2::lemma_pow2_pos(w1);
    vstd::arithmetic::power2::lemma_pow2_pos(w2);
    crate::utils::lemma_bit_len((lu1.1 - lu1.0 - 1) as nat);
    crate::utils::lemma_bit_len((lu2.1 - lu2.0 - 1) as nat);
    if !lhs_bounded {
        vstd::arithmetic::div_mod::lemma_mod_bound(a, pow2(w1) as int);
    }
    if !rhs_bounded {
        vstd::arithmetic::div_mod::lemma_mod_bound(b, pow2(w2) as int);
    }
    assert(args_fit(ar, params));
    // Step through the emitted operations.
    let v0 = vals_after(ar, params, body_0.blocks@[entry].ops@);
    assert(v0 == ar);
    let va = vals_after(ar, params, opsa);
    let vb = vals_after(ar, params, opsb);
    let vc = vals_after(ar, params, opsc);
    let vd = vals_after(ar, params, opsd);
    let ve = vals_after(ar, params, opse);
    let t1 = arith_prep_t(kind, lhs_bounded, lu1.0, cl, a);
    let t2 = arith_prep_t(kind, rhs_bounded, lu2.0, cl, b);
    crate::ir::lemma_vals_after_len(ar, params, opsa);
    crate::ir::lemma_vals_after_len(ar, params, opsb);
    crate::ir::lemma_vals_after_len(ar, params, opsc);
    crate::ir::lemma_vals_after_len(ar, params, opsd);
    crate::ir::lemma_vals_after_len(ar, params, opse);
    crate::ir::lemma_widths_after_len(params, opsa);
    crate::ir::lemma_widths_after_len(params, opsb);
    // First operand prepared.
    assert(va[r1 as int] == prep_sem(e1, lhs_width as nat, compute_w as nat, lhs_sign_ext,
        lhs_off));
    assert(va[r1 as int] == const_enc(t1, compute_w as nat)) by {
        if lhs_bounded {
            vstd::arithmetic::div_mod::lemma_small_mod((a - lu1.0) as nat, pow2(w1));
            assert(e1 == const_enc(a - lu1.0, w1));
            lemma_prep_embeds(a - lu1.0, lhs_off, lhs_width as nat, compute_w as nat,
                lhs_sign_ext);
        } else {
            lemma_prep_embeds(a, lhs_off, lhs_width as nat, compute_w as nat, lhs_sign_ext);
        }
    }
    // Second operand prepared; the first survives.
    assert(vb[r2 as int] == prep_sem(va[1], rhs_width as nat, compute_w as nat, rhs_sign_ext,
        rhs_off));
    assert(va[1] == e2);
    assert(vb[r2 as int] == const_enc(t2, compute_w as nat)) by {
        if rhs_bounded {
            vstd::arithmetic::div_mod::lemma_small_mod((b - lu2.0) as nat, pow2(w2));
            assert(e2 == const_enc(b - lu2.0, w2));
            lemma_prep_embeds(b - lu2.0, rhs_off, rhs_width as nat, compute_w as nat,
                rhs_sign_ext);
        } else {
            lemma_prep_embeds(b, rhs_off, rhs_width as nat, compute_w as nat, rhs_sign_ext);
        }
    }
    assert(vb[r1 as int] == va[r1 as int]);
    // The raw operation.
    let raw = match kind {
        ArithKind::Add => t1 + t2,
        ArithKind::Sub => t1 - t2,
        ArithKind::Mul => t1 * t2,
    };
    assert(vc == vb.push(crate::ir::sem_op(opsc.last(), vb, crate::ir::widths_after(
        params,
        opsb,
    ))));
    assert(crate::ir::widths_after(params, opsb)[r1 as int] == compute_w);
    assert(vc[r_sum as int] == const_enc(raw, compute_w as nat)) by {
        vstd::arithmetic::power2::lemma_pow2_pos(compute_w as nat);
        match kind {
            ArithKind::Add => {
                assert(vc[r_sum as int] == (((vb[r1 as int] + vb[r2 as int]) as int)
                    % pw) as nat);
                vstd::arithmetic::div_mod::lemma_add_mod_noop(t1, t2, pw);
            },
            ArithKind::Sub => {
                assert(vc[r_sum as int] == ((vb[r1 as int] - vb[r2 as int]) % pw) as nat);
                vstd::arithmetic::div_mod::lemma_sub_mod_noop(t1, t2, pw);
            },
            ArithKind::Mul => {
                assert(vc[r_sum as int] == (((vb[r1 as int] * vb[r2 as int]) as int)
                    % pw) as nat);
                vstd::arithmetic::div_mod::lemma_mul_mod_noop_general(t1, t2, pw);
            },
        }
    }
    // Re-offset to the destination.
    assert(vd[r_res as int] == ((vc[r_sum as int] - res_off) % pw) as nat);
    assert(vd[r_res as int] == const_enc(raw - res_off, compute_w as nat)) by {
        vstd::arithmetic::power2::lemma_pow2_pos(compute_w as nat);
        vstd::arithmetic::div_mod::lemma_sub_mod_noop(raw, res_off, pw);
        vstd::arithmetic::div_mod::lemma_sub_mod_noop_right((raw) % pw, res_off, pw);
    }
    // Truncate to the destination's offset width.
    assert(ve[r_tr as int] == vd[r_res as int] % pow2(dst_w as nat));
    assert(ve[r_tr as int] == bounded_arith_sem(kind, registry, sig, a, b)) by {
        let tt = raw - res_off;
        let pd = pow2(dst_w as nat) as int;
        vstd::arithmetic::power2::lemma_pow2_pos(dst_w as nat);
        vstd::arithmetic::power2::lemma_pow2_pos(compute_w as nat);
        lemma_mod_mod_pow2(tt, compute_w as nat, dst_w as nat);
        assert((tt % pw) % pd == tt % pd);
        assert(vd[r_res as int] == const_enc(tt, compute_w as nat));
        assert(ve[r_tr as int] == ((tt % pw) as nat) % pow2(dst_w as nat));
        vstd::arithmetic::div_mod::lemma_mod_bound(tt, pw);
        vstd::arithmetic::div_mod::lemma_mod_bound(tt, pd);
        assert(((tt % pw) as nat) % pow2(dst_w as nat) == (tt % pw) % pd);
        assert(bounded_arith_sem(kind, registry, sig, a, b) == (tt % pd) as nat);
    }
    // Unfold the evaluation.
    assert(oargs == seq![r_tr]);
    assert(crate::ir::pick_vals(ve, oargs) =~= seq![bounded_arith_sem(kind, registry, sig, a, b)]);
    assert(eval_body_from(fb, entry, ar, fuel) == (Outcome::Branches {
        branch: 0nat,
        vals: crate::ir::pick_vals(ve, oargs),
    }));
}

/// LAW — the range law of bounded addition. For sub-ranged operands with
/// ranges `[l1, u1)` and `[l2, u2)` and destination range `[ld, ud)`, on
/// inputs whose mathematical sum lies in the destination range, the value
/// bounded addition leaves in the destination register is exactly that sum
/// in the destination's offset representation — provided the computation
/// range's lower bound is aligned to the destination's offset width, which
/// holds in particular whenever it is zero.
pub proof fn lemma_add_range_law(registry: ProgramRegistry, sig: LibfuncSignature, a: int, b: int)
    requires
        arith_sig_ok(registry, sig),
        spec_is_bounded_int(arith_lhs_ty(registry, sig)),
        spec_is_bounded_int(arith_rhs_ty(registry, sig)),
        arith_inputs_ok(registry, sig, a, b),
        ({
            let lu1 = spec_int_range(arith_lhs_ty(registry, sig)).unwrap();
            let lu2 = spec_int_range(arith_rhs_ty(registry, sig)).unwrap();
            let lud = spec_int_range(arith_dst_ty(registry, sig)).unwrap();
            let cl = arith_compute_lower(ArithKind::Add, lu1.0, lu2.0, lud.0);
            let wd = bit_len((lud.1 - lud.0 - 1) as nat);
            &&& lud.0 <= a + b < lud.1
            &&& cl % (pow2(wd) as int) == 0
        }),
    ensures
        ({
            let lud = spec_int_range(arith_dst_ty(registry, sig)).unwrap();
            bounded_arith_sem(ArithKind::Add, registry, sig, a, b) == a + b - lud.0
        }),
{
    let lu1 = spec_int_range(arith_lhs_ty(registry, sig)).unwrap();
    let lu2 = spec_int_range(arith_rhs_ty(registry, sig)).unwrap();
    let lud = spec_int_range(arith_dst_ty(registry, sig)).unwrap();
    let cl = arith_compute_lower(ArithKind::Add, lu1.0, lu2.0, lud.0);
    let wd = bit_len((lud.1 - lud.0 - 1) as nat);
    let pd = pow2(wd) as int;
    vstd::arithmetic::power2::lemma_pow2_pos(wd);
    let tt = (a - cl) + (b - cl) - (lud.0 - cl);
    assert(tt == (a + b - lud.0) - cl);
    // Subtracting the aligned computation lower bound does not change the
    // value modulo the destination width.
    let q = cl / pd;
    vstd::arithmetic::div_mod::lemma_fundamental_div_mod(cl, pd);
    assert(cl == q * pd + cl % pd);
    assert(tt == (-q) * pd + (a + b - lud.0)) by {
        vstd::arithmetic::mul::lemma_mul_unary_negation(q, pd);
    }
    vstd::arithmetic::div_mod::lemma_mod_multiples_vanish(-q, a + b - lud.0, pd);
    // The in-range sum is already reduced.
    crate::utils::lemma_bit_len((lud.1 - lud.0 - 1) as nat);
    vstd::arithmetic::div_mod::lemma_small_mod((a + b - lud.0) as nat, pow2(wd));
    assert(tt == pd * (-q) + (a + b - lud.0)) by {
        vstd::arithmetic::mul::lemma_mul_is_commutative(-q, pd);
    }
    assert(tt % pd == (a + b - lud.0) % pd);
    assert((a + b - lud.0) % pd == a + b - lud.0);
    assert(bounded_arith_sem(ArithKind::Add, registry, sig, a, b) == (tt % pd) as nat);
}

/// LAW — the range law of bounded subtraction: on inputs whose mathematical
/// difference lies in the destination range, the destination register holds
/// exactly that difference in offset representation, unconditionally.
pub proof fn lemma_sub_range_law(registry: ProgramRegistry, sig: LibfuncSignature, a: int, b: int)
    requires
        arith_sig_ok(registry, sig),
        spec_is_bounded_int(arith_lhs_ty(registry, sig)),
        spec_is_bounded_int(arith_rhs_ty(registry, sig)),
        arith_inputs_ok(registry, sig, a, b),
        ({
            let lud = spec_int_range(arith_dst_ty(registry, sig)).unwrap();
            lud.0 <= a - b < lud.1
        }),
    ensures
        ({
            let lud = spec_int_range(arith_dst_ty(registry, sig)).unwrap();
            bounded_arith_sem(ArithKind::Sub, registry, sig, a, b) == a - b - lud.0
        }),
{
    let lu1 = spec_int_range(arith_lhs_ty(registry, sig)).unwrap();
    let lu2 = spec_int_range(arith_rhs_ty(registry, sig)).unwrap();
    let lud = spec_int_range(arith_dst_ty(registry, sig)).unwrap();
    let cl = arith_compute_lower(ArithKind::Sub, lu1.0, lu2.0, lud.0);
    let wd = bit_len((lud.1 - lud.0 - 1) as nat);
    vstd::arithmetic::power2::lemma_pow2_pos(wd);
    let tt = (a - cl) - (b - cl) - lud.0;
    assert(tt == a - b - lud.0);
    crate::utils::lemma_bit_len((lud.1 - lud.0 - 1) as nat);
    vstd::arithmetic::div_mod::lemma_small_mod((a - b - lud.0) as nat, pow2(wd));
}

/// LAW — the range law of bounded multiplication: on inputs whose product
/// lies in the destination range, the destination register holds exactly
/// that product in offset representation, unconditionally.
pub proof fn lemma_mul_range_law(registry: ProgramRegistry, sig: LibfuncSignature, a: int, b: int)
    requires
        arith_sig_ok(registry, sig),
        spec_is_bounded_int(arith_lhs_ty(registry, sig)),
        spec_is_bounded_int(arith_rhs_ty(registry, sig)),
        arith_inputs_ok(registry, sig, a, b),
        ({
            let lud = spec_int_range(arith_dst_ty(registry, sig)).unwrap();
            lud.0 <= a * b < lud.1
        }),
    ensures
        ({
            let lud = spec_int_range(arith_dst_ty(registry, sig)).unwrap();
            bounded_arith_sem(ArithKind::Mul, registry, sig, a, b) == a * b - lud.0
        }),
{
    let lu1 = spec_int_range(arith_lhs_ty(registry, sig)).unwrap();
    let lu2 = spec_int_range(arith_rhs_ty(registry, sig)).unwrap();
    let lud = spec_int_range(arith_dst_ty(registry, sig)).unwrap();
    let cl = arith_compute_lower(ArithKind::Mul, lu1.0, lu2.0, lud.0);
    let wd = bit_len((lud.1 - lud.0 - 1) as nat);
    vstd::arithmetic::power2::lemma_pow2_pos(wd);
    // The result offset is the destination's lower bound itself.
    assert(arith_res_off(ArithKind::Mul, lud.0, cl) == lud.0);
    let tt = a * b - lud.0;
    crate::utils::lemma_bit_len((lud.1 - lud.0 - 1) as nat);
    vstd::arithmetic::div_mod::lemma_small_mod((a * b - lud.0) as nat, pow2(wd));
}

/// The signature shape of a one-operand libfunc over an integer-like type.
pub open spec fn un_sig_ok(registry: ProgramRegistry, sig: LibfuncSignature) -> bool {
    &&& sig.param_signatures@.len() == 1
    &&& sig.param_signatures@[0] < registry.types@.len()
    &&& spec_int_range(un_src_ty(registry, sig)) is Some
}

pub open spec fn un_src_ty(registry: ProgramRegistry, sig: LibfuncSignature) -> ConcreteType {
    registry.types@[sig.param_signatures@[0] as int]
}

/// The entry block a one-operand builder expects.
pub open spec fn un_entry_ok(
    registry: ProgramRegistry,
    sig: LibfuncSignature,
    body: FuncBody,
    entry: int,
) -> bool {
    &&& 0 <= entry < body.blocks@.len()
    &&& body.blocks@[entry].ops@.len() == 0
    &&& body.blocks@[entry].term is None
    &&& body.blocks@[entry].params@.len() == 1
    &&& body.blocks@[entry].params@[0] as nat == nat_width_of(un_src_ty(registry, sig))
}

/// The register encoding of the single operand.
pub open spec fn un_enc(registry: ProgramRegistry, sig: LibfuncSignature, x: int) -> nat {
    operand_enc(
        spec_is_bounded_int(un_src_ty(registry, sig)),
        spec_int_range(un_src_ty(registry, sig)).unwrap().0,
        nat_width_of(un_src_ty(registry, sig)),
        x,
    )
}

/// The encoding of the operand is faithful: distinct in-range values get
/// distinct registers, and zero's register is zero. Holds whenever the
/// source is a plain integer or a sub-ranged integer starting at zero.
pub open spec fn un_enc_faithful(registry: ProgramRegistry, sig: LibfuncSignature) -> bool {
    let ty = un_src_ty(registry, sig);
    spec_is_bounded_int(ty) ==> spec_int_range(ty).unwrap().0 == 0
}

/// The zero-test signature: a zero branch with no outputs and a non-zero
/// branch carrying the wrapped value.
pub open spec fn is_zero_sig_ok(registry: ProgramRegistry, sig: LibfuncSignature) -> bool {
    &&& un_sig_ok(registry, sig)
    &&& sig.branch_signatures@.len() == 2
    &&& sig.branch_signatures@[0].vars@.len() == 0
    &&& sig.branch_signatures@[1].vars@.len() == 1
}

/// The wrap signature: one branch carrying the wrapped value.
pub open spec fn wrap_sig_ok(registry: ProgramRegistry, sig: LibfuncSignature) -> bool {
    &&& un_sig_ok(registry, sig)
    &&& sig.branch_signatures@.len() == 1
    &&& sig.branch_signatures@[0].vars@.len() == 1
}

/// What the zero-test lowering guarantees: on a range that can hold zero,
/// the block branches on the value — branch 0 empty-handed for zero,
/// branch 1 carrying the value otherwise, each branch with exactly as many
/// values as its signature declares; on a range that cannot, a fatal
/// backend assertion naming the fact, with the body untouched.
pub open spec fn is_zero_postcond(
    registry: ProgramRegistry,
    sig: LibfuncSignature,
    oldb: FuncBody,
    newb: FuncBody,
    entry: int,
    res: Result<(), Error>,
) -> bool {
    let lu = spec_int_range(un_src_ty(registry, sig)).unwrap();
    match res {
        Ok(()) => {
            &&& lu.0 <= 0 < lu.1
            &&& newb.blocks@ == oldb.blocks@.update(entry, newb.blocks@[entry])
            &&& newb.blocks@[entry].term matches Some(Terminator::CondBranchOut {
                branch_true,
                args_true,
                branch_false,
                args_false,
                ..
            }) && branch_true == 0 && branch_false == 1 && args_true@.len()
                == sig.branch_signatures@[0].vars@.len() && args_false@.len()
                == sig.branch_signatures@[1].vars@.len()
            &&& forall|x: int, fuel: nat|
                lu.0 <= x < lu.1 && fuel >= 1 && un_enc_faithful(registry, sig) ==> #[trigger]
                    eval_body_from(
                    newb,
                    entry,
                    crate::libfuncs::args1(un_enc(registry, sig, x)),
                    fuel,
                ) == if x == 0 {
                    Outcome::Branches { branch: 0nat, vals: Seq::<nat>::empty() }
                } else {
                    Outcome::Branches { branch: 1nat, vals: seq![un_enc(registry, sig, x)] }
                }
        },
        Err(e) => {
            &&& !(lu.0 <= 0 < lu.1)
            &&& newb == oldb
            &&& e matches Error::NativeAssert(n) && n.message_spec()
                == "value can never be zero"@
        },
    }
}

/// What the wrap lowering guarantees: on a range that excludes zero, the
/// single branch carries the value unchanged; otherwise a fatal backend
/// assertion, with the body untouched.
pub open spec fn wrap_non_zero_postcond(
    registry: ProgramRegistry,
    sig: LibfuncSignature,
    oldb: FuncBody,
    newb: FuncBody,
    entry: int,
    res: Result<(), Error>,
) -> bool {
    let lu = spec_int_range(un_src_ty(registry, sig)).unwrap();
    match res {
        Ok(()) => {
            &&& lu.0 > 0 || lu.1 <= 0
            &&& newb.blocks@ == oldb.blocks@.update(entry, newb.blocks@[entry])
            &&& newb.blocks@[entry].term matches Some(Terminator::BranchOut { branch, args })
                && branch == 0 && args@.len() == sig.branch_signatures@[0].vars@.len()
            &&& forall|x: int, fuel: nat|
                lu.0 <= x < lu.1 && fuel >= 1 ==> #[trigger] eval_body_from(
                    newb,
                    entry,
                    crate::libfuncs::args1(un_enc(registry, sig, x)),
                    fuel,
                ) == (Outcome::Branches {
                    branch: 0nat,
                    vals: seq![un_enc(registry, sig, x)],
                })
        },
        Err(e) => {
            &&& !(lu.0 > 0 || lu.1 <= 0)
            &&& newb == oldb
            &&& e matches Error::NativeAssert(n) && n.message_spec() == "value must not be zero"@
        },
    }
}

/// Generate the operations for the sub-ranged integer zero test.
pub fn build_is_zero(
    registry: &ProgramRegistry,
    body: &mut FuncBody,
    entry: usize,
    _metadata: &mut MetadataStorage,
    info: &SignatureOnlyConcreteLibfunc,
) -> (res: Result<(), Error>)
    requires
        registry.wf(),
        is_zero_sig_ok(*registry, info.signature),
        un_entry_ok(*registry, info.signature, *old(body), entry as int),
    ensures
        is_zero_postcond(
            *registry,
            info.signature,
            *old(body),
            *final(body),
            entry as int,
            res,
        ),
{
    let ghost sig = info.signature;
    let ghost params = body.blocks@[entry as int].params@;
    let ghost ty_s = un_src_ty(*registry, sig);
    let ghost lu = spec_int_range(ty_s).unwrap();

    let src_ty = match registry.get_type(info.signature.param_signatures[0]) {
        Ok(t) => t,
        Err(e) => {
            proof {
                assert(false);
            }
            return Err(e);
        },
    };
    let src_range = match src_ty.integer_range() {
        Ok(r) => r,
        Err(e) => {
            proof {
                assert(false);
            }
            return Err(e);
        },
    };
    let src_bounded = src_ty.is_bounded_int();
    let src_width: u64 = if src_bounded {
        src_range.offset_bit_width()
    } else {
        src_range.zero_based_bit_width()
    };
    proof {
        lemma_exec_width(ty_s, src_range, src_bounded, src_width);
    }

    // The value must be able to be zero at all.
    let zero = Signed::from_u128(0);
    if !(src_range.lower.le(&zero) && zero.lt(&src_range.upper)) {
        return Err(Error::NativeAssert(crate::error::panic::NativeAssertError::new(
            <String as vstd::string::StringExecFns>::from_str("value can never be zero"),
        )));
    }

    let k0 = body.push_op(
        entry,
        Op::ConstInt { w: src_width, c: crate::bignum::big_from_u128(0) },
    );
    let ghost body_a = *body;
    proof {
        vstd::arithmetic::power2::lemma_pow2_pos(src_width as nat);
    }
    let cond = body.push_op(entry, Op::Cmpi { pred: crate::ir::CmpPred::Eq, a: 0, b: k0 });
    let ghost body_b = *body;
    let empty_args: Vec<usize> = Vec::new();
    let mut nz_args: Vec<usize> = Vec::new();
    nz_args.push(0);
    proof {
        assert(empty_args@ =~= Seq::<usize>::empty());
        assert(nz_args@ =~= seq![0usize]);
    }
    body.set_term(
        entry,
        Terminator::CondBranchOut {
            cond,
            branch_true: 0,
            args_true: empty_args,
            branch_false: 1,
            args_false: nz_args,
        },
    );
    proof {
        let fb = *body;
        let opsa = body_a.blocks@[entry as int].ops@;
        let opsb = body_b.blocks@[entry as int].ops@;
        assert(fb.blocks@ =~= old(body).blocks@.update(entry as int, fb.blocks@[entry as int]));
        if !src_bounded {
            lemma_ranges_enc_ok(ty_s);
        }
        assert forall|x: int, fuel: nat|
            #![trigger eval_body_from(
                *body,
                entry as int,
                crate::libfuncs::args1(un_enc(*registry, sig, x)),
                fuel,
            )]
            lu.0 <= x < lu.1 && fuel >= 1 && un_enc_faithful(*registry, sig) implies {
            eval_body_from(
                *body,
                entry as int,
                crate::libfuncs::args1(un_enc(*registry, sig, x)),
                fuel,
            ) == if x == 0 {
                Outcome::Branches { branch: 0nat, vals: Seq::<nat>::empty() }
            } else {
                Outcome::Branches { branch: 1nat, vals: seq![un_enc(*registry, sig, x)] }
            }
        } by {
            let w = src_width as nat;
            let e = un_enc(*registry, sig, x);
            let ar = crate::libfuncs::args1(e);
            vstd::arithmetic::power2::lemma_pow2_pos(w);
            crate::utils::lemma_bit_len((lu.1 - lu.0 - 1) as nat);
            if !src_bounded {
                vstd::arithmetic::div_mod::lemma_mod_bound(x, pow2(w) as int);
            }
            assert(args_fit(ar, params));
            let va = vals_after(ar, params, opsa);
            let vb = vals_after(ar, params, opsb);
            crate::ir::lemma_vals_after_len(ar, params, opsa);
            crate::ir::lemma_vals_after_len(ar, params, opsb);
            crate::ir::lemma_widths_after_len(params, opsa);
            assert(va[1] == 0nat % pow2(w));
            vstd::arithmetic::div_mod::lemma_small_mod(0nat, pow2(w));
            assert(vb[cond as int] == (if vb[0] == vb[1] {
                1nat
            } else {
                0nat
            }));
            // The encoding is zero exactly when the value is.
            assert(e == 0 <==> x == 0) by {
                if src_bounded {
                } else {
                    if x >= 0 {
                        vstd::arithmetic::div_mod::lemma_small_mod(x as nat, pow2(w));
                    } else {
                        vstd::arithmetic::div_mod::lemma_mod_add_multiples_vanish(
                            x,
                            pow2(w) as int,
                        );
                        vstd::arithmetic::div_mod::lemma_small_mod(
                            (x + pow2(w)) as nat,
                            pow2(w),
                        );
                        assert(x + pow2(w) > 0) by {
                            crate::ir::lemma_pow2_le((w - 1) as nat, w);
                        }
                    }
                }
            }
            assert(ar[0] == e);
            assert(opsa.len() == 1);
            assert(opsa.drop_last() == old(body).blocks@[entry as int].ops@);
            assert(vals_after(ar, params, opsa.drop_last()) == ar);
            assert(va[0] == ar[0]);
            assert(vb[0] == va[0]);
            assert(vb[0] == e);
            if x == 0 {
                assert(crate::ir::pick_vals(vb, Seq::<usize>::empty()) =~= Seq::<nat>::empty());
            } else {
                assert(crate::ir::pick_vals(vb, seq![0usize]) =~= seq![e]);
            }
        }
    }
    Ok(())
}

/// Generate the operations for wrapping a never-zero value as non-zero: a
/// pure pass-through of the operand.
pub fn build_wrap_non_zero(
    registry: &ProgramRegistry,
    body: &mut FuncBody,
    entry: usize,
    _metadata: &mut MetadataStorage,
    info: &SignatureOnlyConcreteLibfunc,
) -> (res: Result<(), Error>)
    requires
        registry.wf(),
        wrap_sig_ok(*registry, info.signature),
        un_entry_ok(*registry, info.signature, *old(body), entry as int),
    ensures
        wrap_non_zero_postcond(
            *registry,
            info.signature,
            *old(body),
            *final(body),
            entry as int,
            res,
        ),
{
    let ghost sig = info.signature;
    let ghost params = body.blocks@[entry as int].params@;
    let ghost ty_s = un_src_ty(*registry, sig);
    let ghost lu = spec_int_range(ty_s).unwrap();

    let src_ty = match registry.get_type(info.signature.param_signatures[0]) {
        Ok(t) => t,
        Err(e) => {
            proof {
                assert(false);
            }
            return Err(e);
        },
    };
    let src_range = match src_ty.integer_range() {
        Ok(r) => r,
        Err(e) => {
            proof {
                assert(false);
            }
            return Err(e);
        },
    };
    let src_bounded = src_ty.is_bounded_int();
    let src_width: u64 = if src_bounded {
        src_range.offset_bit_width()
    } else {
        src_range.zero_based_bit_width()
    };
    proof {
        lemma_exec_width(ty_s, src_range, src_bounded, src_width);
    }

    // The value must never be zero.
    let zero = Signed::from_u128(0);
    if !(zero.lt(&src_range.lower) || src_range.upper.le(&zero)) {
        return Err(Error::NativeAssert(crate::error::panic::NativeAssertError::new(
            <String as vstd::string::StringExecFns>::from_str("value must not be zero"),
        )));
    }

    let mut out_args: Vec<usize> = Vec::new();
    out_args.push(0);
    body.set_term(entry, Terminator::BranchOut { branch: 0, args: out_args });
    proof {
        let fb = *body;
        assert(fb.blocks@ =~= old(body).blocks@.update(entry as int, fb.blocks@[entry as int]));
        if !src_bounded {
            lemma_ranges_enc_ok(ty_s);
        }
        assert forall|x: int, fuel: nat| lu.0 <= x < lu.1 && fuel >= 1 implies #[trigger]
            eval_body_from(
            *body,
            entry as int,
            crate::libfuncs::args1(un_enc(*registry, sig, x)),
            fuel,
        ) == (Outcome::Branches { branch: 0nat, vals: seq![un_enc(*registry, sig, x)] }) by {
            let w = src_width as nat;
            let e = un_enc(*registry, sig, x);
            let ar = crate::libfuncs::args1(e);
            vstd::arithmetic::power2::lemma_pow2_pos(w);
            crate::utils::lemma_bit_len((lu.1 - lu.0 - 1) as nat);
            if !src_bounded {
                vstd::arithmetic::div_mod::lemma_mod_bound(x, pow2(w) as int);
            }
            assert(args_fit(ar, params));
            let vv = vals_after(ar, params, fb.blocks@[entry as int].ops@);
            assert(vv == ar);
            assert(crate::ir::pick_vals(vv, seq![0usize]) =~= seq![e]);
        }
    }
    Ok(())
}

/// The signature shape of the constrain libfunc: a range-check token and a
/// source value in, two branches each carrying the token and a narrowed
/// value out.
pub open spec fn con_sig_ok(registry: ProgramRegistry, sig: LibfuncSignature) -> bool {
    &&& sig.param_signatures@.len() == 2
    &&& sig.branch_signatures@.len() == 2
    &&& sig.branch_signatures@[0].vars@.len() == 2
    &&& sig.branch_signatures@[1].vars@.len() == 2
    &&& sig.param_signatures@[1] < registry.types@.len()
    &&& sig.branch_signatures@[0].vars@[1] < registry.types@.len()
    &&& sig.branch_signatures@[1].vars@[1] < registry.types@.len()
    &&& spec_int_range(con_src_ty(registry, sig)) is Some
    &&& spec_int_range(con_lo_ty(registry, sig)) is Some
    &&& spec_int_range(con_hi_ty(registry, sig)) is Some
}

pub open spec fn con_src_ty(registry: ProgramRegistry, sig: LibfuncSignature) -> ConcreteType {
    registry.types@[sig.param_signatures@[1] as int]
}

pub open spec fn con_lo_ty(registry: ProgramRegistry, sig: LibfuncSignature) -> ConcreteType {
    registry.types@[sig.branch_signatures@[0].vars@[1] as int]
}

pub open spec fn con_hi_ty(registry: ProgramRegistry, sig: LibfuncSignature) -> ConcreteType {
    registry.types@[sig.branch_signatures@[1].vars@[1] as int]
}

/// The entry block the constrain builder expects: the range-check token at
/// the conventional 64-bit width, then the source at its natural width.
pub open spec fn con_entry_ok(
    registry: ProgramRegistry,
    sig: LibfuncSignature,
    body: FuncBody,
    entry: int,
) -> bool {
    &&& 0 <= entry < body.blocks@.len()
    &&& body.blocks@[entry].ops@.len() == 0
    &&& body.blocks@[entry].term is None
    &&& body.blocks@[entry].params@.len() == 2
    &&& body.blocks@[entry].params@[0] == 64u64
    &&& body.blocks@[entry].params@[1] as nat == nat_width_of(con_src_ty(registry, sig))
}

/// The standard shape the constrain semantics is stated for: a source range
/// starting at zero, split by the boundary into the two branch ranges.
pub open spec fn con_standard(
    registry: ProgramRegistry,
    sig: LibfuncSignature,
    boundary: int,
) -> bool {
    let lu = spec_int_range(con_src_ty(registry, sig)).unwrap();
    let lo = spec_int_range(con_lo_ty(registry, sig)).unwrap();
    let hi = spec_int_range(con_hi_ty(registry, sig)).unwrap();
    &&& lu.0 == 0
    &&& 0 < boundary < lu.1
    &&& lo.0 == 0 && lo.1 == boundary
    &&& hi.0 == boundary && hi.1 == lu.1
}

/// What the constrain lowering guarantees: two continuation blocks are
/// appended, leaving through branches 0 and 1, each carrying exactly as
/// many values as its signature declares — and, for the standard shape
/// where the source range starts at zero and the boundary splits it into
/// the two branch ranges, the full value law of the split.
pub open spec fn constrain_postcond(
    registry: ProgramRegistry,
    sig: LibfuncSignature,
    bv: int,
    oldb: FuncBody,
    newb: FuncBody,
    entry: int,
    res: Result<(), Error>,
) -> bool {
    let lu = spec_int_range(con_src_ty(registry, sig)).unwrap();
    let n = oldb.blocks@.len() as int;
    &&& res is Ok
    &&& newb.blocks@.len() == oldb.blocks@.len() + 2
    &&& newb.blocks@[entry].params == oldb.blocks@[entry].params
    &&& forall|i: int| 0 <= i < n && i != entry ==> newb.blocks@[i] == oldb.blocks@[i]
    &&& newb.blocks@[n].term matches Some(Terminator::BranchOut { branch, args }) && branch == 0
        && args@.len() == sig.branch_signatures@[0].vars@.len()
    &&& newb.blocks@[n + 1].term matches Some(Terminator::BranchOut { branch, args }) && branch
        == 1 && args@.len() == sig.branch_signatures@[1].vars@.len()
    &&& con_standard(registry, sig, bv) ==> forall|x: int, rc: nat, fuel: nat|
        0 <= x < lu.1 && rc < pow2(64) && fuel >= 2 ==> #[trigger] eval_body_from(
            newb,
            entry,
            args2(rc, un_enc_at(registry, sig, 1, x)),
            fuel,
        ) == if x < bv {
            Outcome::Branches { branch: 0nat, vals: seq![((rc + 1) % pow2(64)) as nat, x as nat] }
        } else {
            Outcome::Branches {
                branch: 1nat,
                vals: seq![((rc + 1) % pow2(64)) as nat, (x - bv) as nat],
            }
        }
}

/// Generate the operations for the constrain libfunc: compare the source
/// against the boundary and branch, re-offsetting the value into the taken
/// branch's narrower range.
#[verifier::rlimit(100)]
pub fn build_constrain(
    registry: &ProgramRegistry,
    body: &mut FuncBody,
    entry: usize,
    _metadata: &mut MetadataStorage,
    info: &BoundedIntConstrainConcreteLibfunc,
) -> (res: Result<(), Error>)
    requires
        registry.wf(),
        con_sig_ok(*registry, info.signature),
        con_entry_ok(*registry, info.signature, *old(body), entry as int),
        info.boundary.wf(),
        old(body).blocks@.len() + 2 < usize::MAX,
    ensures
        constrain_postcond(
            *registry,
            info.signature,
            info.boundary.val(),
            *old(body),
            *final(body),
            entry as int,
            res,
        ),
{
    let ghost sig = info.signature;
    let ghost params = body.blocks@[entry as int].params@;
    let ghost src_ty_s = con_src_ty(*registry, sig);
    let ghost lu = spec_int_range(src_ty_s).unwrap();
    let ghost bv = info.boundary.val();

    let src_ty = match registry.get_type(info.signature.param_signatures[1]) {
        Ok(t) => t,
        Err(e) => {
            proof {
                assert(false);
            }
            return Err(e);
        },
    };
    let lo_ty = match registry.get_type(info.signature.branch_signatures[0].vars[1]) {
        Ok(t) => t,
        Err(e) => {
            proof {
                assert(false);
            }
            return Err(e);
        },
    };
    let hi_ty = match registry.get_type(info.signature.branch_signatures[1].vars[1]) {
        Ok(t) => t,
        Err(e) => {
            proof {
                assert(false);
            }
            return Err(e);
        },
    };
    let src_range = match src_ty.integer_range() {
        Ok(r) => r,
        Err(e) => {
            proof {
                assert(false);
            }
            return Err(e);
        },
    };
    let lo_range = match lo_ty.integer_range() {
        Ok(r) => r,
        Err(e) => {
            proof {
                assert(false);
            }
            return Err(e);
        },
    };
    let hi_range = match hi_ty.integer_range() {
        Ok(r) => r,
        Err(e) => {
            proof {
                assert(false);
            }
            return Err(e);
        },
    };
    let src_bounded = src_ty.is_bounded_int();
    let src_width: u64 = if src_bounded {
        src_range.offset_bit_width()
    } else {
        src_range.zero_based_bit_width()
    };
    let lo_w = lo_range.offset_bit_width();
    let hi_w = hi_range.offset_bit_width();
    proof {
        // The source width stays inside the engine's width fields.
        let st = if src_bounded {
            src_range.offset_target()
        } else {
            src_range.zero_based_target()
        };
        assert(st < pow2(0xFFFF_FFFF as nat)) by {
            assert(st < 2 * crate::utils::bound_limit());
            assert(2 * pow2(0xFFFF_FFFE as nat) == pow2(0xFFFF_FFFF as nat)) by {
                vstd::arithmetic::power2::lemma_pow2_adds(0xFFFF_FFFE as nat, 1);
                vstd::arithmetic::power2::lemma2_to64();
            }
        }
        crate::utils::lemma_width_in_limit(st, src_width as nat);
        lemma_exec_width(src_ty_s, src_range, src_bounded, src_width);
        if !src_bounded {
            lemma_ranges_enc_ok(src_ty_s);
        }
        crate::utils::lemma_bit_len(lo_range.offset_target());
        crate::utils::lemma_bit_len_unique(
            lo_range.offset_target(),
            lo_w as nat,
            bit_len(lo_range.offset_target()),
        );
        crate::utils::lemma_bit_len(hi_range.offset_target());
        crate::utils::lemma_bit_len_unique(
            hi_range.offset_target(),
            hi_w as nat,
            bit_len(hi_range.offset_target()),
        );
        crate::utils::lemma_bit_len(src_range.offset_target());
        crate::utils::lemma_bit_len(src_range.zero_based_target());
        if con_standard(*registry, sig, bv) {
            // Both branch widths stay at or below the source width.
            crate::utils::lemma_bit_len_monotone(
                lo_range.offset_target(),
                lo_w as nat,
                if src_bounded {
                    src_range.offset_target()
                } else {
                    src_range.zero_based_target()
                },
                src_width as nat,
            );
            crate::utils::lemma_bit_len_monotone(
                hi_range.offset_target(),
                hi_w as nat,
                if src_bounded {
                    src_range.offset_target()
                } else {
                    src_range.zero_based_target()
                },
                src_width as nat,
            );
        }
    }

    // Increment the range-check counter.
    let one = crate::bignum::big_from_u128(1);
    proof {
        vstd::arithmetic::power2::lemma2_to64();
    }
    let ghost onev = big(one);
    let c1 = body.push_op(entry, Op::ConstInt { w: 64, c: one });
    let ghost body_a0 = *body;
    let rc1 = body.push_op(entry, Op::AddI { a: 0, b: c1 });
    let ghost body_a = *body;

    // Compare the source against the boundary.
    let bc = crate::libfuncs::signed_mod_pow2(&info.boundary, src_width);
    let ghost bcv = big(bc);
    let bcon = body.push_op(entry, Op::ConstInt { w: src_width, c: bc });
    let ghost body_b0 = *body;
    let is_signed = src_range.lower.is_neg();
    let pred = if is_signed {
        crate::ir::CmpPred::Slt
    } else {
        crate::ir::CmpPred::Ult
    };
    let is_lower = body.push_op(entry, Op::Cmpi { pred, a: 1, b: bcon });
    let ghost body_b = *body;

    // The two continuation blocks.
    let mut lo_params: Vec<u64> = Vec::new();
    lo_params.push(64);
    lo_params.push(src_width);
    let b_lo = body.add_block(lo_params);
    let mut hi_params: Vec<u64> = Vec::new();
    hi_params.push(64);
    hi_params.push(src_width);
    let b_hi = body.add_block(hi_params);
    let ghost body_c = *body;

    let mut lo_jump: Vec<usize> = Vec::new();
    lo_jump.push(rc1);
    lo_jump.push(1);
    let mut hi_jump: Vec<usize> = Vec::new();
    hi_jump.push(rc1);
    hi_jump.push(1);
    proof {
        assert(lo_jump@ =~= seq![rc1, 1usize]);
        assert(hi_jump@ =~= seq![rc1, 1usize]);
    }
    body.set_term(
        entry,
        Terminator::CondJump {
            cond: is_lower,
            target_true: b_lo,
            args_true: lo_jump,
            target_false: b_hi,
            args_false: hi_jump,
        },
    );
    let ghost body_d = *body;

    // Lower branch: re-offset into `[lower, boundary)`.
    let lo_off = lo_range.lower.sub_val(&src_range.lower);
    let r_lo0 = sub_const(body, b_lo, 1, src_width, &lo_off);
    let ghost body_e = *body;
    let r_lo = if lo_w <= src_width {
        trunc_to(body, b_lo, r_lo0, src_width, lo_w)
    } else {
        r_lo0
    };
    let ghost body_f = *body;
    let mut lo_out: Vec<usize> = Vec::new();
    lo_out.push(0);
    lo_out.push(r_lo);
    proof {
        assert(lo_out@ =~= seq![0usize, r_lo]);
    }
    body.set_term(b_lo, Terminator::BranchOut { branch: 0, args: lo_out });
    let ghost body_g = *body;

    // Upper branch: re-offset into `[boundary, upper)`.
    let hi_off = hi_range.lower.sub_val(&src_range.lower);
    let r_hi0 = sub_const(body, b_hi, 1, src_width, &hi_off);
    let ghost body_h = *body;
    let r_hi = if hi_w <= src_width {
        trunc_to(body, b_hi, r_hi0, src_width, hi_w)
    } else {
        r_hi0
    };
    let ghost body_i = *body;
    let mut hi_out: Vec<usize> = Vec::new();
    hi_out.push(0);
    hi_out.push(r_hi);
    proof {
        assert(hi_out@ =~= seq![0usize, r_hi]);
    }
    body.set_term(b_hi, Terminator::BranchOut { branch: 1, args: hi_out });

    proof {
        let fb = *body;
        assert(fb.blocks@.len() == old(body).blocks@.len() + 2);
        assert forall|i: int|
            0 <= i < old(body).blocks@.len() && i != entry implies fb.blocks@[i] == old(
            body,
        ).blocks@[i] by {}
        if con_standard(*registry, sig, bv) {
            let w = src_width as nat;
            assert forall|x: int, rc: nat, fuel: nat|
                0 <= x < lu.1 && rc < pow2(64) && fuel >= 2 implies #[trigger] eval_body_from(
                fb,
                entry as int,
                args2(rc, un_enc_at(*registry, sig, 1, x)),
                fuel,
            ) == if x < bv {
                Outcome::Branches {
                    branch: 0nat,
                    vals: seq![((rc + 1) % pow2(64)) as nat, x as nat],
                }
            } else {
                Outcome::Branches {
                    branch: 1nat,
                    vals: seq![((rc + 1) % pow2(64)) as nat, (x - bv) as nat],
                }
            } by {
                vstd::arithmetic::power2::lemma_pow2_pos(w);
                vstd::arithmetic::power2::lemma2_to64();
                let e = un_enc_at(*registry, sig, 1, x);
                let ar = args2(rc, e);
                // The source value's register holds the value itself.
                assert(e == x) by {
                    if src_bounded {
                    } else {
                        vstd::arithmetic::div_mod::lemma_small_mod(x as nat, pow2(w));
                    }
                }
                assert(x < pow2(w)) by {
                    crate::utils::lemma_bit_len((lu.1 - 1) as nat);
                    crate::utils::lemma_bit_len((lu.1 - lu.0 - 1) as nat);
                }
                assert(args_fit(ar, params));
                // Entry block values.
                let ops0 = old(body).blocks@[entry as int].ops@;
                let opsa0 = body_a0.blocks@[entry as int].ops@;
                let opsa = body_a.blocks@[entry as int].ops@;
                let opsb0 = body_b0.blocks@[entry as int].ops@;
                let opsb = body_b.blocks@[entry as int].ops@;
                let va0 = vals_after(ar, params, opsa0);
                let va = vals_after(ar, params, opsa);
                let vb0 = vals_after(ar, params, opsb0);
                let vb = vals_after(ar, params, opsb);
                crate::ir::lemma_vals_after_len(ar, params, opsa0);
                crate::ir::lemma_vals_after_len(ar, params, opsa);
                crate::ir::lemma_vals_after_len(ar, params, opsb0);
                crate::ir::lemma_vals_after_len(ar, params, opsb);
                crate::ir::lemma_widths_after_len(params, opsa0);
                crate::ir::lemma_widths_after_len(params, opsa);
                crate::ir::lemma_widths_after_len(params, opsb0);
                crate::ir::lemma_widths_after_len(params, opsb);
                assert(fb.blocks@[entry as int].ops@ == opsb);
                // Step through: constant one, incremented counter.
                assert(opsa0.drop_last() == ops0);
                assert(vals_after(ar, params, ops0) == ar);
                assert(va0[c1 as int] == onev % pow2(64));
                vstd::arithmetic::div_mod::lemma_small_mod(1nat, pow2(64));
                assert(opsa.drop_last() == opsa0);
                assert(va[c1 as int] == va0[c1 as int]);
                assert(va[rc1 as int] == ((rc + 1) % pow2(64)) as nat);
                // The boundary constant and the comparison.
                assert(opsb0.drop_last() == opsa);
                assert(vb0[bcon as int] == bcv % pow2(w));
                assert(opsb.drop_last() == opsb0);
                assert(vb[bcon as int] == vb0[bcon as int]);
                assert(bcv == bv) by {
                    vstd::arithmetic::div_mod::lemma_small_mod(bv as nat, pow2(w));
                }
                vstd::arithmetic::div_mod::lemma_small_mod(bv as nat, pow2(w));
                assert(vb[1] == e && vb[rc1 as int] == va[rc1 as int]);
                assert(!is_signed);
                assert(vb[is_lower as int] == (if x < bv {
                    1nat
                } else {
                    0nat
                }));
                // The jump arguments.
                let rcv = ((rc + 1) % pow2(64)) as nat;
                let jargs = crate::ir::pick_vals(vb, seq![rc1, 1usize]);
                assert(jargs =~= seq![rcv, x as nat]);
                // The continuation blocks.
                let lo_ps = body_c.blocks@[b_lo as int].params@;
                assert(lo_ps =~= seq![64u64, src_width]);
                assert(args_fit(jargs, lo_ps));
                if x < bv {
                    let opse = body_e.blocks@[b_lo as int].ops@;
                    let opsf = body_f.blocks@[b_lo as int].ops@;
                    assert(fb.blocks@[b_lo as int].ops@ == opsf);
                    let ve = vals_after(jargs, lo_ps, opse);
                    let vf = vals_after(jargs, lo_ps, opsf);
                    crate::ir::lemma_vals_after_len(jargs, lo_ps, opse);
                    crate::ir::lemma_vals_after_len(jargs, lo_ps, opsf);
                    assert(ve[r_lo0 as int] == ((x - lo_off.val()) % (pow2(w) as int)) as nat);
                    assert(lo_off.val() == 0);
                    vstd::arithmetic::div_mod::lemma_small_mod(x as nat, pow2(w));
                    assert(ve[r_lo0 as int] == x as nat);
                    assert(vf[r_lo as int] == (x as nat) % pow2(lo_w as nat));
                    assert((x as nat) % pow2(lo_w as nat) == x as nat) by {
                        crate::utils::lemma_bit_len((bv - 1) as nat);
                        vstd::arithmetic::power2::lemma_pow2_pos(lo_w as nat);
                        vstd::arithmetic::div_mod::lemma_small_mod(x as nat, pow2(lo_w as nat));
                    }
                    assert(vf[0] == rcv && vf[1] == x as nat);
                    assert(crate::ir::pick_vals(vf, seq![0usize, r_lo]) =~= seq![rcv, x as nat]);
                    assert(eval_body_from(fb, b_lo as int, jargs, (fuel - 1) as nat)
                        == (Outcome::Branches { branch: 0nat, vals: seq![rcv, x as nat] }));
                } else {
                    let opsh = body_h.blocks@[b_hi as int].ops@;
                    let opsi = body_i.blocks@[b_hi as int].ops@;
                    assert(fb.blocks@[b_hi as int].ops@ == opsi);
                    let vh = vals_after(jargs, lo_ps, opsh);
                    let vi = vals_after(jargs, lo_ps, opsi);
                    crate::ir::lemma_vals_after_len(jargs, lo_ps, opsh);
                    crate::ir::lemma_vals_after_len(jargs, lo_ps, opsi);
                    assert(body_c.blocks@[b_hi as int].params@ =~= lo_ps);
                    assert(vh[r_hi0 as int] == ((x - hi_off.val()) % (pow2(w) as int)) as nat);
                    assert(hi_off.val() == bv);
                    vstd::arithmetic::div_mod::lemma_small_mod((x - bv) as nat, pow2(w));
                    assert(vh[r_hi0 as int] == (x - bv) as nat);
                    assert(vi[r_hi as int] == ((x - bv) as nat) % pow2(hi_w as nat));
                    assert(((x - bv) as nat) % pow2(hi_w as nat) == (x - bv) as nat) by {
                        crate::utils::lemma_bit_len((lu.1 - bv - 1) as nat);
                        vstd::arithmetic::power2::lemma_pow2_pos(hi_w as nat);
                        vstd::arithmetic::div_mod::lemma_small_mod(
                            (x - bv) as nat,
                            pow2(hi_w as nat),
                        );
                    }
                    assert(vi[0] == rcv && vi[1] == x as nat);
                    assert(crate::ir::pick_vals(vi, seq![0usize, r_hi]) =~= seq![
                        rcv,
                        (x - bv) as nat,
                    ]);
                    assert(eval_body_from(fb, b_hi as int, jargs, (fuel - 1) as nat)
                        == (Outcome::Branches {
                        branch: 1nat,
                        vals: seq![rcv, (x - bv) as nat],
                    }));
                }
            }
        }
    }
    Ok(())
}

/// The register encoding of the operand at the given parameter position.
pub open spec fn un_enc_at(
    registry: ProgramRegistry,
    sig: LibfuncSignature,
    idx: int,
    x: int,
) -> nat {
    let ty = registry.types@[sig.param_signatures@[idx] as int];
    operand_enc(
        spec_is_bounded_int(ty),
        spec_int_range(ty).unwrap().0,
        nat_width_of(ty),
        x,
    )
}

/// The signature shape of the trim libfunc: an invalid branch with no
/// outputs and a success branch carrying the narrowed value.
pub open spec fn trim_sig_ok(registry: ProgramRegistry, sig: LibfuncSignature) -> bool {
    &&& sig.param_signatures@.len() == 1
    &&& sig.param_signatures@[0] < registry.types@.len()
    &&& spec_int_range(un_src_ty(registry, sig)) is Some
    &&& sig.branch_signatures@.len() == 2
    &&& sig.branch_signatures@[0].vars@.len() == 0
    &&& sig.branch_signatures@[1].vars@.len() == 1
}

/// What the trim lowering guarantees: the block branches on equality with
/// the trimmed value — branch 0 empty-handed for the trimmed value itself,
/// branch 1 carrying the re-offset kept value — each branch with exactly as
/// many values as its signature declares.
pub open spec fn trim_postcond(
    registry: ProgramRegistry,
    sig: LibfuncSignature,
    tv: int,
    oldb: FuncBody,
    newb: FuncBody,
    entry: int,
    res: Result<(), Error>,
) -> bool {
    let lu = spec_int_range(un_src_ty(registry, sig)).unwrap();
    let w = nat_width_of(un_src_ty(registry, sig));
    &&& res is Ok
    &&& newb.blocks@ == oldb.blocks@.update(entry, newb.blocks@[entry])
    &&& newb.blocks@[entry].term matches Some(Terminator::CondBranchOut {
        branch_true,
        args_true,
        branch_false,
        args_false,
        ..
    }) && branch_true == 0 && branch_false == 1 && args_true@.len()
        == sig.branch_signatures@[0].vars@.len() && args_false@.len()
        == sig.branch_signatures@[1].vars@.len()
    &&& (!spec_is_bounded_int(un_src_ty(registry, sig)) && lu.0 <= tv < lu.1) ==> forall|
        x: int,
        fuel: nat,
    |
        lu.0 <= x < lu.1 && fuel >= 1 ==> #[trigger] eval_body_from(
            newb,
            entry,
            crate::libfuncs::args1(un_enc(registry, sig, x)),
            fuel,
        ) == if x == tv {
            Outcome::Branches { branch: 0nat, vals: Seq::<nat>::empty() }
        } else {
            Outcome::Branches {
                branch: 1nat,
                vals: seq![((x - trim_adjust(registry, sig, tv)) % (pow2(w) as int)) as nat],
            }
        }
}

/// The adjustment subtracted from the register on the success branch: the
/// trimmed value plus one when the representation must be re-offset (the
/// range loses its lowest value, or is signed), nothing otherwise.
pub open spec fn trim_adjust(registry: ProgramRegistry, sig: LibfuncSignature, tv: int) -> int {
    let lu = spec_int_range(un_src_ty(registry, sig)).unwrap();
    if tv == 0 || lu.0 < 0 {
        tv + 1
    } else {
        0
    }
}

/// Generate the operations for the trim libfunc: compare against the
/// trimmed value and branch, re-offsetting the kept value when needed.
#[verifier::rlimit(100)]
pub fn build_trim(
    registry: &ProgramRegistry,
    body: &mut FuncBody,
    entry: usize,
    _metadata: &mut MetadataStorage,
    info: &BoundedIntTrimConcreteLibfunc,
) -> (res: Result<(), Error>)
    requires
        registry.wf(),
        trim_sig_ok(*registry, info.signature),
        un_entry_ok(*registry, info.signature, *old(body), entry as int),
        info.trimmed_value.wf(),
    ensures
        trim_postcond(
            *registry,
            info.signature,
            info.trimmed_value.val(),
            *old(body),
            *final(body),
            entry as int,
            res,
        ),
{
    let ghost sig = info.signature;
    let ghost params = body.blocks@[entry as int].params@;
    let ghost ty_s = un_src_ty(*registry, sig);
    let ghost lu = spec_int_range(ty_s).unwrap();
    let ghost tv = info.trimmed_value.val();

    let src_ty = match registry.get_type(info.signature.param_signatures[0]) {
        Ok(t) => t,
        Err(e) => {
            proof {
                assert(false);
            }
            return Err(e);
        },
    };
    let src_range = match src_ty.integer_range() {
        Ok(r) => r,
        Err(e) => {
            proof {
                assert(false);
            }
            return Err(e);
        },
    };
    let src_bounded = src_ty.is_bounded_int();
    let src_width: u64 = if src_bounded {
        src_range.offset_bit_width()
    } else {
        src_range.zero_based_bit_width()
    };
    proof {
        let st = if src_bounded {
            src_range.offset_target()
        } else {
            src_range.zero_based_target()
        };
        assert(st < pow2(0xFFFF_FFFF as nat)) by {
            assert(st < 2 * crate::utils::bound_limit());
            assert(2 * pow2(0xFFFF_FFFE as nat) == pow2(0xFFFF_FFFF as nat)) by {
                vstd::arithmetic::power2::lemma_pow2_adds(0xFFFF_FFFE as nat, 1);
                vstd::arithmetic::power2::lemma2_to64();
            }
        }
        crate::utils::lemma_width_in_limit(st, src_width as nat);
        lemma_exec_width(ty_s, src_range, src_bounded, src_width);
        if !src_bounded {
            lemma_ranges_enc_ok(ty_s);
        }
    }

    // The trimmed value as a constant, and the equality test.
    let tc = crate::libfuncs::signed_mod_pow2(&info.trimmed_value, src_width);
    let ghost tcv = big(tc);
    let tcon = body.push_op(entry, Op::ConstInt { w: src_width, c: tc });
    let ghost body_a = *body;
    let is_invalid = body.push_op(entry, Op::Cmpi { pred: crate::ir::CmpPred::Eq, a: 0, b: tcon });
    let ghost body_b = *body;

    // Re-offset the kept value into the narrowed range where needed.
    let t_zero = crate::bignum::big_is_zero(&info.trimmed_value.mag);
    let needs_adjust = t_zero || src_range.lower.is_neg();
    let one = Signed::from_u128(1);
    let adj = info.trimmed_value.add_val(&one);
    let kept: usize = if needs_adjust {
        let ac = crate::libfuncs::signed_mod_pow2(&adj, src_width);
        let ghost acv = big(ac);
        let acon = body.push_op(entry, Op::ConstInt { w: src_width, c: ac });
        let ghost body_c = *body;
        let k = body.push_op(entry, Op::SubI { a: 0, b: acon });
        proof {
            let opsb = body_b.blocks@[entry as int].ops@;
            let opsc = body_c.blocks@[entry as int].ops@;
            let opsd = body.blocks@[entry as int].ops@;
            assert forall|ar: Seq<nat>| args_fit(ar, params) implies {
                let vb = vals_after(ar, params, opsb);
                let nv = #[trigger] vals_after(ar, params, opsd);
                &&& forall|i: int| 0 <= i < vb.len() ==> nv[i] == vb[i]
                &&& nv[k as int] == ((vb[0] - (tv + 1)) % (pow2(src_width as nat) as int)) as nat
            } by {
                crate::ir::lemma_vals_after_len(ar, params, opsb);
                crate::ir::lemma_vals_after_len(ar, params, opsc);
                crate::ir::lemma_vals_after_len(ar, params, opsd);
                crate::ir::lemma_widths_after_len(params, opsb);
                crate::ir::lemma_widths_after_len(params, opsc);
                let vb = vals_after(ar, params, opsb);
                let vc = vals_after(ar, params, opsc);
                let nv = vals_after(ar, params, opsd);
                assert(opsc.drop_last() == opsb);
                assert(opsd.drop_last() == opsc);
                vstd::arithmetic::power2::lemma_pow2_pos(src_width as nat);
                assert(vc[acon as int] == acv % pow2(src_width as nat));
                assert(acv < pow2(src_width as nat));
                vstd::arithmetic::div_mod::lemma_small_mod(acv, pow2(src_width as nat));
                assert(acv == const_enc(tv + 1, src_width as nat));
                assert(vc[0] == vb[0]);
                assert(nv[k as int] == ((vc[0] - vc[acon as int]) % (pow2(
                    src_width as nat,
                ) as int)) as nat);
                vstd::arithmetic::div_mod::lemma_sub_mod_noop_right(
                    vb[0] as int,
                    tv + 1,
                    pow2(src_width as nat) as int,
                );
            }
        }
        k
    } else {
        0
    };
    let ghost body_d = *body;

    let empty_args: Vec<usize> = Vec::new();
    let mut keep_args: Vec<usize> = Vec::new();
    keep_args.push(kept);
    proof {
        assert(empty_args@ =~= Seq::<usize>::empty());
        assert(keep_args@ =~= seq![kept]);
    }
    body.set_term(
        entry,
        Terminator::CondBranchOut {
            cond: is_invalid,
            branch_true: 0,
            args_true: empty_args,
            branch_false: 1,
            args_false: keep_args,
        },
    );

    proof {
        let fb = *body;
        assert(fb.blocks@ =~= old(body).blocks@.update(entry as int, fb.blocks@[entry as int]));
        if !src_bounded && lu.0 <= tv < lu.1 {
            let w = src_width as nat;
            assert forall|x: int, fuel: nat|
                #![trigger eval_body_from(
                    *body,
                    entry as int,
                    crate::libfuncs::args1(un_enc(*registry, sig, x)),
                    fuel,
                )]
                lu.0 <= x < lu.1 && fuel >= 1 implies {
                eval_body_from(
                    *body,
                    entry as int,
                    crate::libfuncs::args1(un_enc(*registry, sig, x)),
                    fuel,
                ) == if x == tv {
                    Outcome::Branches { branch: 0nat, vals: Seq::<nat>::empty() }
                } else {
                    Outcome::Branches {
                        branch: 1nat,
                        vals: seq![((x - trim_adjust(*registry, sig, tv)) % (pow2(
                            w,
                        ) as int)) as nat],
                    }
                }
            } by {
                vstd::arithmetic::power2::lemma_pow2_pos(w);
                let e = un_enc(*registry, sig, x);
                let ar = crate::libfuncs::args1(e);
                vstd::arithmetic::div_mod::lemma_mod_bound(x, pow2(w) as int);
                assert(args_fit(ar, params));
                let ops0 = old(body).blocks@[entry as int].ops@;
                let opsa = body_a.blocks@[entry as int].ops@;
                let opsb = body_b.blocks@[entry as int].ops@;
                let opsd = body_d.blocks@[entry as int].ops@;
                let va = vals_after(ar, params, opsa);
                let vb = vals_after(ar, params, opsb);
                let vd = vals_after(ar, params, opsd);
                crate::ir::lemma_vals_after_len(ar, params, opsa);
                crate::ir::lemma_vals_after_len(ar, params, opsb);
                crate::ir::lemma_vals_after_len(ar, params, opsd);
                crate::ir::lemma_widths_after_len(params, opsa);
                crate::ir::lemma_widths_after_len(params, opsb);
                assert(fb.blocks@[entry as int].ops@ == opsd);
                assert(opsa.drop_last() == ops0);
                assert(vals_after(ar, params, ops0) == ar);
                assert(va[tcon as int] == tcv % pow2(w));
                assert(tcv < pow2(w));
                vstd::arithmetic::div_mod::lemma_small_mod(tcv, pow2(w));
                assert(tcv == const_enc(tv, w));
                assert(opsb.drop_last() == opsa);
                assert(vb[0] == e && vb[tcon as int] == va[tcon as int]);
                // The equality test decides by the represented value.
                assert(e == const_enc(x, w));
                assert(e == va[tcon as int] <==> x == tv) by {
                    lemma_const_enc_injective(x, tv, lu.0, lu.1, w);
                    assert(va[tcon as int] == const_enc(tv, w));
                }
                assert(vb[is_invalid as int] == (if x == tv {
                    1nat
                } else {
                    0nat
                }));
                if needs_adjust {
                    assert(trim_adjust(*registry, sig, tv) == tv + 1);
                    assert(vd[kept as int] == ((vb[0] - (tv + 1)) % (pow2(w) as int)) as nat);
                    assert(vd[kept as int] == ((x - (tv + 1)) % (pow2(w) as int)) as nat) by {
                        vstd::arithmetic::div_mod::lemma_sub_mod_noop(
                            x,
                            tv + 1,
                            pow2(w) as int,
                        );
                        vstd::arithmetic::div_mod::lemma_mod_bound(tv + 1, pow2(w) as int);
                        assert(vb[0] == const_enc(x, w));
                        assert((const_enc(x, w) - (tv + 1)) % (pow2(w) as int) == (x - (tv + 1))
                            % (pow2(w) as int)) by {
                            vstd::arithmetic::div_mod::lemma_sub_mod_noop(
                                x,
                                tv + 1,
                                pow2(w) as int,
                            );
                            vstd::arithmetic::div_mod::lemma_sub_mod_noop_right(
                                x % (pow2(w) as int),
                                tv + 1,
                                pow2(w) as int,
                            );
                        }
                    }
                } else {
                    assert(trim_adjust(*registry, sig, tv) == 0);
                    assert(vd == vb);
                    assert(vd[kept as int] == ((x - 0) % (pow2(w) as int)) as nat);
                }
                assert(vd[0] == e && vd[is_invalid as int] == vb[is_invalid as int]) by {
                    if needs_adjust {
                    } else {
                    }
                }
                if x == tv {
                    assert(crate::ir::pick_vals(vd, Seq::<usize>::empty())
                        =~= Seq::<nat>::empty());
                } else {
                    assert(crate::ir::pick_vals(vd, seq![kept]) =~= seq![vd[kept as int]]);
                }
            }
        }
    }
    Ok(())
}

/// Two's-complement encoding is injective on a range that fits the width.
proof fn lemma_const_enc_injective(x: int, y: int, l: int, u: int, w: nat)
    requires
        l <= x < u,
        l <= y < u,
        enc_ok(l, u, w),
    ensures
        const_enc(x, w) == const_enc(y, w) <==> x == y,
{
    vstd::arithmetic::power2::lemma_pow2_pos(w);
    let p = pow2(w) as int;
    if l >= 0 {
        vstd::arithmetic::div_mod::lemma_small_mod(x as nat, pow2(w));
        vstd::arithmetic::div_mod::lemma_small_mod(y as nat, pow2(w));
    } else {
        assert(pow2(w) == 2 * pow2((w - 1) as nat)) by {
            vstd::arithmetic::power2::lemma_pow2_adds((w - 1) as nat, 1);
            vstd::arithmetic::power2::lemma2_to64();
        }
        if x >= 0 {
            vstd::arithmetic::div_mod::lemma_small_mod(x as nat, pow2(w));
        } else {
            vstd::arithmetic::div_mod::lemma_mod_add_multiples_vanish(x, p);
            vstd::arithmetic::div_mod::lemma_small_mod((x + p) as nat, pow2(w));
        }
        if y >= 0 {
            vstd::arithmetic::div_mod::lemma_small_mod(y as nat, pow2(w));
        } else {
            vstd::arithmetic::div_mod::lemma_mod_add_multiples_vanish(y, p);
            vstd::arithmetic::div_mod::lemma_small_mod((y + p) as nat, pow2(w));
        }
    }
}

/// Select and call the correct libfunc builder function from the selector.
pub fn build(
    registry: &ProgramRegistry,
    body: &mut FuncBody,
    entry: usize,
    metadata: &mut MetadataStorage,
    selector: &BoundedIntConcreteLibfunc,
) -> (res: Result<(), Error>)
    requires
        registry.wf(),
        match selector {
            BoundedIntConcreteLibfunc::Add(info) => arith_sig_ok(*registry, info.signature)
                && arith_entry_ok(*registry, info.signature, *old(body), entry as int),
            BoundedIntConcreteLibfunc::Sub(info) => arith_sig_ok(*registry, info.signature)
                && arith_entry_ok(*registry, info.signature, *old(body), entry as int),
            BoundedIntConcreteLibfunc::Mul(info) => arith_sig_ok(*registry, info.signature)
                && arith_entry_ok(*registry, info.signature, *old(body), entry as int),
            BoundedIntConcreteLibfunc::DivRem(info) => divrem_sig_ok(*registry, info.signature)
                && divrem_entry_ok(*registry, info.signature, *old(body), entry as int)
                && old(body).blocks@[entry as int].n_vals() + 14 < usize::MAX,
            BoundedIntConcreteLibfunc::Constrain(info) => con_sig_ok(*registry, info.signature)
                && con_entry_ok(*registry, info.signature, *old(body), entry as int)
                && info.boundary.wf() && old(body).blocks@.len() + 2 < usize::MAX,
            BoundedIntConcreteLibfunc::Trim(info) => trim_sig_ok(*registry, info.signature)
                && un_entry_ok(*registry, info.signature, *old(body), entry as int)
                && info.trimmed_value.wf(),
            BoundedIntConcreteLibfunc::IsZero(info) => is_zero_sig_ok(*registry, info.signature)
                && un_entry_ok(*registry, info.signature, *old(body), entry as int),
            BoundedIntConcreteLibfunc::WrapNonZero(info) => wrap_sig_ok(*registry, info.signature)
                && un_entry_ok(*registry, info.signature, *old(body), entry as int),
        },
    ensures
        match selector {
            BoundedIntConcreteLibfunc::Add(info) => res is Ok && arith_postcond(
                ArithKind::Add,
                *registry,
                info.signature,
                *old(body),
                *final(body),
                entry as int,
            ),
            BoundedIntConcreteLibfunc::Sub(info) => res is Ok && arith_postcond(
                ArithKind::Sub,
                *registry,
                info.signature,
                *old(body),
                *final(body),
                entry as int,
            ),
            BoundedIntConcreteLibfunc::Mul(info) => res is Ok && arith_postcond(
                ArithKind::Mul,
                *registry,
                info.signature,
                *old(body),
                *final(body),
                entry as int,
            ),
            BoundedIntConcreteLibfunc::DivRem(info) => res is Ok && divrem_postcond(
                *registry,
                info.signature,
                *old(body),
                *final(body),
                entry as int,
            ),
            BoundedIntConcreteLibfunc::Constrain(info) => constrain_postcond(
                *registry,
                info.signature,
                info.boundary.val(),
                *old(body),
                *final(body),
                entry as int,
                res,
            ),
            BoundedIntConcreteLibfunc::Trim(info) => trim_postcond(
                *registry,
                info.signature,
                info.trimmed_value.val(),
                *old(body),
                *final(body),
                entry as int,
                res,
            ),
            BoundedIntConcreteLibfunc::IsZero(info) => is_zero_postcond(
                *registry,
                info.signature,
                *old(body),
                *final(body),
                entry as int,
                res,
            ),
            BoundedIntConcreteLibfunc::WrapNonZero(info) => wrap_non_zero_postcond(
                *registry,
                info.signature,
                *old(body),
                *final(body),
                entry as int,
                res,
            ),
        },
{
    match selector {
        BoundedIntConcreteLibfunc::Add(info) => build_add(registry, body, entry, metadata, info),
        BoundedIntConcreteLibfunc::Sub(info) => build_sub(registry, body, entry, metadata, info),
        BoundedIntConcreteLibfunc::Mul(info) => build_mul(registry, body, entry, metadata, info),
        BoundedIntConcreteLibfunc::DivRem(info) => build_divrem(
            registry,
            body,
            entry,
            metadata,
            info,
        ),
        BoundedIntConcreteLibfunc::Constrain(info) => build_constrain(
            registry,
            body,
            entry,
            metadata,
            info,
        ),
        BoundedIntConcreteLibfunc::Trim(info) => build_trim(registry, body, entry, metadata, info),
        BoundedIntConcreteLibfunc::IsZero(info) => build_is_zero(
            registry,
            body,
            entry,
            metadata,
            info,
        ),
        BoundedIntConcreteLibfunc::WrapNonZero(info) => build_wrap_non_zero(
            registry,
            body,
            entry,
            metadata,
            info,
        ),
    }
}

/// The signature shape of the bounded division libfunc: a range-check
/// token, dividend and divisor in; the token, quotient and remainder out.
pub open spec fn divrem_sig_ok(registry: ProgramRegistry, sig: LibfuncSignature) -> bool {
    &&& sig.param_signatures@.len() == 3
    &&& sig.branch_signatures@.len() == 1
    &&& sig.branch_signatures@[0].vars@.len() == 3
    &&& sig.param_signatures@[1] < registry.types@.len()
    &&& sig.param_signatures@[2] < registry.types@.len()
    &&& sig.branch_signatures@[0].vars@[1] < registry.types@.len()
    &&& sig.branch_signatures@[0].vars@[2] < registry.types@.len()
    &&& spec_int_range(divrem_lhs_ty(registry, sig)) is Some
    &&& spec_int_range(divrem_rhs_ty(registry, sig)) is Some
    &&& spec_int_range(divrem_div_ty(registry, sig)) is Some
    &&& spec_int_range(divrem_rem_ty(registry, sig)) is Some
}

pub open spec fn divrem_lhs_ty(registry: ProgramRegistry, sig: LibfuncSignature) -> ConcreteType {
    registry.types@[sig.param_signatures@[1] as int]
}

pub open spec fn divrem_rhs_ty(registry: ProgramRegistry, sig: LibfuncSignature) -> ConcreteType {
    registry.types@[sig.param_signatures@[2] as int]
}

pub open spec fn divrem_div_ty(registry: ProgramRegistry, sig: LibfuncSignature) -> ConcreteType {
    registry.types@[sig.branch_signatures@[0].vars@[1] as int]
}

pub open spec fn divrem_rem_ty(registry: ProgramRegistry, sig: LibfuncSignature) -> ConcreteType {
    registry.types@[sig.branch_signatures@[0].vars@[2] as int]
}

/// The entry block the division builder expects.
pub open spec fn divrem_entry_ok(
    registry: ProgramRegistry,
    sig: LibfuncSignature,
    body: FuncBody,
    entry: int,
) -> bool {
    &&& 0 <= entry < body.blocks@.len()
    &&& body.blocks@[entry].ops@.len() == 0
    &&& body.blocks@[entry].term is None
    &&& body.blocks@[entry].params@.len() == 3
    &&& body.blocks@[entry].params@[0] == 64u64
    &&& body.blocks@[entry].params@[1] as nat == nat_width_of(divrem_lhs_ty(registry, sig))
    &&& body.blocks@[entry].params@[2] as nat == nat_width_of(divrem_rhs_ty(registry, sig))
}

/// What a successful division lowering guarantees: for non-negative
/// dividends and positive divisors in their ranges, the single branch
/// carries the advanced range-check token, then the quotient and the
/// remainder, each re-offset into its destination range.
pub open spec fn divrem_postcond(
    registry: ProgramRegistry,
    sig: LibfuncSignature,
    oldb: FuncBody,
    newb: FuncBody,
    entry: int,
) -> bool {
    let lu1 = spec_int_range(divrem_lhs_ty(registry, sig)).unwrap();
    let lu2 = spec_int_range(divrem_rhs_ty(registry, sig)).unwrap();
    let luq = spec_int_range(divrem_div_ty(registry, sig)).unwrap();
    let lur = spec_int_range(divrem_rem_ty(registry, sig)).unwrap();
    let wq = bit_len((luq.1 - luq.0 - 1) as nat);
    let wr = bit_len((lur.1 - lur.0 - 1) as nat);
    &&& newb.blocks@.len() == oldb.blocks@.len()
    &&& newb.blocks@[entry].params == oldb.blocks@[entry].params
    &&& newb.blocks@[entry].term matches Some(Terminator::BranchOut { branch, args }) && branch
        == 0 && args@.len() == sig.branch_signatures@[0].vars@.len()
    &&& forall|a: int, b: int, rc: nat, fuel: nat|
        lu1.0 <= a < lu1.1 && lu2.0 <= b < lu2.1 && a >= 0 && b >= 1 && rc < pow2(64) && fuel >= 1
            ==> #[trigger] eval_body_from(
            newb,
            entry,
            crate::libfuncs::args3(
                rc,
                un_enc_at(registry, sig, 1, a),
                un_enc_at(registry, sig, 2, b),
            ),
            fuel,
        ) == (Outcome::Branches {
            branch: 0nat,
            vals: seq![
                ((rc + 1) % pow2(64)) as nat,
                ((a / b - luq.0) % (pow2(wq) as int)) as nat,
                ((a % b - lur.0) % (pow2(wr) as int)) as nat,
            ],
        })
}

/// Generate the operations for the bounded division libfunc, which divides
/// two non-negative sub-ranged integers into quotient and remainder and
/// advances the range-check counter.
#[verifier::rlimit(100)]
#[verifier::spinoff_prover]
pub fn build_divrem(
    registry: &ProgramRegistry,
    body: &mut FuncBody,
    entry: usize,
    _metadata: &mut MetadataStorage,
    info: &BoundedIntDivRemConcreteLibfunc,
) -> (res: Result<(), Error>)
    requires
        registry.wf(),
        divrem_sig_ok(*registry, info.signature),
        divrem_entry_ok(*registry, info.signature, *old(body), entry as int),
        old(body).blocks@[entry as int].n_vals() + 14 < usize::MAX,
    ensures
        res is Ok,
        divrem_postcond(*registry, info.signature, *old(body), *final(body), entry as int),
{
    let ghost sig = info.signature;
    let ghost params = body.blocks@[entry as int].params@;
    let ghost lhs_ty_s = divrem_lhs_ty(*registry, sig);
    let ghost rhs_ty_s = divrem_rhs_ty(*registry, sig);
    let ghost lu1 = spec_int_range(lhs_ty_s).unwrap();
    let ghost lu2 = spec_int_range(rhs_ty_s).unwrap();
    let ghost luq = spec_int_range(divrem_div_ty(*registry, sig)).unwrap();
    let ghost lur = spec_int_range(divrem_rem_ty(*registry, sig)).unwrap();

    let (lhs_range, lhs_bounded, lhs_width) = match crate::libfuncs::resolve_operand(
        registry,
        info.signature.param_signatures[1],
    ) {
        Ok(t) => t,
        Err(_) => {
            proof {
                assert(false);
            }
            return Err(Error::IntegerLikeTypeExpected);
        },
    };
    let (rhs_range, rhs_bounded, rhs_width) = match crate::libfuncs::resolve_operand(
        registry,
        info.signature.param_signatures[2],
    ) {
        Ok(t) => t,
        Err(_) => {
            proof {
                assert(false);
            }
            return Err(Error::IntegerLikeTypeExpected);
        },
    };
    let (div_range, _div_bounded, _div_width) = match crate::libfuncs::resolve_operand(
        registry,
        info.signature.branch_signatures[0].vars[1],
    ) {
        Ok(t) => t,
        Err(_) => {
            proof {
                assert(false);
            }
            return Err(Error::IntegerLikeTypeExpected);
        },
    };
    let (rem_range, _rem_bounded, _rem_width) = match crate::libfuncs::resolve_operand(
        registry,
        info.signature.branch_signatures[0].vars[2],
    ) {
        Ok(t) => t,
        Err(_) => {
            proof {
                assert(false);
            }
            return Err(Error::IntegerLikeTypeExpected);
        },
    };

    // Calculate the computation range, forcibly including zero.
    let zero = Signed::from_u128(0);
    let compute_lower = lhs_range.lower.min_val(&rhs_range.lower).min_val(
        &div_range.lower,
    ).min_val(&rem_range.lower).min_val(&zero);
    let compute_upper = lhs_range.upper.max_val(&rhs_range.upper).max_val(
        &div_range.upper,
    ).max_val(&rem_range.upper);
    let compute_range = crate::utils::Range { lower: compute_lower, upper: compute_upper };
    proof {
        assert(compute_range.wf());
    }
    let compute_w = compute_range.zero_based_bit_width();
    let div_w = div_range.offset_bit_width();
    let rem_w = rem_range.offset_bit_width();
    proof {
        let ct = compute_range.zero_based_target();
        crate::utils::lemma_bit_len(ct);
        crate::utils::lemma_bit_len_unique(ct, compute_w as nat, bit_len(ct));
        crate::utils::lemma_bit_len(div_range.offset_target());
        crate::utils::lemma_bit_len_unique(
            div_range.offset_target(),
            div_w as nat,
            bit_len(div_range.offset_target()),
        );
        crate::utils::lemma_bit_len(rem_range.offset_target());
        crate::utils::lemma_bit_len_unique(
            rem_range.offset_target(),
            rem_w as nat,
            bit_len(rem_range.offset_target()),
        );
        crate::utils::lemma_bit_len_monotone(
            if lhs_bounded {
                lhs_range.offset_target()
            } else {
                lhs_range.zero_based_target()
            },
            lhs_width as nat,
            ct,
            compute_w as nat,
        );
        crate::utils::lemma_bit_len_monotone(
            if rhs_bounded {
                rhs_range.offset_target()
            } else {
                rhs_range.zero_based_target()
            },
            rhs_width as nat,
            ct,
            compute_w as nat,
        );
        crate::utils::lemma_bit_len_monotone(
            div_range.offset_target(),
            div_w as nat,
            ct,
            compute_w as nat,
        );
        crate::utils::lemma_bit_len_monotone(
            rem_range.offset_target(),
            rem_w as nat,
            ct,
            compute_w as nat,
        );
        assert(ct < pow2(0xFFFF_FFFF as nat)) by {
            assert(ct < 2 * crate::utils::bound_limit());
            assert(2 * pow2(0xFFFF_FFFE as nat) == pow2(0xFFFF_FFFF as nat)) by {
                vstd::arithmetic::power2::lemma_pow2_adds(0xFFFF_FFFE as nat, 1);
                vstd::arithmetic::power2::lemma2_to64();
            }
        }
        crate::utils::lemma_width_in_limit(ct, compute_w as nat);
    }
    if compute_w < lhs_width {
        proof {
            assert(false);
        }
        return Err(Error::NativeAssert(crate::error::panic::NativeAssertError::new(
            <String as vstd::string::StringExecFns>::from_str(
                "the lhs bit width must be less or equal than the compute range's",
            ),
        )));
    }
    if compute_w < rhs_width {
        proof {
            assert(false);
        }
        return Err(Error::NativeAssert(crate::error::panic::NativeAssertError::new(
            <String as vstd::string::StringExecFns>::from_str(
                "the rhs bit width must be less or equal than the compute range's",
            ),
        )));
    }

    proof {
        // Every operand value fits the computation width.
        assert(compute_range.upper.val() <= pow2(compute_w as nat)) by {
            crate::utils::lemma_bit_len(compute_range.zero_based_target());
        }
    }
    let res = divrem_tail(body, entry, compute_w, div_w, rem_w, lhs_width, rhs_width, lhs_bounded,
        rhs_bounded, &lhs_range, &rhs_range, &div_range, &rem_range, &compute_range);
    proof {
        let fb = *body;
        let wq = bit_len((luq.1 - luq.0 - 1) as nat);
        let wr = bit_len((lur.1 - lur.0 - 1) as nat);
        assert forall|a: int, b: int, rc: nat, fuel: nat|
            lu1.0 <= a < lu1.1 && lu2.0 <= b < lu2.1 && a >= 0 && b >= 1 && rc < pow2(64) && fuel
                >= 1 implies #[trigger] eval_body_from(
            fb,
            entry as int,
            crate::libfuncs::args3(
                rc,
                un_enc_at(*registry, sig, 1, a),
                un_enc_at(*registry, sig, 2, b),
            ),
            fuel,
        ) == (Outcome::Branches {
            branch: 0nat,
            vals: seq![
                ((rc + 1) % pow2(64)) as nat,
                ((a / b - luq.0) % (pow2(wq) as int)) as nat,
                ((a % b - lur.0) % (pow2(wr) as int)) as nat,
            ],
        }) by {
            // The tail's guarantee is phrased over the resolved ranges and
            // widths, which are exactly the types' declared ones.
            let t = eval_body_from(
                fb,
                entry as int,
                crate::libfuncs::args3(
                    rc,
                    operand_enc(lhs_bounded, lhs_range.lower.val(), lhs_width as nat, a),
                    operand_enc(rhs_bounded, rhs_range.lower.val(), rhs_width as nat, b),
                ),
                fuel,
            );
            assert(un_enc_at(*registry, sig, 1, a) == operand_enc(
                lhs_bounded,
                lhs_range.lower.val(),
                lhs_width as nat,
                a,
            ));
            assert(un_enc_at(*registry, sig, 2, b) == operand_enc(
                rhs_bounded,
                rhs_range.lower.val(),
                rhs_width as nat,
                b,
            ));
        }
    }
    res
}

/// Emit the operations of the division libfunc, once the ranges and widths
/// have been resolved and checked.
#[verifier::rlimit(100)]
fn divrem_tail(
    body: &mut FuncBody,
    entry: usize,
    compute_w: u64,
    div_w: u64,
    rem_w: u64,
    lhs_width: u64,
    rhs_width: u64,
    lhs_bounded: bool,
    rhs_bounded: bool,
    lhs_range: &crate::utils::Range,
    rhs_range: &crate::utils::Range,
    div_range: &crate::utils::Range,
    rem_range: &crate::utils::Range,
    compute_range: &crate::utils::Range,
) -> (res: Result<(), Error>)
    requires
        entry < old(body).blocks@.len(),
        old(body).blocks@[entry as int].ops@.len() == 0,
        old(body).blocks@[entry as int].term is None,
        old(body).blocks@[entry as int].params@.len() == 3,
        old(body).blocks@[entry as int].params@[0] == 64u64,
        old(body).blocks@[entry as int].params@[1] == lhs_width,
        old(body).blocks@[entry as int].params@[2] == rhs_width,
        old(body).blocks@[entry as int].n_vals() + 16 < usize::MAX,
        lhs_width <= compute_w,
        rhs_width <= compute_w,
        div_w <= compute_w,
        rem_w <= compute_w,
        crate::libfuncs::width_ok(compute_w),
        lhs_range.wf(),
        rhs_range.wf(),
        div_range.lower.wf(),
        rem_range.lower.wf(),
        compute_range.lower.wf(),
        lhs_bounded ==> crate::utils::is_bit_len(lhs_range.offset_target(), lhs_width as nat),
        rhs_bounded ==> crate::utils::is_bit_len(rhs_range.offset_target(), rhs_width as nat),
        !lhs_bounded ==> enc_ok(lhs_range.lower.val(), lhs_range.upper.val(), lhs_width as nat),
        !rhs_bounded ==> enc_ok(rhs_range.lower.val(), rhs_range.upper.val(), rhs_width as nat),
        lhs_range.upper.val() <= pow2(compute_w as nat),
        rhs_range.upper.val() <= pow2(compute_w as nat),
        compute_range.lower.val() <= div_range.lower.val(),
        compute_range.lower.val() <= rem_range.lower.val(),
    ensures
        res is Ok,
        final(body).blocks@.len() == old(body).blocks@.len(),
        final(body).blocks@[entry as int].params == old(body).blocks@[entry as int].params,
        final(body).blocks@[entry as int].term matches Some(Terminator::BranchOut {
            branch,
            args,
        }) && branch == 0 && args@.len() == 3,
        // For non-negative dividends and positive divisors in their ranges,
        // the branch carries the advanced range-check token, then the
        // quotient and the remainder, each re-offset into its output range.
        forall|a: int, b: int, rc: nat, fuel: nat|
            lhs_range.holds(a) && rhs_range.holds(b) && a >= 0 && b >= 1 && rc < pow2(64) && fuel
                >= 1 ==> #[trigger] eval_body_from(
                *final(body),
                entry as int,
                crate::libfuncs::args3(
                    rc,
                    operand_enc(lhs_bounded, lhs_range.lower.val(), lhs_width as nat, a),
                    operand_enc(rhs_bounded, rhs_range.lower.val(), rhs_width as nat, b),
                ),
                fuel,
            ) == (Outcome::Branches {
                branch: 0nat,
                vals: seq![
                    ((rc + 1) % pow2(64)) as nat,
                    ((a / b - div_range.lower.val()) % (pow2(div_w as nat) as int)) as nat,
                    ((a % b - rem_range.lower.val()) % (pow2(rem_w as nat) as int)) as nat,
                ],
            }),
{
    let ghost params = body.blocks@[entry as int].params@;
    // Advance the range-check counter.
    let one = crate::bignum::big_from_u128(1);
    proof {
        vstd::arithmetic::power2::lemma2_to64();
    }
    let ghost onev = big(one);
    let c1 = body.push_op(entry, Op::ConstInt { w: 64, c: one });
    let ghost body_s1 = *body;
    let rc1 = body.push_op(entry, Op::AddI { a: 0, b: c1 });
    let ghost body_s2 = *body;

    // Prepare the operands as absolute values in the computation width:
    // extend, then add back the lower bound of an offset representation.
    // The extension and offset are emitted unconditionally; on an operand
    // already at the computation width, or with a zero lower bound, they
    // leave the value unchanged.
    proof {
        assert(body.blocks@[entry as int].widths() == params.push(64u64).push(64u64));
    }
    let ext1 = if compute_w > lhs_width {
        if !lhs_bounded && lhs_range.lower.is_neg() && lhs_width >= 1 {
            Op::ExtSi { v: 1, w: compute_w }
        } else {
            Op::ExtUi { v: 1, w: compute_w }
        }
    } else {
        Op::ExtUi { v: 1, w: compute_w }
    };
    let t1 = body.push_op(entry, ext1);
    let ghost body_s3 = *body;
    let k1m = if lhs_bounded {
        crate::libfuncs::signed_mod_pow2(&lhs_range.lower, compute_w)
    } else {
        crate::bignum::big_from_u128(0)
    };
    proof {
        vstd::arithmetic::power2::lemma_pow2_pos(compute_w as nat);
    }
    let ghost k1v = big(k1m);
    let k1i = body.push_op(entry, Op::ConstInt { w: compute_w, c: k1m });
    let ghost body_s4 = *body;
    let r1 = body.push_op(entry, Op::AddI { a: t1, b: k1i });
    let ghost body_s5 = *body;

    let ext2 = if compute_w > rhs_width {
        if !rhs_bounded && rhs_range.lower.is_neg() && rhs_width >= 1 {
            Op::ExtSi { v: 2, w: compute_w }
        } else {
            Op::ExtUi { v: 2, w: compute_w }
        }
    } else {
        Op::ExtUi { v: 2, w: compute_w }
    };
    let t2 = body.push_op(entry, ext2);
    let ghost body_s6 = *body;
    let k2m = if rhs_bounded {
        crate::libfuncs::signed_mod_pow2(&rhs_range.lower, compute_w)
    } else {
        crate::bignum::big_from_u128(0)
    };
    let ghost k2v = big(k2m);
    let k2i = body.push_op(entry, Op::ConstInt { w: compute_w, c: k2m });
    let ghost body_s7 = *body;
    let r2 = body.push_op(entry, Op::AddI { a: t2, b: k2i });
    let ghost body_s8 = *body;

    // Compute the operation.
    let r_div = body.push_op(entry, Op::DivUi { a: r1, b: r2 });
    let ghost body_s9 = *body;
    let r_rem = body.push_op(entry, Op::RemUi { a: r1, b: r2 });
    let ghost body_s10 = *body;

    // Offset and truncate the results to the output types.
    let div_offset = div_range.lower.max_val(&compute_range.lower);
    let rem_offset = rem_range.lower.max_val(&compute_range.lower);
    let qc = crate::libfuncs::signed_mod_pow2(&div_offset, compute_w);
    let ghost qcv = big(qc);
    let qci = body.push_op(entry, Op::ConstInt { w: compute_w, c: qc });
    let ghost body_s11 = *body;
    let r_q0 = body.push_op(entry, Op::SubI { a: r_div, b: qci });
    let ghost body_s12 = *body;
    let r_q = body.push_op(entry, Op::TruncI { v: r_q0, w: div_w });
    let ghost body_s13 = *body;
    let rc2 = crate::libfuncs::signed_mod_pow2(&rem_offset, compute_w);
    let ghost rcv2 = big(rc2);
    let rci = body.push_op(entry, Op::ConstInt { w: compute_w, c: rc2 });
    let ghost body_s14 = *body;
    let r_r0 = body.push_op(entry, Op::SubI { a: r_rem, b: rci });
    let ghost body_s15 = *body;
    let r_r = body.push_op(entry, Op::TruncI { v: r_r0, w: rem_w });
    let ghost body_s16 = *body;

    let mut out_args: Vec<usize> = Vec::new();
    out_args.push(rc1);
    out_args.push(r_q);
    out_args.push(r_r);
    proof {
        assert(out_args@ =~= seq![rc1, r_q, r_r]);
    }
    body.set_term(entry, Terminator::BranchOut { branch: 0, args: out_args });

    proof {
        let fb = *body;
        let w = compute_w as nat;
        let pw = pow2(w) as int;
        let l1 = lhs_range.lower.val();
        let u1 = lhs_range.upper.val();
        let l2 = rhs_range.lower.val();
        let u2 = rhs_range.upper.val();
        let ld = div_range.lower.val();
        let lr = rem_range.lower.val();
        assert forall|a: int, b: int, rc: nat, fuel: nat|
            lhs_range.holds(a) && rhs_range.holds(b) && a >= 0 && b >= 1 && rc < pow2(64) && fuel
                >= 1 implies #[trigger] eval_body_from(
            fb,
            entry as int,
            crate::libfuncs::args3(
                rc,
                operand_enc(lhs_bounded, l1, lhs_width as nat, a),
                operand_enc(rhs_bounded, l2, rhs_width as nat, b),
            ),
            fuel,
        ) == (Outcome::Branches {
            branch: 0nat,
            vals: seq![
                ((rc + 1) % pow2(64)) as nat,
                ((a / b - ld) % (pow2(div_w as nat) as int)) as nat,
                ((a % b - lr) % (pow2(rem_w as nat) as int)) as nat,
            ],
        }) by {
            lemma_divrem_tail_eval(
                fb, entry as int, params, *old(body), body_s1, body_s2, body_s3, body_s4,
                body_s5, body_s6, body_s7, body_s8, body_s9, body_s10, body_s11, body_s12,
                body_s13, body_s14, body_s15, body_s16, ext1, ext2, onev, k1v, k2v, qcv, rcv2,
                compute_w, div_w, rem_w, lhs_width, rhs_width, lhs_bounded, rhs_bounded, l1, u1,
                l2, u2, ld, lr, out_args@, a, b, rc, fuel,
            );
        }
    }
    Ok(())
}

/// Evaluating the emitted division sequence on encoded non-negative
/// operands yields the advanced token, quotient and remainder. The
/// hypotheses record exactly what the emission steps guarantee.
#[verifier::rlimit(100)]
#[verifier::spinoff_prover]
proof fn lemma_divrem_tail_eval(
    fb: FuncBody,
    entry: int,
    params: Seq<u64>,
    b0: FuncBody,
    s1: FuncBody,
    s2: FuncBody,
    s3: FuncBody,
    s4: FuncBody,
    s5: FuncBody,
    s6: FuncBody,
    s7: FuncBody,
    s8: FuncBody,
    s9: FuncBody,
    s10: FuncBody,
    s11: FuncBody,
    s12: FuncBody,
    s13: FuncBody,
    s14: FuncBody,
    s15: FuncBody,
    s16: FuncBody,
    ext1: Op,
    ext2: Op,
    onev: nat,
    k1v: nat,
    k2v: nat,
    qcv: nat,
    rcv2: nat,
    compute_w: u64,
    div_w: u64,
    rem_w: u64,
    lhs_width: u64,
    rhs_width: u64,
    lhs_bounded: bool,
    rhs_bounded: bool,
    l1: int,
    u1: int,
    l2: int,
    u2: int,
    ld: int,
    lr: int,
    oargs: Seq<usize>,
    a: int,
    b: int,
    rc: nat,
    fuel: nat,
)
    requires
        l1 <= a < u1,
        l2 <= b < u2,
        a >= 0,
        b >= 1,
        rc < pow2(64),
        fuel >= 1,
        lhs_width <= compute_w,
        rhs_width <= compute_w,
        div_w <= compute_w,
        rem_w <= compute_w,
        lhs_bounded ==> crate::utils::is_bit_len((u1 - l1 - 1) as nat, lhs_width as nat),
        rhs_bounded ==> crate::utils::is_bit_len((u2 - l2 - 1) as nat, rhs_width as nat),
        !lhs_bounded ==> enc_ok(l1, u1, lhs_width as nat),
        !rhs_bounded ==> enc_ok(l2, u2, rhs_width as nat),
        u1 <= pow2(compute_w as nat),
        u2 <= pow2(compute_w as nat),
        onev == 1,
        k1v == if lhs_bounded {
            crate::libfuncs::const_enc(l1, compute_w as nat)
        } else {
            0
        },
        k2v == if rhs_bounded {
            crate::libfuncs::const_enc(l2, compute_w as nat)
        } else {
            0
        },
        qcv == crate::libfuncs::const_enc(ld, compute_w as nat),
        rcv2 == crate::libfuncs::const_enc(lr, compute_w as nat),
        params.len() == 3,
        params[0] == 64u64,
        params[1] == lhs_width,
        params[2] == rhs_width,
        0 <= entry < b0.blocks@.len(),
        b0.blocks@[entry].params@ == params,
        b0.blocks@[entry].ops@.len() == 0,
        // The sixteen appended operations, in order.
        s1.blocks@[entry].params@ == params,
        s1.blocks@[entry].ops@.len() == 1,
        s1.blocks@[entry].ops@.drop_last() == b0.blocks@[entry].ops@,
        s1.blocks@[entry].ops@.last() matches Op::ConstInt { w, c } && w == 64 && big(c) == onev,
        s2.blocks@[entry].params@ == params,
        s2.blocks@[entry].ops@ == s1.blocks@[entry].ops@.push(Op::AddI { a: 0, b: 3 }),
        s3.blocks@[entry].params@ == params,
        s3.blocks@[entry].ops@ == s2.blocks@[entry].ops@.push(ext1),
        (ext1 matches Op::ExtUi { v, w } && v == 1 && w == compute_w) || (ext1 matches Op::ExtSi {
            v,
            w,
        } && v == 1 && w == compute_w),
        ext1 matches Op::ExtSi { .. } ==> !lhs_bounded && l1 < 0 && lhs_width >= 1,
        s4.blocks@[entry].params@ == params,
        s4.blocks@[entry].ops@.len() == 4,
        s4.blocks@[entry].ops@.drop_last() == s3.blocks@[entry].ops@,
        s4.blocks@[entry].ops@.last() matches Op::ConstInt { w, c } && w == compute_w && big(c)
            == k1v,
        s5.blocks@[entry].params@ == params,
        s5.blocks@[entry].ops@ == s4.blocks@[entry].ops@.push(Op::AddI { a: 5, b: 6 }),
        s6.blocks@[entry].params@ == params,
        s6.blocks@[entry].ops@ == s5.blocks@[entry].ops@.push(ext2),
        (ext2 matches Op::ExtUi { v, w } && v == 2 && w == compute_w) || (ext2 matches Op::ExtSi {
            v,
            w,
        } && v == 2 && w == compute_w),
        ext2 matches Op::ExtSi { .. } ==> !rhs_bounded && l2 < 0 && rhs_width >= 1,
        s7.blocks@[entry].params@ == params,
        s7.blocks@[entry].ops@.len() == 7,
        s7.blocks@[entry].ops@.drop_last() == s6.blocks@[entry].ops@,
        s7.blocks@[entry].ops@.last() matches Op::ConstInt { w, c } && w == compute_w && big(c)
            == k2v,
        s8.blocks@[entry].params@ == params,
        s8.blocks@[entry].ops@ == s7.blocks@[entry].ops@.push(Op::AddI { a: 8, b: 9 }),
        s9.blocks@[entry].params@ == params,
        s9.blocks@[entry].ops@ == s8.blocks@[entry].ops@.push(Op::DivUi { a: 7, b: 10 }),
        s10.blocks@[entry].params@ == params,
        s10.blocks@[entry].ops@ == s9.blocks@[entry].ops@.push(Op::RemUi { a: 7, b: 10 }),
        s11.blocks@[entry].params@ == params,
        s11.blocks@[entry].ops@.len() == 11,
        s11.blocks@[entry].ops@.drop_last() == s10.blocks@[entry].ops@,
        s11.blocks@[entry].ops@.last() matches Op::ConstInt { w, c } && w == compute_w && big(c)
            == qcv,
        s12.blocks@[entry].params@ == params,
        s12.blocks@[entry].ops@ == s11.blocks@[entry].ops@.push(Op::SubI { a: 11, b: 13 }),
        s13.blocks@[entry].params@ == params,
        s13.blocks@[entry].ops@ == s12.blocks@[entry].ops@.push(
            Op::TruncI { v: 14, w: div_w },
        ),
        s14.blocks@[entry].params@ == params,
        s14.blocks@[entry].ops@.len() == 14,
        s14.blocks@[entry].ops@.drop_last() == s13.blocks@[entry].ops@,
        s14.blocks@[entry].ops@.last() matches Op::ConstInt { w, c } && w == compute_w && big(c)
            == rcv2,
        s15.blocks@[entry].params@ == params,
        s15.blocks@[entry].ops@ == s14.blocks@[entry].ops@.push(Op::SubI { a: 12, b: 16 }),
        s16.blocks@[entry].params@ == params,
        s16.blocks@[entry].ops@ == s15.blocks@[entry].ops@.push(
            Op::TruncI { v: 17, w: rem_w },
        ),
        0 <= entry < fb.blocks@.len(),
        fb.blocks@[entry].params@ == params,
        fb.blocks@[entry].ops@ == s16.blocks@[entry].ops@,
        fb.blocks@[entry].wf_ops(),
        fb.blocks@[entry].term matches Some(Terminator::BranchOut { branch, args }) && branch == 0
            && args@ == oargs,
        oargs == seq![4usize, 15usize, 18usize],
    ensures
        eval_body_from(
            fb,
            entry,
            crate::libfuncs::args3(
                rc,
                operand_enc(lhs_bounded, l1, lhs_width as nat, a),
                operand_enc(rhs_bounded, l2, rhs_width as nat, b),
            ),
            fuel,
        ) == (Outcome::Branches {
            branch: 0nat,
            vals: seq![
                ((rc + 1) % pow2(64)) as nat,
                ((a / b - ld) % (pow2(div_w as nat) as int)) as nat,
                ((a % b - lr) % (pow2(rem_w as nat) as int)) as nat,
            ],
        }),
{
    let w = compute_w as nat;
    let pw = pow2(w) as int;
    vstd::arithmetic::power2::lemma2_to64();
    vstd::arithmetic::power2::lemma_pow2_pos(w);
    vstd::arithmetic::power2::lemma_pow2_pos(lhs_width as nat);
    vstd::arithmetic::power2::lemma_pow2_pos(rhs_width as nat);
    let e1 = operand_enc(lhs_bounded, l1, lhs_width as nat, a);
    let e2 = operand_enc(rhs_bounded, l2, rhs_width as nat, b);
    let ar = crate::libfuncs::args3(rc, e1, e2);
    assert(ar.len() == 3 && ar[0] == rc && ar[1] == e1 && ar[2] == e2);
    // The encodings fit the declared widths, and are the values themselves.
    if lhs_bounded {
        crate::ir::lemma_pow2_le(lhs_width as nat, w);
    } else {
        if l1 < 0 {
            crate::ir::lemma_pow2_le((lhs_width - 1) as nat, lhs_width as nat);
        }
        assert(a < pow2(lhs_width as nat));
        vstd::arithmetic::div_mod::lemma_small_mod(a as nat, pow2(lhs_width as nat));
    }
    if rhs_bounded {
        crate::ir::lemma_pow2_le(rhs_width as nat, w);
    } else {
        if l2 < 0 {
            crate::ir::lemma_pow2_le((rhs_width - 1) as nat, rhs_width as nat);
        }
        assert(b < pow2(rhs_width as nat));
        vstd::arithmetic::div_mod::lemma_small_mod(b as nat, pow2(rhs_width as nat));
    }
    assert(args_fit(ar, params));
    let ops0 = b0.blocks@[entry].ops@;
    let o1 = s1.blocks@[entry].ops@;
    let o2 = s2.blocks@[entry].ops@;
    let o3 = s3.blocks@[entry].ops@;
    let o4 = s4.blocks@[entry].ops@;
    let o5 = s5.blocks@[entry].ops@;
    let o6 = s6.blocks@[entry].ops@;
    let o7 = s7.blocks@[entry].ops@;
    let o8 = s8.blocks@[entry].ops@;
    let o9 = s9.blocks@[entry].ops@;
    let o10 = s10.blocks@[entry].ops@;
    let o11 = s11.blocks@[entry].ops@;
    let o12 = s12.blocks@[entry].ops@;
    let o13 = s13.blocks@[entry].ops@;
    let o14 = s14.blocks@[entry].ops@;
    let o15 = s15.blocks@[entry].ops@;
    let o16 = s16.blocks@[entry].ops@;
    let v1 = vals_after(ar, params, o1);
    let v2 = vals_after(ar, params, o2);
    let v3 = vals_after(ar, params, o3);
    let v4 = vals_after(ar, params, o4);
    let v5 = vals_after(ar, params, o5);
    let v6 = vals_after(ar, params, o6);
    let v7 = vals_after(ar, params, o7);
    let v8 = vals_after(ar, params, o8);
    let v9 = vals_after(ar, params, o9);
    let v10 = vals_after(ar, params, o10);
    let v11 = vals_after(ar, params, o11);
    let v12 = vals_after(ar, params, o12);
    let v13 = vals_after(ar, params, o13);
    let v14 = vals_after(ar, params, o14);
    let v15 = vals_after(ar, params, o15);
    let v16 = vals_after(ar, params, o16);
    crate::ir::lemma_vals_after_len(ar, params, o1);
    crate::ir::lemma_vals_after_len(ar, params, o2);
    crate::ir::lemma_vals_after_len(ar, params, o3);
    crate::ir::lemma_vals_after_len(ar, params, o4);
    crate::ir::lemma_vals_after_len(ar, params, o5);
    crate::ir::lemma_vals_after_len(ar, params, o6);
    crate::ir::lemma_vals_after_len(ar, params, o7);
    crate::ir::lemma_vals_after_len(ar, params, o8);
    crate::ir::lemma_vals_after_len(ar, params, o9);
    crate::ir::lemma_vals_after_len(ar, params, o10);
    crate::ir::lemma_vals_after_len(ar, params, o11);
    crate::ir::lemma_vals_after_len(ar, params, o12);
    crate::ir::lemma_vals_after_len(ar, params, o13);
    crate::ir::lemma_vals_after_len(ar, params, o14);
    crate::ir::lemma_vals_after_len(ar, params, o15);
    crate::ir::lemma_vals_after_len(ar, params, o16);
    crate::ir::lemma_widths_after_len(params, o1);
    crate::ir::lemma_widths_after_len(params, o2);
    crate::ir::lemma_widths_after_len(params, o3);
    crate::ir::lemma_widths_after_len(params, o4);
    crate::ir::lemma_widths_after_len(params, o5);
    crate::ir::lemma_widths_after_len(params, o6);
    crate::ir::lemma_widths_after_len(params, o7);
    crate::ir::lemma_widths_after_len(params, o8);
    crate::ir::lemma_widths_after_len(params, o9);
    crate::ir::lemma_widths_after_len(params, o10);
    crate::ir::lemma_widths_after_len(params, o11);
    crate::ir::lemma_widths_after_len(params, o12);
    crate::ir::lemma_widths_after_len(params, o13);
    crate::ir::lemma_widths_after_len(params, o14);
    crate::ir::lemma_widths_after_len(params, o15);
    // The counter.
    assert(o1.drop_last() == ops0);
    assert(vals_after(ar, params, ops0) == ar);
    vstd::arithmetic::div_mod::lemma_small_mod(1nat, pow2(64));
    assert(v1[3] == 1nat);
    assert(v2[4] == ((rc + 1) % pow2(64)) as nat);
    // The prepared operands.
    assert(v3[5] == crate::libfuncs::ext_sem(e1, lhs_width as nat, w, ext1 is ExtSi));
    assert(v4[6] == k1v) by {
        assert(o4.drop_last() == o3);
        vstd::arithmetic::div_mod::lemma_small_mod(k1v, pow2(w));
    }
    assert(v5[7] == ((v4[5] + v4[6]) as int % pw) as nat);
    assert(v5[7] == a as nat) by {
        crate::ir::lemma_pow2_le(lhs_width as nat, w);
        vstd::arithmetic::div_mod::lemma_small_mod(a as nat, pow2(w));
        if lhs_bounded {
            assert(e1 == (a - l1) as nat);
            assert(v4[5] == e1);
            assert(k1v == l1 % pw);
            vstd::arithmetic::div_mod::lemma_small_mod((a - l1) as nat, pow2(w));
            vstd::arithmetic::div_mod::lemma_add_mod_noop(a - l1, l1, pw);
            assert(((e1 + k1v) as int) % pw == a % pw);
        } else {
            assert(e1 == a as nat);
            assert(v4[5] == a as nat) by {
                if ext1 is ExtSi {
                    assert(a < pow2((lhs_width - 1) as nat));
                }
            }
            assert(k1v == 0);
        }
    }
    assert(v6[8] == crate::libfuncs::ext_sem(e2, rhs_width as nat, w, ext2 is ExtSi)) by {
        assert(v6[2] == e2);
    }
    assert(v7[9] == k2v) by {
        assert(o7.drop_last() == o6);
        vstd::arithmetic::div_mod::lemma_small_mod(k2v, pow2(w));
    }
    assert(v8[10] == ((v7[8] + v7[9]) as int % pw) as nat);
    assert(v8[10] == b as nat) by {
        crate::ir::lemma_pow2_le(rhs_width as nat, w);
        vstd::arithmetic::div_mod::lemma_small_mod(b as nat, pow2(w));
        if rhs_bounded {
            assert(e2 == (b - l2) as nat);
            assert(v7[8] == e2) by {
                assert(v6[8] == crate::libfuncs::ext_sem(e2, rhs_width as nat, w, false));
            }
            assert(k2v == l2 % pw);
            vstd::arithmetic::div_mod::lemma_small_mod((b - l2) as nat, pow2(w));
            vstd::arithmetic::div_mod::lemma_add_mod_noop(b - l2, l2, pw);
            assert(((e2 + k2v) as int) % pw == b % pw);
        } else {
            assert(e2 == b as nat);
            assert(v7[8] == b as nat) by {
                if ext2 is ExtSi {
                    assert(b < pow2((rhs_width - 1) as nat));
                }
            }
            assert(k2v == 0);
        }
    }
    // Quotient and remainder.
    assert(v9[7] == v8[7] && v9[10] == v8[10]);
    assert(v9[11] == (a as nat) / (b as nat));
    assert(v10[12] == (a as nat) % (b as nat)) by {
        assert(v10[7] == v9[7] && v10[10] == v9[10]);
    }
    let q = a / b;
    let r = a % b;
    vstd::arithmetic::div_mod::lemma_fundamental_div_mod(a, b);
    vstd::arithmetic::div_mod::lemma_mod_bound(a, b);
    vstd::arithmetic::div_mod::lemma_div_pos_is_pos(a, b);
    assert((a as nat) / (b as nat) == q);
    assert((a as nat) % (b as nat) == r);
    // The quotient's re-offsetting and truncation.
    assert(v11[13] == qcv) by {
        assert(o11.drop_last() == o10);
        vstd::arithmetic::div_mod::lemma_small_mod(qcv, pow2(w));
    }
    assert(v11[11] == v10[11] && v11[12] == v10[12]);
    assert(v12[14] == ((v11[11] - v11[13]) % pw) as nat);
    assert(v12[14] == ((q - ld) % pw) as nat) by {
        vstd::arithmetic::div_mod::lemma_sub_mod_noop_right(q, ld, pw);
        vstd::arithmetic::div_mod::lemma_small_mod(q as nat, pow2(w));
        vstd::arithmetic::div_mod::lemma_div_nonincreasing(a, b);
        assert((q % pw - ld % pw) % pw == (q - ld) % pw) by {
            vstd::arithmetic::div_mod::lemma_sub_mod_noop(q, ld, pw);
        }
    }
    assert(v13[15] == v12[14] % pow2(div_w as nat));
    assert(v13[15] == ((q - ld) % (pow2(div_w as nat) as int)) as nat) by {
        vstd::arithmetic::power2::lemma_pow2_pos(div_w as nat);
        vstd::arithmetic::div_mod::lemma_mod_bound(q - ld, pw);
        crate::libfuncs::lemma_mod_mod_pow2(q - ld, w, div_w as nat);
        vstd::arithmetic::div_mod::lemma_mod_bound(q - ld, pow2(div_w as nat) as int);
    }
    // The remainder's re-offsetting and truncation.
    assert(v14[16] == rcv2) by {
        assert(o14.drop_last() == o13);
        vstd::arithmetic::div_mod::lemma_small_mod(rcv2, pow2(w));
    }
    assert(v14[12] == v10[12] && v14[15] == v13[15] && v14[4] == v2[4]);
    assert(v15[17] == ((v14[12] - v14[16]) % pw) as nat);
    assert(v15[17] == ((r - lr) % pw) as nat) by {
        vstd::arithmetic::div_mod::lemma_sub_mod_noop_right(r, lr, pw);
        vstd::arithmetic::div_mod::lemma_small_mod(r as nat, pow2(w));
        assert((r % pw - lr % pw) % pw == (r - lr) % pw) by {
            vstd::arithmetic::div_mod::lemma_sub_mod_noop(r, lr, pw);
        }
    }
    assert(v16[18] == v15[17] % pow2(rem_w as nat));
    assert(v16[18] == ((r - lr) % (pow2(rem_w as nat) as int)) as nat) by {
        vstd::arithmetic::power2::lemma_pow2_pos(rem_w as nat);
        vstd::arithmetic::div_mod::lemma_mod_bound(r - lr, pw);
        crate::libfuncs::lemma_mod_mod_pow2(r - lr, w, rem_w as nat);
        vstd::arithmetic::div_mod::lemma_mod_bound(r - lr, pow2(rem_w as nat) as int);
    }
    // The branch values.
    assert(v16[4] == v2[4] && v16[15] == v13[15]);
    assert(crate::ir::pick_vals(v16, oargs) =~= seq![
        ((rc + 1) % pow2(64)) as nat,
        ((q - ld) % (pow2(div_w as nat) as int)) as nat,
        ((r - lr) % (pow2(rem_w as nat) as int)) as nat,
    ]);
    assert(eval_body_from(fb, entry, ar, fuel) == (Outcome::Branches {
        branch: 0nat,
        vals: crate::ir::pick_vals(v16, oargs),
    }));
}

} // verus!
