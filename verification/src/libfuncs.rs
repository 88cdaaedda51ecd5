//! The per-opcode lowering engine.
//!
//! Each `build_*` function emits the operations implementing one libfunc
//! into the current block and terminates it with a branch. The shared
//! helpers here prepare operands: extending them to the computation width
//! and re-offsetting them to a common zero point.

pub mod bounded_int;
pub mod cast;
pub mod uint32;

use vstd::prelude::*;
use vstd::arithmetic::power2::pow2;

use crate::bignum::{big, big_from_u128, big_pow2, big_rem, big_sub, Signed};
use crate::utils::bit_len;
use crate::ir::{
    args_fit, op_wf, op_width, sem_op, sint_of, vals_after, widths_after, FuncBody, Op,
};

verus! {

broadcast use crate::utils::lemma_push_drop_last;

/// Widths handled by the engine fit in 32 bits; this is forced by the cap
/// on range bounds.
pub open spec fn width_ok(w: u64) -> bool {
    w <= 0xFFFF_FFFF
}

/// `k` reduced into a `w`-bit register: `k` modulo `2^w`, as a natural.
pub open spec fn const_enc(k: int, w: nat) -> nat {
    (k % (pow2(w) as int)) as nat
}

/// The value `k` modulo `2^w`, as a magnitude.
pub fn signed_mod_pow2(k: &Signed, w: u64) -> (r: num_bigint::BigUint)
    requires
        k.wf(),
        width_ok(w),
    ensures
        big(r) == const_enc(k.val(), w as nat),
        big(r) < pow2(w as nat),
{
    let m = big_pow2(w as u32);
    proof {
        vstd::arithmetic::power2::lemma_pow2_pos(w as nat);
    }
    let mm = big_rem(&k.mag, &m);
    proof {
        let p = pow2(w as nat) as int;
        vstd::arithmetic::div_mod::lemma_mod_bound(big(k.mag) as int, p);
    }
    if k.is_neg() {
        if crate::bignum::big_is_zero(&mm) {
            let r = big_from_u128(0);
            proof {
                let p = pow2(w as nat) as int;
                vstd::arithmetic::div_mod::lemma_mod_bound(k.val(), p);
                assert((-(big(k.mag) as int)) % p == 0) by {
                    let q = (big(k.mag) as int) / p;
                    vstd::arithmetic::div_mod::lemma_fundamental_div_mod(big(k.mag) as int, p);
                    assert(big(k.mag) as int == q * p);
                    assert((-q) * p == -(q * p)) by {
                        vstd::arithmetic::mul::lemma_mul_unary_negation(q, p);
                    }
                    vstd::arithmetic::div_mod::lemma_mod_multiples_basic(-q, p);
                }
            }
            r
        } else {
            let r = big_sub(&m, &mm);
            proof {
                let p = pow2(w as nat) as int;
                let q = (big(k.mag) as int) / p;
                vstd::arithmetic::div_mod::lemma_fundamental_div_mod(big(k.mag) as int, p);
                // -mag == -(q+1)*p + (p - mag % p), and 0 <= p - mag % p < p.
                assert(k.val() == (-(q + 1)) * p + (p - (big(k.mag) as int) % p)) by {
                    assert((-(q + 1)) * p == -(q * p) - p) by {
                        vstd::arithmetic::mul::lemma_mul_is_distributive_add_other_way(
                            p,
                            -q,
                            -1,
                        );
                        vstd::arithmetic::mul::lemma_mul_unary_negation(q, p);
                        vstd::arithmetic::mul::lemma_mul_basics(p);
                    }
                }
                vstd::arithmetic::div_mod::lemma_fundamental_div_mod_converse(
                    k.val(),
                    p,
                    -(q + 1),
                    p - (big(k.mag) as int) % p,
                );
            }
            r
        }
    } else {
        mm
    }
}

/// The register values of earlier ops survive appending more ops.
pub proof fn lemma_vals_after_prefix(
    args: Seq<nat>,
    params: Seq<u64>,
    ops1: Seq<Op>,
    ops2: Seq<Op>,
)
    requires
        ops1.len() <= ops2.len(),
        ops2.take(ops1.len() as int) == ops1,
    ensures
        forall|i: int|
            0 <= i < args.len() + ops1.len() ==> vals_after(args, params, ops2)[i] == vals_after(
                args,
                params,
                ops1,
            )[i],
        forall|i: int|
            0 <= i < params.len() + ops1.len() ==> widths_after(params, ops2)[i] == widths_after(
                params,
                ops1,
            )[i],
    decreases ops2.len(),
{
    crate::ir::lemma_vals_after_len(args, params, ops1);
    crate::ir::lemma_vals_after_len(args, params, ops2);
    crate::ir::lemma_widths_after_len(params, ops1);
    crate::ir::lemma_widths_after_len(params, ops2);
    if ops2.len() > ops1.len() {
        assert(ops2.drop_last().take(ops1.len() as int) == ops1) by {
            assert(ops2.drop_last().take(ops1.len() as int) =~= ops2.take(ops1.len() as int));
        }
        lemma_vals_after_prefix(args, params, ops1, ops2.drop_last());
        crate::ir::lemma_vals_after_len(args, params, ops2.drop_last());
        crate::ir::lemma_widths_after_len(params, ops2.drop_last());
        assert forall|i: int| 0 <= i < args.len() + ops1.len() implies vals_after(
            args,
            params,
            ops2,
        )[i] == vals_after(args, params, ops1)[i] by {
            assert(vals_after(args, params, ops2)[i] == vals_after(
                args,
                params,
                ops2.drop_last(),
            )[i]);
        }
        assert forall|i: int| 0 <= i < params.len() + ops1.len() implies widths_after(
            params,
            ops2,
        )[i] == widths_after(params, ops1)[i] by {
            assert(widths_after(params, ops2)[i] == widths_after(params, ops2.drop_last())[i]);
        }
    } else {
        assert(ops2 =~= ops1);
    }
}

/// The semantics of extending a `w_in`-bit register value to `w_out` bits.
pub open spec fn ext_sem(t: nat, w_in: nat, w_out: nat, signed: bool) -> nat {
    if !signed {
        t
    } else if w_in == 0 {
        0
    } else if t < pow2((w_in - 1) as nat) {
        t
    } else {
        (t + pow2(w_out) - pow2(w_in)) as nat
    }
}

/// The value the operand-preparation step leaves in its register, given the
/// incoming register value `t`.
pub open spec fn prep_sem(t: nat, w_in: nat, w_out: nat, signed: bool, k: int) -> nat {
    ((ext_sem(t, w_in, w_out, signed) + k) % (pow2(w_out) as int)) as nat
}

/// Extension then re-offsetting embeds the represented value: a register
/// holding `x` modulo `2^w_in` ends up holding `x + k` modulo `2^w_out`.
pub proof fn lemma_prep_embeds(x: int, k: int, w_in: nat, w_out: nat, signed: bool)
    requires
        w_in <= w_out,
        signed ==> w_in >= 1,
        signed ==> -(pow2((w_in - 1) as nat) as int) <= x < pow2((w_in - 1) as nat),
        !signed ==> 0 <= x < pow2(w_in),
    ensures
        prep_sem(const_enc(x, w_in), w_in, w_out, signed, k) == const_enc(x + k, w_out),
{
    let pin = pow2(w_in) as int;
    let pout = pow2(w_out) as int;
    vstd::arithmetic::power2::lemma_pow2_pos(w_in);
    vstd::arithmetic::power2::lemma_pow2_pos(w_out);
    crate::ir::lemma_pow2_le(w_in, w_out);
    let t = const_enc(x, w_in);
    if !signed {
        vstd::arithmetic::div_mod::lemma_small_mod(x as nat, pow2(w_in));
        assert(t == x);
        assert(ext_sem(t, w_in, w_out, signed) == x);
        vstd::arithmetic::div_mod::lemma_add_mod_noop(x, k, pout);
        vstd::arithmetic::div_mod::lemma_small_mod(x as nat, pow2(w_out));
    } else {
        let ph = pow2((w_in - 1) as nat) as int;
        assert(2 * ph == pin) by {
            vstd::arithmetic::power2::lemma_pow2_adds((w_in - 1) as nat, 1);
            vstd::arithmetic::power2::lemma2_to64();
        }
        if x >= 0 {
            vstd::arithmetic::div_mod::lemma_small_mod(x as nat, pow2(w_in));
            assert(t == x && t < ph);
            assert(ext_sem(t, w_in, w_out, signed) == x);
            vstd::arithmetic::div_mod::lemma_add_mod_noop(x, k, pout);
            vstd::arithmetic::div_mod::lemma_small_mod(x as nat, pow2(w_out));
        } else {
            assert(t == x + pin) by {
                vstd::arithmetic::div_mod::lemma_mod_add_multiples_vanish(x, pin);
                vstd::arithmetic::div_mod::lemma_small_mod((x + pin) as nat, pow2(w_in));
            }
            assert(t >= ph);
            let e = ext_sem(t, w_in, w_out, signed);
            assert(e == x + pout);
            assert((e + k) % pout == (x + k) % pout) by {
                vstd::arithmetic::div_mod::lemma_mod_add_multiples_vanish(x + k, pout);
            }
        }
    }
}

/// Emit the operand-preparation steps of the bounded arithmetic algorithm:
/// extend the value at `v` (of width `w_in`) into the computation width
/// `w_out` — sign-extending exactly when `signed` — then add the constant
/// `k`. Returns the index of the prepared value.
pub(crate) fn extend_and_offset(
    body: &mut FuncBody,
    entry: usize,
    v: usize,
    w_in: u64,
    w_out: u64,
    signed: bool,
    k: &Signed,
) -> (r: usize)
    requires
        entry < old(body).blocks@.len(),
        old(body).blocks@[entry as int].wf_ops(),
        v < old(body).blocks@[entry as int].n_vals(),
        old(body).blocks@[entry as int].widths()[v as int] == w_in,
        w_in <= w_out,
        signed ==> w_in >= 1,
        width_ok(w_out),
        k.wf(),
        old(body).blocks@[entry as int].n_vals() + 2 < usize::MAX,
    ensures
        final(body).blocks@ == old(body).blocks@.update(
            entry as int,
            final(body).blocks@[entry as int],
        ),
        final(body).blocks@[entry as int].params == old(body).blocks@[entry as int].params,
        final(body).blocks@[entry as int].term == old(body).blocks@[entry as int].term,
        final(body).blocks@[entry as int].wf_ops(),
        final(body).blocks@[entry as int].ops@.len() <= old(body).blocks@[entry as
            int].ops@.len() + 3,
        final(body).blocks@[entry as int].ops@.take(
            old(body).blocks@[entry as int].ops@.len() as int,
        ) == old(body).blocks@[entry as int].ops@,
        old(body).blocks@[entry as int].ops@.len() <= final(body).blocks@[entry as
            int].ops@.len(),
        r < final(body).blocks@[entry as int].n_vals(),
        final(body).blocks@[entry as int].widths()[r as int] == w_out,
        forall|ar: Seq<nat>|
            args_fit(ar, old(body).blocks@[entry as int].params@) ==> {
                let pv = vals_after(
                    ar,
                    old(body).blocks@[entry as int].params@,
                    old(body).blocks@[entry as int].ops@,
                );
                let nv = #[trigger] vals_after(
                    ar,
                    final(body).blocks@[entry as int].params@,
                    final(body).blocks@[entry as int].ops@,
                );
                &&& forall|i: int| 0 <= i < pv.len() ==> nv[i] == pv[i]
                &&& nv[r as int] == prep_sem(pv[v as int], w_in as nat, w_out as nat, signed,
                    k.val())
            },
{
    let ghost params = body.blocks@[entry as int].params@;
    let ghost ops0 = body.blocks@[entry as int].ops@;
    let ghost n0 = body.blocks@[entry as int].n_vals();
    proof {
        crate::ir::lemma_widths_after_len(params, ops0);
    }

    // Extend into the computation width when it is wider.
    let t: usize = if w_out > w_in {
        if signed {
            body.push_op(entry, Op::ExtSi { v, w: w_out })
        } else {
            body.push_op(entry, Op::ExtUi { v, w: w_out })
        }
    } else {
        v
    };
    let ghost ops1 = body.blocks@[entry as int].ops@;

    // Re-offset by the constant, unless it is zero.
    let k_zero = crate::bignum::big_is_zero(&k.mag);
    let r: usize = if !k_zero {
        let c = signed_mod_pow2(k, w_out);
        let ghost cval = big(c);
        let ci = body.push_op(entry, Op::ConstInt { w: w_out, c });
        let ghost ops2 = body.blocks@[entry as int].ops@;
        let r = body.push_op(entry, Op::AddI { a: t, b: ci });
        proof {
            let ops3 = body.blocks@[entry as int].ops@;
            assert forall|ar: Seq<nat>| args_fit(ar, params) implies {
                let pv = vals_after(ar, params, ops0);
                let nv = #[trigger] vals_after(ar, params, ops3);
                &&& forall|i: int| 0 <= i < pv.len() ==> nv[i] == pv[i]
                &&& nv[r as int] == prep_sem(pv[v as int], w_in as nat, w_out as nat, signed,
                    k.val())
            } by {
                crate::ir::lemma_vals_after_len(ar, params, ops0);
                crate::ir::lemma_vals_after_len(ar, params, ops3);
                crate::ir::lemma_vals_fit(ar, params, ops0);
                let pv = vals_after(ar, params, ops0);
                let v1 = vals_after(ar, params, ops1);
                let v2 = vals_after(ar, params, ops2);
                let nv = vals_after(ar, params, ops3);
                assert(ops1.take(ops0.len() as int) == ops0) by {
                    if ops1 != ops0 {
                        assert(ops1.take(ops0.len() as int) =~= ops0);
                    } else {
                        assert(ops1.take(ops0.len() as int) =~= ops0);
                    }
                }
                lemma_vals_after_prefix(ar, params, ops0, ops1);
                assert(ops2.take(ops1.len() as int) == ops1) by {
                    assert(ops2.take(ops1.len() as int) =~= ops1);
                }
                lemma_vals_after_prefix(ar, params, ops1, ops2);
                assert(ops3.take(ops2.len() as int) == ops2) by {
                    assert(ops3.take(ops2.len() as int) =~= ops2);
                }
                lemma_vals_after_prefix(ar, params, ops2, ops3);
                crate::ir::lemma_vals_after_len(ar, params, ops1);
                crate::ir::lemma_vals_after_len(ar, params, ops2);
                crate::ir::lemma_widths_after_len(params, ops1);
                crate::ir::lemma_widths_after_len(params, ops2);
                // The extension's value.
                let e = ext_sem(pv[v as int], w_in as nat, w_out as nat, signed);
                assert(v1[t as int] == e);
                assert(e < pow2(w_out as nat)) by {
                    crate::ir::lemma_pow2_le(w_in as nat, w_out as nat);
                    if signed && w_in >= 1 {
                        crate::ir::lemma_pow2_le((w_in - 1) as nat, w_out as nat);
                    }
                }
                // The constant's value.
                assert(v2[ci as int] == cval % pow2(w_out as nat)) by {
                    assert(v2 == v1.push(sem_op(ops2.last(), v1, widths_after(params, ops1))));
                }
                assert(cval % pow2(w_out as nat) == cval) by {
                    vstd::arithmetic::div_mod::lemma_small_mod(cval, pow2(w_out as nat));
                }
                // The sum.
                assert(nv[r as int] == sem_op(ops3.last(), v2, widths_after(params, ops2)));
                assert(nv[r as int] == ((v2[t as int] + v2[ci as int]) % pow2(
                    w_out as nat,
                )) as nat);
                assert(v2[t as int] == v1[t as int]);
                assert(((e + cval) % pow2(w_out as nat)) as nat == prep_sem(
                    pv[v as int],
                    w_in as nat,
                    w_out as nat,
                    signed,
                    k.val(),
                )) by {
                    vstd::arithmetic::power2::lemma_pow2_pos(w_out as nat);
                    vstd::arithmetic::div_mod::lemma_small_mod(e, pow2(w_out as nat));
                    vstd::arithmetic::div_mod::lemma_add_mod_noop(
                        e as int,
                        k.val(),
                        pow2(w_out as nat) as int,
                    );
                }
            }
        }
        r
    } else {
        proof {
            let ops3 = body.blocks@[entry as int].ops@;
            assert(ops3 == ops1);
            assert forall|ar: Seq<nat>| args_fit(ar, params) implies {
                let pv = vals_after(ar, params, ops0);
                let nv = #[trigger] vals_after(ar, params, ops3);
                &&& forall|i: int| 0 <= i < pv.len() ==> nv[i] == pv[i]
                &&& nv[t as int] == prep_sem(pv[v as int], w_in as nat, w_out as nat, signed,
                    k.val())
            } by {
                crate::ir::lemma_vals_after_len(ar, params, ops0);
                crate::ir::lemma_vals_after_len(ar, params, ops1);
                crate::ir::lemma_vals_fit(ar, params, ops0);
                crate::ir::lemma_vals_fit(ar, params, ops1);
                crate::ir::lemma_widths_after_len(params, ops0);
                crate::ir::lemma_widths_after_len(params, ops1);
                let pv = vals_after(ar, params, ops0);
                let nv = vals_after(ar, params, ops1);
                assert(ops1.take(ops0.len() as int) == ops0) by {
                    assert(ops1.take(ops0.len() as int) =~= ops0);
                }
                lemma_vals_after_prefix(ar, params, ops0, ops1);
                let e = ext_sem(pv[v as int], w_in as nat, w_out as nat, signed);
                assert(nv[t as int] == e);
                assert(e < pow2(w_out as nat)) by {
                    crate::ir::lemma_pow2_le(w_in as nat, w_out as nat);
                    if signed && w_in >= 1 {
                        crate::ir::lemma_pow2_le((w_in - 1) as nat, w_out as nat);
                    }
                }
                assert((e + k.val()) % (pow2(w_out as nat) as int) == e) by {
                    vstd::arithmetic::div_mod::lemma_small_mod(e, pow2(w_out as nat));
                }
            }
        }
        t
    };
    r
}

/// Emit a subtraction of the constant `k` from the value at `v`, skipped
/// when `k` is zero. Returns the index of the result.
pub(crate) fn sub_const(body: &mut FuncBody, entry: usize, v: usize, w: u64, k: &Signed) -> (r:
    usize)
    requires
        entry < old(body).blocks@.len(),
        old(body).blocks@[entry as int].wf_ops(),
        v < old(body).blocks@[entry as int].n_vals(),
        old(body).blocks@[entry as int].widths()[v as int] == w,
        width_ok(w),
        k.wf(),
        old(body).blocks@[entry as int].n_vals() + 2 < usize::MAX,
    ensures
        final(body).blocks@ == old(body).blocks@.update(
            entry as int,
            final(body).blocks@[entry as int],
        ),
        final(body).blocks@[entry as int].params == old(body).blocks@[entry as int].params,
        final(body).blocks@[entry as int].term == old(body).blocks@[entry as int].term,
        final(body).blocks@[entry as int].wf_ops(),
        final(body).blocks@[entry as int].ops@.len() <= old(body).blocks@[entry as
            int].ops@.len() + 2,
        final(body).blocks@[entry as int].ops@.take(
            old(body).blocks@[entry as int].ops@.len() as int,
        ) == old(body).blocks@[entry as int].ops@,
        old(body).blocks@[entry as int].ops@.len() <= final(body).blocks@[entry as
            int].ops@.len(),
        r < final(body).blocks@[entry as int].n_vals(),
        final(body).blocks@[entry as int].widths()[r as int] == w,
        forall|ar: Seq<nat>|
            args_fit(ar, old(body).blocks@[entry as int].params@) ==> {
                let pv = vals_after(
                    ar,
                    old(body).blocks@[entry as int].params@,
                    old(body).blocks@[entry as int].ops@,
                );
                let nv = #[trigger] vals_after(
                    ar,
                    final(body).blocks@[entry as int].params@,
                    final(body).blocks@[entry as int].ops@,
                );
                &&& forall|i: int| 0 <= i < pv.len() ==> nv[i] == pv[i]
                &&& nv[r as int] == ((pv[v as int] - k.val()) % (pow2(w as nat) as int)) as nat
            },
{
    let ghost params = body.blocks@[entry as int].params@;
    let ghost ops0 = body.blocks@[entry as int].ops@;
    proof {
        crate::ir::lemma_widths_after_len(params, ops0);
    }
    let k_zero = crate::bignum::big_is_zero(&k.mag);
    if !k_zero {
        let c = signed_mod_pow2(k, w);
        let ghost cval = big(c);
        let ci = body.push_op(entry, Op::ConstInt { w, c });
        let ghost ops1 = body.blocks@[entry as int].ops@;
        let r = body.push_op(entry, Op::SubI { a: v, b: ci });
        proof {
            let ops2 = body.blocks@[entry as int].ops@;
            assert forall|ar: Seq<nat>| args_fit(ar, params) implies {
                let pv = vals_after(ar, params, ops0);
                let nv = #[trigger] vals_after(ar, params, ops2);
                &&& forall|i: int| 0 <= i < pv.len() ==> nv[i] == pv[i]
                &&& nv[r as int] == ((pv[v as int] - k.val()) % (pow2(w as nat) as int)) as nat
            } by {
                crate::ir::lemma_vals_after_len(ar, params, ops0);
                crate::ir::lemma_vals_after_len(ar, params, ops1);
                crate::ir::lemma_vals_after_len(ar, params, ops2);
                crate::ir::lemma_widths_after_len(params, ops1);
                crate::ir::lemma_vals_fit(ar, params, ops0);
                let pv = vals_after(ar, params, ops0);
                let v1 = vals_after(ar, params, ops1);
                let nv = vals_after(ar, params, ops2);
                assert(ops1.take(ops0.len() as int) == ops0) by {
                    assert(ops1.take(ops0.len() as int) =~= ops0);
                }
                lemma_vals_after_prefix(ar, params, ops0, ops1);
                assert(ops2.take(ops1.len() as int) == ops1) by {
                    assert(ops2.take(ops1.len() as int) =~= ops1);
                }
                lemma_vals_after_prefix(ar, params, ops1, ops2);
                assert(v1[ci as int] == cval % pow2(w as nat)) by {
                    assert(v1 == pv.push(sem_op(ops1.last(), pv, widths_after(params, ops0))));
                }
                assert(cval % pow2(w as nat) == cval) by {
                    vstd::arithmetic::div_mod::lemma_small_mod(cval, pow2(w as nat));
                }
                assert(nv[r as int] == ((v1[v as int] - v1[ci as int]) % (pow2(
                    w as nat,
                ) as int)) as nat);
                assert((pv[v as int] - cval) % (pow2(w as nat) as int) == (pv[v as int] - k.val())
                    % (pow2(w as nat) as int)) by {
                    vstd::arithmetic::power2::lemma_pow2_pos(w as nat);
                    vstd::arithmetic::div_mod::lemma_sub_mod_noop(
                        pv[v as int] as int,
                        k.val(),
                        pow2(w as nat) as int,
                    );
                    vstd::arithmetic::div_mod::lemma_small_mod(
                        pv[v as int],
                        pow2(w as nat),
                    );
                }
            }
        }
        r
    } else {
        proof {
            assert forall|ar: Seq<nat>| args_fit(ar, params) implies {
                let pv = vals_after(ar, params, ops0);
                let nv = #[trigger] vals_after(ar, params, ops0);
                &&& forall|i: int| 0 <= i < pv.len() ==> nv[i] == pv[i]
                &&& nv[v as int] == ((pv[v as int] - k.val()) % (pow2(w as nat) as int)) as nat
            } by {
                crate::ir::lemma_vals_after_len(ar, params, ops0);
                crate::ir::lemma_vals_fit(ar, params, ops0);
                let pv = vals_after(ar, params, ops0);
                vstd::arithmetic::power2::lemma_pow2_pos(w as nat);
                vstd::arithmetic::div_mod::lemma_small_mod(pv[v as int], pow2(w as nat));
            }
        }
        v
    }
}

/// Truncate the value at `v` into `w_dst` bits when the register is wider,
/// a no-op otherwise. Returns the index of the result.
pub(crate) fn trunc_to(body: &mut FuncBody, entry: usize, v: usize, w_in: u64, w_dst: u64) -> (r:
    usize)
    requires
        entry < old(body).blocks@.len(),
        old(body).blocks@[entry as int].wf_ops(),
        v < old(body).blocks@[entry as int].n_vals(),
        old(body).blocks@[entry as int].widths()[v as int] == w_in,
        w_dst <= w_in,
        old(body).blocks@[entry as int].n_vals() + 1 < usize::MAX,
    ensures
        final(body).blocks@ == old(body).blocks@.update(
            entry as int,
            final(body).blocks@[entry as int],
        ),
        final(body).blocks@[entry as int].params == old(body).blocks@[entry as int].params,
        final(body).blocks@[entry as int].term == old(body).blocks@[entry as int].term,
        final(body).blocks@[entry as int].wf_ops(),
        final(body).blocks@[entry as int].ops@.len() <= old(body).blocks@[entry as
            int].ops@.len() + 1,
        final(body).blocks@[entry as int].ops@.take(
            old(body).blocks@[entry as int].ops@.len() as int,
        ) == old(body).blocks@[entry as int].ops@,
        old(body).blocks@[entry as int].ops@.len() <= final(body).blocks@[entry as
            int].ops@.len(),
        r < final(body).blocks@[entry as int].n_vals(),
        final(body).blocks@[entry as int].widths()[r as int] == w_dst,
        forall|ar: Seq<nat>|
            args_fit(ar, old(body).blocks@[entry as int].params@) ==> {
                let pv = vals_after(
                    ar,
                    old(body).blocks@[entry as int].params@,
                    old(body).blocks@[entry as int].ops@,
                );
                let nv = #[trigger] vals_after(
                    ar,
                    final(body).blocks@[entry as int].params@,
                    final(body).blocks@[entry as int].ops@,
                );
                &&& forall|i: int| 0 <= i < pv.len() ==> nv[i] == pv[i]
                &&& nv[r as int] == pv[v as int] % pow2(w_dst as nat)
            },
{
    let ghost params = body.blocks@[entry as int].params@;
    let ghost ops0 = body.blocks@[entry as int].ops@;
    proof {
        crate::ir::lemma_widths_after_len(params, ops0);
    }
    if w_dst < w_in {
        let r = body.push_op(entry, Op::TruncI { v, w: w_dst });
        proof {
            let ops1 = body.blocks@[entry as int].ops@;
            assert forall|ar: Seq<nat>| args_fit(ar, params) implies {
                let pv = vals_after(ar, params, ops0);
                let nv = #[trigger] vals_after(ar, params, ops1);
                &&& forall|i: int| 0 <= i < pv.len() ==> nv[i] == pv[i]
                &&& nv[r as int] == pv[v as int] % pow2(w_dst as nat)
            } by {
                crate::ir::lemma_vals_after_len(ar, params, ops0);
                crate::ir::lemma_vals_after_len(ar, params, ops1);
                assert(ops1.take(ops0.len() as int) == ops0) by {
                    assert(ops1.take(ops0.len() as int) =~= ops0);
                }
                lemma_vals_after_prefix(ar, params, ops0, ops1);
            }
        }
        r
    } else {
        proof {
            assert forall|ar: Seq<nat>| args_fit(ar, params) implies {
                let pv = vals_after(ar, params, ops0);
                let nv = #[trigger] vals_after(ar, params, ops0);
                &&& forall|i: int| 0 <= i < pv.len() ==> nv[i] == pv[i]
                &&& nv[v as int] == pv[v as int] % pow2(w_dst as nat)
            } by {
                crate::ir::lemma_vals_after_len(ar, params, ops0);
                crate::ir::lemma_vals_fit(ar, params, ops0);
                let pv = vals_after(ar, params, ops0);
                vstd::arithmetic::power2::lemma_pow2_pos(w_dst as nat);
                vstd::arithmetic::div_mod::lemma_small_mod(pv[v as int], pow2(w_dst as nat));
            }
        }
        v
    }
}

/// The register encoding of a typed operand value `x`: the offset from the
/// range's lower bound for sub-ranged integers, two's complement otherwise.
pub open spec fn operand_enc(bounded: bool, l: int, w: nat, x: int) -> nat {
    if bounded {
        (x - l) as nat
    } else {
        const_enc(x, w)
    }
}

/// A one-argument block input.
pub open spec fn args1(x: nat) -> Seq<nat> {
    seq![x]
}

/// A two-argument block input.
pub open spec fn args2(x: nat, y: nat) -> Seq<nat> {
    seq![x, y]
}

/// A three-argument block input.
pub open spec fn args3(x: nat, y: nat, z: nat) -> Seq<nat> {
    seq![x, y, z]
}

/// The natural register width of an integer-like type: the offset width for
/// sub-ranged integers, the zero-based width of a plain integer otherwise.
pub open spec fn nat_width_of(ty: crate::types::ConcreteType) -> nat {
    match crate::types::spec_int_range(ty) {
        Some(lu) => if crate::types::spec_is_bounded_int(ty) {
            bit_len((lu.1 - lu.0 - 1) as nat)
        } else if lu.0 >= 0 {
            bit_len((lu.1 - 1) as nat)
        } else {
            bit_len((lu.1 - lu.0 - 1) as nat)
        },
        None => 0,
    }
}

/// A plain (non-sub-ranged) integer type's range sits inside its register's
/// two's-complement range.
pub open spec fn enc_ok(l: int, u: int, w: nat) -> bool {
    if l >= 0 {
        l == 0 && u <= pow2(w)
    } else {
        &&& w >= 1
        &&& -(pow2((w - 1) as nat) as int) <= l
        &&& u <= pow2((w - 1) as nat)
    }
}

/// The width of the all-ones value below a power of two.
pub proof fn lemma_bit_len_pow2m1(n: nat)
    ensures
        bit_len((pow2(n) - 1) as nat) == n,
{
    vstd::arithmetic::power2::lemma_pow2_pos(n);
    crate::utils::lemma_bit_len((pow2(n) - 1) as nat);
    if n > 0 {
        crate::ir::lemma_pow2_le((n - 1) as nat, n);
        assert(pow2((n - 1) as nat) < pow2(n)) by {
            vstd::arithmetic::power2::lemma_pow2_strictly_increases((n - 1) as nat, n);
        }
    }
    crate::utils::lemma_bit_len_unique(
        (pow2(n) - 1) as nat,
        bit_len((pow2(n) - 1) as nat),
        n,
    );
}

/// Every plain integer-like type of the registry encodes into its natural
/// width without loss.
pub proof fn lemma_ranges_enc_ok(ty: crate::types::ConcreteType)
    requires
        ty.wf(),
        crate::types::spec_int_range(ty) is Some,
        !crate::types::spec_is_bounded_int(ty),
    ensures
        ({
            let lu = crate::types::spec_int_range(ty).unwrap();
            enc_ok(lu.0, lu.1, nat_width_of(ty))
        }),
    decreases ty,
{
    vstd::arithmetic::power2::lemma2_to64();
    vstd::arithmetic::power2::lemma2_to64_rest();
    match ty {
        crate::types::ConcreteType::NonZero { inner } => {
            lemma_ranges_enc_ok(*inner);
        },
        crate::types::ConcreteType::Felt252 => {
            let u = crate::types::felt_prime() as int;
            crate::utils::lemma_bit_len((u - 1) as nat);
        },
        crate::types::ConcreteType::Uint8 => {
            crate::utils::lemma_bit_len((pow2(8) - 1) as nat);
        },
        crate::types::ConcreteType::Uint16 => {
            crate::utils::lemma_bit_len((pow2(16) - 1) as nat);
        },
        crate::types::ConcreteType::Uint32 => {
            crate::utils::lemma_bit_len((pow2(32) - 1) as nat);
        },
        crate::types::ConcreteType::Uint64 => {
            crate::utils::lemma_bit_len((pow2(64) - 1) as nat);
        },
        crate::types::ConcreteType::Uint128 => {
            crate::utils::lemma_bit_len((pow2(128) - 1) as nat);
        },
        crate::types::ConcreteType::Sint8 => {
            lemma_sint_enc_ok(8);
        },
        crate::types::ConcreteType::Sint16 => {
            lemma_sint_enc_ok(16);
        },
        crate::types::ConcreteType::Sint32 => {
            lemma_sint_enc_ok(32);
        },
        crate::types::ConcreteType::Sint64 => {
            lemma_sint_enc_ok(64);
        },
        crate::types::ConcreteType::Sint128 => {
            lemma_sint_enc_ok(128);
        },
        _ => {
        },
    }
}

/// The symmetric signed range of width `n` encodes into `n` bits.
proof fn lemma_sint_enc_ok(n: nat)
    requires
        n >= 1,
    ensures
        ({
            let h = pow2((n - 1) as nat) as int;
            enc_ok(-h, h, bit_len((2 * h - 1) as nat))
        }),
{
    let h = pow2((n - 1) as nat) as int;
    assert(2 * h == pow2(n)) by {
        vstd::arithmetic::power2::lemma_pow2_adds((n - 1) as nat, 1);
        vstd::arithmetic::power2::lemma2_to64();
    }
    lemma_bit_len_pow2m1(n);
}

/// Composing a truncation with a wider modulus: reducing modulo `2^w1` then
/// modulo `2^w2` (for `w2 <= w1`) is reducing modulo `2^w2`.
pub proof fn lemma_mod_mod_pow2(x: int, w1: nat, w2: nat)
    requires
        w2 <= w1,
    ensures
        (x % (pow2(w1) as int)) % (pow2(w2) as int) == x % (pow2(w2) as int),
{
    vstd::arithmetic::power2::lemma_pow2_pos(w1);
    vstd::arithmetic::power2::lemma_pow2_pos(w2);
    vstd::arithmetic::power2::lemma_pow2_pos((w1 - w2) as nat);
    vstd::arithmetic::power2::lemma_pow2_adds(w2, (w1 - w2) as nat);
    vstd::arithmetic::div_mod::lemma_mod_mod(x, pow2(w2) as int, pow2((w1 - w2) as nat) as int);
}

/// Resolve an integer-like operand type: its range, whether it uses the
/// offset representation, and its natural register width.
pub(crate) fn resolve_operand(registry: &crate::program::ProgramRegistry, id: u64) -> (r: Result<
    (crate::utils::Range, bool, u64),
    crate::bignum::Signed,
>)
    requires
        registry.wf(),
        id < registry.types@.len(),
        crate::types::spec_int_range(registry.types@[id as int]) is Some,
    ensures
        r is Ok,
        ({
            let ty = registry.types@[id as int];
            let lu = crate::types::spec_int_range(ty).unwrap();
            let rr = r.unwrap();
            &&& rr.0.wf()
            &&& rr.0.lower.val() == lu.0
            &&& rr.0.upper.val() == lu.1
            &&& rr.1 == crate::types::spec_is_bounded_int(ty)
            &&& rr.2 as nat == nat_width_of(ty)
            &&& width_ok(rr.2)
            &&& (rr.1 ==> crate::utils::is_bit_len((lu.1 - lu.0 - 1) as nat, rr.2 as nat))
            &&& (!rr.1 ==> crate::utils::is_bit_len(
                if lu.0 >= 0 {
                    (lu.1 - 1) as nat
                } else {
                    (lu.1 - lu.0 - 1) as nat
                },
                rr.2 as nat,
            ))
            &&& (!rr.1 ==> enc_ok(lu.0, lu.1, rr.2 as nat))
        }),
{
    let ghost ty_s = registry.types@[id as int];
    let ghost lu = crate::types::spec_int_range(ty_s).unwrap();
    let ty = match registry.get_type(id) {
        Ok(t) => t,
        Err(_) => {
            proof {
                assert(false);
            }
            return Err(Signed::from_u128(0));
        },
    };
    let rg = match ty.integer_range() {
        Ok(g) => g,
        Err(_) => {
            proof {
                assert(false);
            }
            return Err(Signed::from_u128(0));
        },
    };
    let bounded = ty.is_bounded_int();
    let w: u64 = if bounded {
        rg.offset_bit_width()
    } else {
        rg.zero_based_bit_width()
    };
    proof {
        let st = if bounded {
            rg.offset_target()
        } else {
            rg.zero_based_target()
        };
        assert(st < pow2(0xFFFF_FFFF as nat)) by {
            assert(st < 2 * crate::utils::bound_limit());
            assert(2 * pow2(0xFFFF_FFFE as nat) == pow2(0xFFFF_FFFF as nat)) by {
                vstd::arithmetic::power2::lemma_pow2_adds(0xFFFF_FFFE as nat, 1);
                vstd::arithmetic::power2::lemma2_to64();
            }
        }
        crate::utils::lemma_width_in_limit(st, w as nat);
        if bounded {
            crate::utils::lemma_bit_len(rg.offset_target());
            crate::utils::lemma_bit_len_unique(
                rg.offset_target(),
                w as nat,
                crate::utils::bit_len(rg.offset_target()),
            );
        } else {
            crate::utils::lemma_bit_len(rg.zero_based_target());
            crate::utils::lemma_bit_len_unique(
                rg.zero_based_target(),
                w as nat,
                crate::utils::bit_len(rg.zero_based_target()),
            );
            lemma_ranges_enc_ok(ty_s);
        }
    }
    Ok((rg, bounded, w))
}

} // verus!
