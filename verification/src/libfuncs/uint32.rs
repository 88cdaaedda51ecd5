//! `u32`-related libfuncs.

use vstd::prelude::*;
use vstd::arithmetic::power2::pow2;

use crate::error::Error;
use crate::ir::{args_fit, eval_body_from, vals_after, FuncBody, Op, Outcome, Terminator};
use crate::libfuncs::args3;
use crate::metadata::MetadataStorage;
use crate::program::{
    IntConstConcreteLibfunc, IntOperator, ProgramRegistry, SignatureOnlyConcreteLibfunc,
    Uint32Concrete, UintOperationConcreteLibfunc,
};

verus! {

broadcast use crate::utils::lemma_push_drop_last;

/// A fresh entry block with the given parameter widths.
pub open spec fn entry_ok(body: FuncBody, entry: int, widths: Seq<u64>) -> bool {
    &&& 0 <= entry < body.blocks@.len()
    &&& body.blocks@[entry].ops@.len() == 0
    &&& body.blocks@[entry].term is None
    &&& body.blocks@[entry].params@ == widths
}

/// What the constant lowering guarantees: the single branch carries
/// exactly the constant.
pub open spec fn const_postcond(
    c: u32,
    oldb: FuncBody,
    newb: FuncBody,
    entry: int,
    res: Result<(), Error>,
) -> bool {
    &&& res is Ok
    &&& newb.blocks@ == oldb.blocks@.update(entry, newb.blocks@[entry])
    &&& forall|fuel: nat|
        fuel >= 1 ==> #[trigger] eval_body_from(newb, entry, Seq::<nat>::empty(), fuel)
            == (Outcome::Branches { branch: 0nat, vals: seq![c as nat] })
}

/// Generate the operations for the `u32_const` libfunc.
pub fn build_const(
    _registry: &ProgramRegistry,
    body: &mut FuncBody,
    entry: usize,
    _metadata: &mut MetadataStorage,
    info: &IntConstConcreteLibfunc,
) -> (res: Result<(), Error>)
    requires
        entry_ok(*old(body), entry as int, Seq::<u64>::empty()),
    ensures
        const_postcond(info.c, *old(body), *final(body), entry as int, res),
{
    let ghost params = body.blocks@[entry as int].params@;
    let cbig = crate::bignum::big_from_u128(info.c as u128);
    proof {
        vstd::arithmetic::power2::lemma2_to64();
    }
    let k = body.push_op(entry, Op::ConstInt { w: 32, c: cbig });
    let ghost body_a = *body;
    let mut out: Vec<usize> = Vec::new();
    out.push(k);
    proof {
        assert(out@ =~= seq![k]);
    }
    body.set_term(entry, Terminator::BranchOut { branch: 0, args: out });
    proof {
        let fb = *body;
        assert(fb.blocks@ =~= old(body).blocks@.update(entry as int, fb.blocks@[entry as int]));
        assert forall|fuel: nat| fuel >= 1 implies #[trigger] eval_body_from(
            fb,
            entry as int,
            Seq::<nat>::empty(),
            fuel,
        ) == (Outcome::Branches { branch: 0nat, vals: seq![info.c as nat] }) by {
            let ar = Seq::<nat>::empty();
            assert(args_fit(ar, params));
            let ops0 = old(body).blocks@[entry as int].ops@;
            let opsa = body_a.blocks@[entry as int].ops@;
            let va = vals_after(ar, params, opsa);
            crate::ir::lemma_vals_after_len(ar, params, opsa);
            assert(opsa.drop_last() == ops0);
            assert(vals_after(ar, params, ops0) == ar);
            vstd::arithmetic::power2::lemma2_to64();
            vstd::arithmetic::div_mod::lemma_small_mod(info.c as nat, pow2(32));
            assert(va[k as int] == info.c as nat);
            assert(crate::ir::pick_vals(va, seq![k]) =~= seq![info.c as nat]);
        }
    }
    Ok(())
}

/// What the overflowing-operation lowering guarantees: the wrapped result
/// with the overflow flag deciding the branch.
pub open spec fn operation_postcond(
    operator: IntOperator,
    oldb: FuncBody,
    newb: FuncBody,
    entry: int,
    res: Result<(), Error>,
) -> bool {
    &&& res is Ok
    &&& newb.blocks@ == oldb.blocks@.update(entry, newb.blocks@[entry])
    &&& forall|a: nat, b: nat, rc: nat, fuel: nat|
        a < pow2(32) && b < pow2(32) && rc < pow2(64) && fuel >= 1 ==> #[trigger] eval_body_from(
            newb,
            entry,
            args3(rc, a, b),
            fuel,
        ) == (match operator {
            IntOperator::OverflowingAdd => if a + b < pow2(32) {
                Outcome::Branches { branch: 0nat, vals: seq![rc, a + b] }
            } else {
                Outcome::Branches { branch: 1nat, vals: seq![rc, (a + b - pow2(32)) as nat] }
            },
            IntOperator::OverflowingSub => if a >= b {
                Outcome::Branches { branch: 0nat, vals: seq![rc, (a - b) as nat] }
            } else {
                Outcome::Branches { branch: 1nat, vals: seq![rc, (a - b + pow2(32)) as nat] }
            },
        })
}

/// Generate the operations for the `u32` overflowing add/sub libfuncs: the
/// wrapped result, with the overflow flag deciding the branch.
pub fn build_operation(
    _registry: &ProgramRegistry,
    body: &mut FuncBody,
    entry: usize,
    info: &UintOperationConcreteLibfunc,
) -> (res: Result<(), Error>)
    requires
        entry_ok(*old(body), entry as int, seq![64u64, 32u64, 32u64]),
    ensures
        operation_postcond(info.operator, *old(body), *final(body), entry as int, res),
{
    let ghost params = body.blocks@[entry as int].params@;
    let r = match info.operator {
        IntOperator::OverflowingAdd => body.push_op(entry, Op::AddI { a: 1, b: 2 }),
        IntOperator::OverflowingSub => body.push_op(entry, Op::SubI { a: 1, b: 2 }),
    };
    let ghost body_a = *body;
    // The overflow flag: for addition the result wraps below the first
    // operand; for subtraction the first operand is below the second.
    let of = match info.operator {
        IntOperator::OverflowingAdd => body.push_op(
            entry,
            Op::Cmpi { pred: crate::ir::CmpPred::Ult, a: r, b: 1 },
        ),
        IntOperator::OverflowingSub => body.push_op(
            entry,
            Op::Cmpi { pred: crate::ir::CmpPred::Ult, a: 1, b: 2 },
        ),
    };
    let ghost body_b = *body;
    let mut of_args: Vec<usize> = Vec::new();
    of_args.push(0);
    of_args.push(r);
    let mut ok_args: Vec<usize> = Vec::new();
    ok_args.push(0);
    ok_args.push(r);
    proof {
        assert(of_args@ =~= seq![0usize, r]);
        assert(ok_args@ =~= seq![0usize, r]);
    }
    body.set_term(
        entry,
        Terminator::CondBranchOut {
            cond: of,
            branch_true: 1,
            args_true: of_args,
            branch_false: 0,
            args_false: ok_args,
        },
    );
    proof {
        let fb = *body;
        assert(fb.blocks@ =~= old(body).blocks@.update(entry as int, fb.blocks@[entry as int]));
        assert forall|a: nat, b: nat, rc: nat, fuel: nat|
            a < pow2(32) && b < pow2(32) && rc < pow2(64) && fuel >= 1 implies #[trigger]
            eval_body_from(fb, entry as int, args3(rc, a, b), fuel) == (match info.operator {
            IntOperator::OverflowingAdd => if a + b < pow2(32) {
                Outcome::Branches { branch: 0nat, vals: seq![rc, a + b] }
            } else {
                Outcome::Branches { branch: 1nat, vals: seq![rc, (a + b - pow2(32)) as nat] }
            },
            IntOperator::OverflowingSub => if a >= b {
                Outcome::Branches { branch: 0nat, vals: seq![rc, (a - b) as nat] }
            } else {
                Outcome::Branches { branch: 1nat, vals: seq![rc, (a - b + pow2(32)) as nat] }
            },
        }) by {
            let ar = args3(rc, a, b);
            assert(args_fit(ar, params));
            let ops0 = old(body).blocks@[entry as int].ops@;
            let opsa = body_a.blocks@[entry as int].ops@;
            let opsb = body_b.blocks@[entry as int].ops@;
            let va = vals_after(ar, params, opsa);
            let vb = vals_after(ar, params, opsb);
            crate::ir::lemma_vals_after_len(ar, params, opsa);
            crate::ir::lemma_vals_after_len(ar, params, opsb);
            crate::ir::lemma_widths_after_len(params, opsa);
            assert(fb.blocks@[entry as int].ops@ == opsb);
            assert(opsa.drop_last() == ops0);
            assert(vals_after(ar, params, ops0) == ar);
            assert(opsb.drop_last() == opsa);
            vstd::arithmetic::power2::lemma_pow2_pos(32);
            match info.operator {
                IntOperator::OverflowingAdd => {
                    assert(va[r as int] == (((a + b) as int) % (pow2(32) as int)) as nat);
                    if a + b < pow2(32) {
                        vstd::arithmetic::div_mod::lemma_small_mod(a + b, pow2(32));
                    } else {
                        vstd::arithmetic::div_mod::lemma_mod_add_multiples_vanish(
                            a + b - pow2(32),
                            pow2(32) as int,
                        );
                        vstd::arithmetic::div_mod::lemma_small_mod(
                            (a + b - pow2(32)) as nat,
                            pow2(32),
                        );
                    }
                    assert(vb[of as int] == (if va[r as int] < a {
                        1nat
                    } else {
                        0nat
                    }));
                    assert(crate::ir::pick_vals(vb, seq![0usize, r]) =~= seq![rc, va[r as int]]);
                },
                IntOperator::OverflowingSub => {
                    assert(va[r as int] == ((a - b) % (pow2(32) as int)) as nat);
                    if a >= b {
                        vstd::arithmetic::div_mod::lemma_small_mod((a - b) as nat, pow2(32));
                    } else {
                        vstd::arithmetic::div_mod::lemma_mod_add_multiples_vanish(
                            a - b,
                            pow2(32) as int,
                        );
                        vstd::arithmetic::div_mod::lemma_small_mod(
                            (a - b + pow2(32)) as nat,
                            pow2(32),
                        );
                    }
                    assert(vb[of as int] == (if a < b {
                        1nat
                    } else {
                        0nat
                    }));
                    assert(crate::ir::pick_vals(vb, seq![0usize, r]) =~= seq![rc, va[r as int]]);
                },
            }
        }
    }
    Ok(())
}

/// What the equality lowering guarantees: an empty-handed branch on the
/// comparison result.
pub open spec fn equal_postcond(
    oldb: FuncBody,
    newb: FuncBody,
    entry: int,
    res: Result<(), Error>,
) -> bool {
    &&& res is Ok
    &&& newb.blocks@ == oldb.blocks@.update(entry, newb.blocks@[entry])
    &&& forall|a: nat, b: nat, fuel: nat|
        a < pow2(32) && b < pow2(32) && fuel >= 1 ==> #[trigger] eval_body_from(
            newb,
            entry,
            crate::libfuncs::args2(a, b),
            fuel,
        ) == (Outcome::Branches {
            branch: if a == b {
                1nat
            } else {
                0nat
            },
            vals: Seq::<nat>::empty(),
        })
}

/// Generate the operations for the `u32_eq` libfunc.
pub fn build_equal(
    _registry: &ProgramRegistry,
    body: &mut FuncBody,
    entry: usize,
    _info: &SignatureOnlyConcreteLibfunc,
) -> (res: Result<(), Error>)
    requires
        entry_ok(*old(body), entry as int, seq![32u64, 32u64]),
    ensures
        equal_postcond(*old(body), *final(body), entry as int, res),
{
    let ghost params = body.blocks@[entry as int].params@;
    let c = body.push_op(entry, Op::Cmpi { pred: crate::ir::CmpPred::Eq, a: 0, b: 1 });
    let ghost body_a = *body;
    let e0: Vec<usize> = Vec::new();
    let e1: Vec<usize> = Vec::new();
    body.set_term(
        entry,
        Terminator::CondBranchOut {
            cond: c,
            branch_true: 1,
            args_true: e1,
            branch_false: 0,
            args_false: e0,
        },
    );
    proof {
        let fb = *body;
        assert(fb.blocks@ =~= old(body).blocks@.update(entry as int, fb.blocks@[entry as int]));
        assert forall|a: nat, b: nat, fuel: nat|
            a < pow2(32) && b < pow2(32) && fuel >= 1 implies #[trigger] eval_body_from(
            fb,
            entry as int,
            crate::libfuncs::args2(a, b),
            fuel,
        ) == (Outcome::Branches {
            branch: if a == b {
                1nat
            } else {
                0nat
            },
            vals: Seq::<nat>::empty(),
        }) by {
            let ar = crate::libfuncs::args2(a, b);
            assert(args_fit(ar, params));
            let ops0 = old(body).blocks@[entry as int].ops@;
            let opsa = body_a.blocks@[entry as int].ops@;
            let va = vals_after(ar, params, opsa);
            crate::ir::lemma_vals_after_len(ar, params, opsa);
            assert(opsa.drop_last() == ops0);
            assert(vals_after(ar, params, ops0) == ar);
            assert(va[c as int] == (if a == b {
                1nat
            } else {
                0nat
            }));
            assert(crate::ir::pick_vals(va, Seq::<usize>::empty()) =~= Seq::<nat>::empty());
        }
    }
    Ok(())
}

/// What the zero-test lowering guarantees: branch 0 empty-handed on zero,
/// branch 1 carrying the value otherwise.
pub open spec fn is_zero_postcond(
    oldb: FuncBody,
    newb: FuncBody,
    entry: int,
    res: Result<(), Error>,
) -> bool {
    &&& res is Ok
    &&& newb.blocks@ == oldb.blocks@.update(entry, newb.blocks@[entry])
    &&& forall|a: nat, fuel: nat|
        a < pow2(32) && fuel >= 1 ==> #[trigger] eval_body_from(
            newb,
            entry,
            crate::libfuncs::args1(a),
            fuel,
        ) == if a == 0 {
            Outcome::Branches { branch: 0nat, vals: Seq::<nat>::empty() }
        } else {
            Outcome::Branches { branch: 1nat, vals: seq![a] }
        }
}

/// Generate the operations for the `u32_is_zero` libfunc.
pub fn build_is_zero(
    _registry: &ProgramRegistry,
    body: &mut FuncBody,
    entry: usize,
    _info: &SignatureOnlyConcreteLibfunc,
) -> (res: Result<(), Error>)
    requires
        entry_ok(*old(body), entry as int, seq![32u64]),
    ensures
        is_zero_postcond(*old(body), *final(body), entry as int, res),
{
    let ghost params = body.blocks@[entry as int].params@;
    let zero = crate::bignum::big_from_u128(0);
    proof {
        vstd::arithmetic::power2::lemma_pow2_pos(32);
    }
    let k0 = body.push_op(entry, Op::ConstInt { w: 32, c: zero });
    let ghost body_a = *body;
    let c = body.push_op(entry, Op::Cmpi { pred: crate::ir::CmpPred::Eq, a: 0, b: k0 });
    let ghost body_b = *body;
    let ez: Vec<usize> = Vec::new();
    let mut nz: Vec<usize> = Vec::new();
    nz.push(0);
    proof {
        assert(nz@ =~= seq![0usize]);
    }
    body.set_term(
        entry,
        Terminator::CondBranchOut {
            cond: c,
            branch_true: 0,
            args_true: ez,
            branch_false: 1,
            args_false: nz,
        },
    );
    proof {
        let fb = *body;
        assert(fb.blocks@ =~= old(body).blocks@.update(entry as int, fb.blocks@[entry as int]));
        assert forall|a: nat, fuel: nat| a < pow2(32) && fuel >= 1 implies #[trigger]
            eval_body_from(fb, entry as int, crate::libfuncs::args1(a), fuel) == (if a == 0 {
            Outcome::Branches { branch: 0nat, vals: Seq::<nat>::empty() }
        } else {
            Outcome::Branches { branch: 1nat, vals: seq![a] }
        }) by {
            let ar = crate::libfuncs::args1(a);
            assert(args_fit(ar, params));
            let ops0 = old(body).blocks@[entry as int].ops@;
            let opsa = body_a.blocks@[entry as int].ops@;
            let opsb = body_b.blocks@[entry as int].ops@;
            let va = vals_after(ar, params, opsa);
            let vb = vals_after(ar, params, opsb);
            crate::ir::lemma_vals_after_len(ar, params, opsa);
            crate::ir::lemma_vals_after_len(ar, params, opsb);
            crate::ir::lemma_widths_after_len(params, opsa);
            assert(opsa.drop_last() == ops0);
            assert(vals_after(ar, params, ops0) == ar);
            vstd::arithmetic::power2::lemma_pow2_pos(32);
            vstd::arithmetic::div_mod::lemma_small_mod(0nat, pow2(32));
            assert(va[k0 as int] == 0nat);
            assert(opsb.drop_last() == opsa);
            assert(vb[c as int] == (if a == 0 {
                1nat
            } else {
                0nat
            }));
            if a == 0 {
                assert(crate::ir::pick_vals(vb, Seq::<usize>::empty()) =~= Seq::<nat>::empty());
            } else {
                assert(crate::ir::pick_vals(vb, seq![0usize]) =~= seq![a]);
            }
        }
    }
    Ok(())
}

/// What the division lowering guarantees: for a non-zero divisor the
/// branch carries the token, the quotient and the remainder.
pub open spec fn divmod_postcond(
    oldb: FuncBody,
    newb: FuncBody,
    entry: int,
    res: Result<(), Error>,
) -> bool {
    &&& res is Ok
    &&& newb.blocks@ == oldb.blocks@.update(entry, newb.blocks@[entry])
    &&& forall|a: nat, b: nat, rc: nat, fuel: nat|
        a < pow2(32) && b < pow2(32) && b > 0 && rc < pow2(64) && fuel >= 1 ==> #[trigger]
            eval_body_from(newb, entry, args3(rc, a, b), fuel) == (Outcome::Branches {
            branch: 0nat,
            vals: seq![rc, a / b, a % b],
        })
}

/// Generate the operations for the `u32_safe_divmod` libfunc.
///
/// LAW — division: for a non-zero divisor the branch carries exactly the
/// quotient and remainder, which satisfy `a == q * b + r` and `0 <= r < b`
/// (`lemma_divmod_law`).
pub fn build_divmod(
    _registry: &ProgramRegistry,
    body: &mut FuncBody,
    entry: usize,
    _info: &SignatureOnlyConcreteLibfunc,
) -> (res: Result<(), Error>)
    requires
        entry_ok(*old(body), entry as int, seq![64u64, 32u64, 32u64]),
    ensures
        divmod_postcond(*old(body), *final(body), entry as int, res),
{
    let ghost params = body.blocks@[entry as int].params@;
    let q = body.push_op(entry, Op::DivUi { a: 1, b: 2 });
    let ghost body_a = *body;
    let r = body.push_op(entry, Op::RemUi { a: 1, b: 2 });
    let ghost body_b = *body;
    let mut out: Vec<usize> = Vec::new();
    out.push(0);
    out.push(q);
    out.push(r);
    proof {
        assert(out@ =~= seq![0usize, q, r]);
    }
    body.set_term(entry, Terminator::BranchOut { branch: 0, args: out });
    proof {
        let fb = *body;
        assert(fb.blocks@ =~= old(body).blocks@.update(entry as int, fb.blocks@[entry as int]));
        assert forall|a: nat, b: nat, rc: nat, fuel: nat|
            a < pow2(32) && b < pow2(32) && b > 0 && rc < pow2(64) && fuel >= 1 implies
            #[trigger] eval_body_from(fb, entry as int, args3(rc, a, b), fuel)
                == (Outcome::Branches { branch: 0nat, vals: seq![rc, a / b, a % b] }) by {
            let ar = args3(rc, a, b);
            assert(args_fit(ar, params));
            let ops0 = old(body).blocks@[entry as int].ops@;
            let opsa = body_a.blocks@[entry as int].ops@;
            let opsb = body_b.blocks@[entry as int].ops@;
            let va = vals_after(ar, params, opsa);
            let vb = vals_after(ar, params, opsb);
            crate::ir::lemma_vals_after_len(ar, params, opsa);
            crate::ir::lemma_vals_after_len(ar, params, opsb);
            crate::ir::lemma_widths_after_len(params, opsa);
            assert(opsa.drop_last() == ops0);
            assert(vals_after(ar, params, ops0) == ar);
            assert(va[q as int] == a / b);
            assert(opsb.drop_last() == opsa);
            assert(vb[r as int] == a % b);
            assert(crate::ir::pick_vals(vb, seq![0usize, q, r]) =~= seq![rc, a / b, a % b]);
        }
    }
    Ok(())
}

/// LAW — for a non-zero divisor, the quotient and remainder that the
/// division libfunc produces satisfy `a == q * b + r` and `0 <= r < b`.
pub proof fn lemma_divmod_law(a: nat, b: nat)
    requires
        b > 0,
    ensures
        a == (a / b) * b + (a % b),
        a % b < b,
{
    vstd::arithmetic::div_mod::lemma_fundamental_div_mod(a as int, b as int);
    vstd::arithmetic::div_mod::lemma_mod_bound(a as int, b as int);
    vstd::arithmetic::mul::lemma_mul_is_commutative(b as int, (a as int) / (b as int));
}

/// What the wide multiplication lowering guarantees: the single branch
/// carries the full product.
pub open spec fn widemul_postcond(
    oldb: FuncBody,
    newb: FuncBody,
    entry: int,
    res: Result<(), Error>,
) -> bool {
    &&& res is Ok
    &&& newb.blocks@ == oldb.blocks@.update(entry, newb.blocks@[entry])
    &&& forall|a: nat, b: nat, fuel: nat|
        a < pow2(32) && b < pow2(32) && fuel >= 1 ==> #[trigger] eval_body_from(
            newb,
            entry,
            crate::libfuncs::args2(a, b),
            fuel,
        ) == (Outcome::Branches { branch: 0nat, vals: seq![a * b] })
}

/// Generate the operations for the `u32_widemul` libfunc: the full product
/// in 64 bits.
pub fn build_widemul(
    _registry: &ProgramRegistry,
    body: &mut FuncBody,
    entry: usize,
    _metadata: &mut MetadataStorage,
    _info: &SignatureOnlyConcreteLibfunc,
) -> (res: Result<(), Error>)
    requires
        entry_ok(*old(body), entry as int, seq![32u64, 32u64]),
    ensures
        widemul_postcond(*old(body), *final(body), entry as int, res),
{
    let ghost params = body.blocks@[entry as int].params@;
    let ea = body.push_op(entry, Op::ExtUi { v: 0, w: 64 });
    let ghost body_a = *body;
    let eb = body.push_op(entry, Op::ExtUi { v: 1, w: 64 });
    let ghost body_b = *body;
    let m = body.push_op(entry, Op::MulI { a: ea, b: eb });
    let ghost body_c = *body;
    let mut out: Vec<usize> = Vec::new();
    out.push(m);
    proof {
        assert(out@ =~= seq![m]);
    }
    body.set_term(entry, Terminator::BranchOut { branch: 0, args: out });
    proof {
        let fb = *body;
        assert(fb.blocks@ =~= old(body).blocks@.update(entry as int, fb.blocks@[entry as int]));
        assert forall|a: nat, b: nat, fuel: nat|
            a < pow2(32) && b < pow2(32) && fuel >= 1 implies #[trigger] eval_body_from(
            fb,
            entry as int,
            crate::libfuncs::args2(a, b),
            fuel,
        ) == (Outcome::Branches { branch: 0nat, vals: seq![a * b] }) by {
            let ar = crate::libfuncs::args2(a, b);
            assert(args_fit(ar, params));
            let ops0 = old(body).blocks@[entry as int].ops@;
            let opsa = body_a.blocks@[entry as int].ops@;
            let opsb = body_b.blocks@[entry as int].ops@;
            let opsc = body_c.blocks@[entry as int].ops@;
            let va = vals_after(ar, params, opsa);
            let vb = vals_after(ar, params, opsb);
            let vc = vals_after(ar, params, opsc);
            crate::ir::lemma_vals_after_len(ar, params, opsa);
            crate::ir::lemma_vals_after_len(ar, params, opsb);
            crate::ir::lemma_vals_after_len(ar, params, opsc);
            crate::ir::lemma_widths_after_len(params, opsa);
            crate::ir::lemma_widths_after_len(params, opsb);
            assert(opsa.drop_last() == ops0);
            assert(vals_after(ar, params, ops0) == ar);
            assert(va[ea as int] == a);
            assert(opsb.drop_last() == opsa);
            assert(vb[eb as int] == b);
            assert(opsc.drop_last() == opsb);
            assert(vc[m as int] == (((a * b) as int) % (pow2(64) as int)) as nat) by {
                assert(vb[ea as int] == va[ea as int]);
            }
            assert(vc[m as int] == a * b) by {
                vstd::arithmetic::power2::lemma_pow2_pos(64);
                assert(a * b < pow2(64)) by {
                    vstd::arithmetic::power2::lemma_pow2_adds(32, 32);
                    vstd::arithmetic::power2::lemma_pow2_pos(32);
                    vstd::arithmetic::mul::lemma_mul_upper_bound(
                        a as int,
                        pow2(32) as int - 1,
                        b as int,
                        pow2(32) as int - 1,
                    );
                    assert((pow2(32) - 1) * (pow2(32) - 1) < pow2(32) * pow2(32))
                        by (nonlinear_arith)
                        requires
                            pow2(32) >= 1,
                    ;
                }
                vstd::arithmetic::div_mod::lemma_small_mod(a * b, pow2(64));
            }
            assert(crate::ir::pick_vals(vc, seq![m]) =~= seq![a * b]);
        }
    }
    Ok(())
}

/// What the field-element conversion lowering guarantees: the single
/// branch carries the value unchanged.
pub open spec fn to_felt252_postcond(
    oldb: FuncBody,
    newb: FuncBody,
    entry: int,
    res: Result<(), Error>,
) -> bool {
    &&& res is Ok
    &&& newb.blocks@ == oldb.blocks@.update(entry, newb.blocks@[entry])
    &&& forall|a: nat, fuel: nat|
        a < pow2(32) && fuel >= 1 ==> #[trigger] eval_body_from(
            newb,
            entry,
            crate::libfuncs::args1(a),
            fuel,
        ) == (Outcome::Branches { branch: 0nat, vals: seq![a] })
}

/// Generate the operations for the `u32_to_felt252` libfunc: a zero
/// extension into the field element's width.
pub fn build_to_felt252(
    _registry: &ProgramRegistry,
    body: &mut FuncBody,
    entry: usize,
    _metadata: &mut MetadataStorage,
    _info: &SignatureOnlyConcreteLibfunc,
) -> (res: Result<(), Error>)
    requires
        entry_ok(*old(body), entry as int, seq![32u64]),
    ensures
        to_felt252_postcond(*old(body), *final(body), entry as int, res),
{
    let ghost params = body.blocks@[entry as int].params@;
    let e = body.push_op(entry, Op::ExtUi { v: 0, w: 252 });
    let ghost body_a = *body;
    let mut out: Vec<usize> = Vec::new();
    out.push(e);
    proof {
        assert(out@ =~= seq![e]);
    }
    body.set_term(entry, Terminator::BranchOut { branch: 0, args: out });
    proof {
        let fb = *body;
        assert(fb.blocks@ =~= old(body).blocks@.update(entry as int, fb.blocks@[entry as int]));
        assert forall|a: nat, fuel: nat| a < pow2(32) && fuel >= 1 implies #[trigger]
            eval_body_from(fb, entry as int, crate::libfuncs::args1(a), fuel)
                == (Outcome::Branches { branch: 0nat, vals: seq![a] }) by {
            let ar = crate::libfuncs::args1(a);
            assert(args_fit(ar, params));
            let ops0 = old(body).blocks@[entry as int].ops@;
            let opsa = body_a.blocks@[entry as int].ops@;
            let va = vals_after(ar, params, opsa);
            crate::ir::lemma_vals_after_len(ar, params, opsa);
            assert(opsa.drop_last() == ops0);
            assert(vals_after(ar, params, ops0) == ar);
            assert(va[e as int] == a);
            assert(crate::ir::pick_vals(va, seq![e]) =~= seq![a]);
        }
    }
    Ok(())
}

/// What the from-field-element lowering guarantees: values that fit take
/// the success branch unchanged; larger ones take the failure branch.
pub open spec fn from_felt252_postcond(
    oldb: FuncBody,
    newb: FuncBody,
    entry: int,
    res: Result<(), Error>,
) -> bool {
    &&& res is Ok
    &&& newb.blocks@ == oldb.blocks@.update(entry, newb.blocks@[entry])
    &&& forall|x: nat, rc: nat, fuel: nat|
        x < pow2(252) && rc < pow2(64) && fuel >= 1 ==> #[trigger] eval_body_from(
            newb,
            entry,
            crate::libfuncs::args2(rc, x),
            fuel,
        ) == if x < pow2(32) {
            Outcome::Branches { branch: 0nat, vals: seq![rc, x] }
        } else {
            Outcome::Branches { branch: 1nat, vals: seq![rc] }
        }
}

/// Generate the operations for the `u32_from_felt252` libfunc: range-check
/// the field element against the `u32` maximum and branch.
pub fn build_from_felt252(
    _registry: &ProgramRegistry,
    body: &mut FuncBody,
    entry: usize,
    _metadata: &mut MetadataStorage,
    _info: &SignatureOnlyConcreteLibfunc,
) -> (res: Result<(), Error>)
    requires
        entry_ok(*old(body), entry as int, seq![64u64, 252u64]),
    ensures
        from_felt252_postcond(*old(body), *final(body), entry as int, res),
{
    let ghost params = body.blocks@[entry as int].params@;
    let limit = crate::bignum::big_pow2(32);
    let ghost limv = crate::bignum::big(limit);
    proof {
        vstd::arithmetic::power2::lemma_pow2_strictly_increases(32, 252);
    }
    let lim = body.push_op(entry, Op::ConstInt { w: 252, c: limit });
    let ghost body_a = *body;
    let cond = body.push_op(entry, Op::Cmpi { pred: crate::ir::CmpPred::Ult, a: 1, b: lim });
    let ghost body_b = *body;
    let trunc = body.push_op(entry, Op::TruncI { v: 1, w: 32 });
    let ghost body_c = *body;
    let mut ok_args: Vec<usize> = Vec::new();
    ok_args.push(0);
    ok_args.push(trunc);
    let mut fail_args: Vec<usize> = Vec::new();
    fail_args.push(0);
    proof {
        assert(ok_args@ =~= seq![0usize, trunc]);
        assert(fail_args@ =~= seq![0usize]);
    }
    body.set_term(
        entry,
        Terminator::CondBranchOut {
            cond,
            branch_true: 0,
            args_true: ok_args,
            branch_false: 1,
            args_false: fail_args,
        },
    );
    proof {
        let fb = *body;
        assert(fb.blocks@ =~= old(body).blocks@.update(entry as int, fb.blocks@[entry as int]));
        assert forall|x: nat, rc: nat, fuel: nat|
            x < pow2(252) && rc < pow2(64) && fuel >= 1 implies #[trigger] eval_body_from(
            fb,
            entry as int,
            crate::libfuncs::args2(rc, x),
            fuel,
        ) == (if x < pow2(32) {
            Outcome::Branches { branch: 0nat, vals: seq![rc, x] }
        } else {
            Outcome::Branches { branch: 1nat, vals: seq![rc] }
        }) by {
            let ar = crate::libfuncs::args2(rc, x);
            assert(args_fit(ar, params));
            let ops0 = old(body).blocks@[entry as int].ops@;
            let opsa = body_a.blocks@[entry as int].ops@;
            let opsb = body_b.blocks@[entry as int].ops@;
            let opsc = body_c.blocks@[entry as int].ops@;
            let va = vals_after(ar, params, opsa);
            let vb = vals_after(ar, params, opsb);
            let vc = vals_after(ar, params, opsc);
            crate::ir::lemma_vals_after_len(ar, params, opsa);
            crate::ir::lemma_vals_after_len(ar, params, opsb);
            crate::ir::lemma_vals_after_len(ar, params, opsc);
            crate::ir::lemma_widths_after_len(params, opsa);
            crate::ir::lemma_widths_after_len(params, opsb);
            assert(fb.blocks@[entry as int].ops@ == opsc);
            assert(opsa.drop_last() == ops0);
            assert(vals_after(ar, params, ops0) == ar);
            vstd::arithmetic::power2::lemma_pow2_pos(252);
            vstd::arithmetic::div_mod::lemma_small_mod(limv, pow2(252));
            assert(va[lim as int] == pow2(32));
            assert(opsb.drop_last() == opsa);
            assert(vb[cond as int] == (if x < pow2(32) {
                1nat
            } else {
                0nat
            }));
            assert(opsc.drop_last() == opsb);
            assert(vc[trunc as int] == x % pow2(32));
            if x < pow2(32) {
                vstd::arithmetic::div_mod::lemma_small_mod(x, pow2(32));
                assert(crate::ir::pick_vals(vc, seq![0usize, trunc]) =~= seq![rc, x]);
            } else {
                assert(crate::ir::pick_vals(vc, seq![0usize]) =~= seq![rc]);
            }
        }
    }
    Ok(())
}

/// Select and call the correct libfunc builder function from the selector.
/// The square-root opcode is not implemented: it reports the fatal
/// unsupported-feature error rather than approximating.
pub fn build(
    registry: &ProgramRegistry,
    body: &mut FuncBody,
    entry: usize,
    metadata: &mut MetadataStorage,
    selector: &Uint32Concrete,
) -> (res: Result<(), Error>)
    requires
        match selector {
            Uint32Concrete::Const(_) => entry_ok(*old(body), entry as int, Seq::<u64>::empty()),
            Uint32Concrete::Operation(_) => entry_ok(
                *old(body),
                entry as int,
                seq![64u64, 32u64, 32u64],
            ),
            Uint32Concrete::SquareRoot(_) => true,
            Uint32Concrete::Equal(_) => entry_ok(*old(body), entry as int, seq![32u64, 32u64]),
            Uint32Concrete::ToFelt252(_) => entry_ok(*old(body), entry as int, seq![32u64]),
            Uint32Concrete::FromFelt252(_) => entry_ok(
                *old(body),
                entry as int,
                seq![64u64, 252u64],
            ),
            Uint32Concrete::IsZero(_) => entry_ok(*old(body), entry as int, seq![32u64]),
            Uint32Concrete::Divmod(_) => entry_ok(
                *old(body),
                entry as int,
                seq![64u64, 32u64, 32u64],
            ),
            Uint32Concrete::WideMul(_) => entry_ok(*old(body), entry as int, seq![32u64, 32u64]),
        },
    ensures
        match selector {
            Uint32Concrete::Const(info) => const_postcond(
                info.c,
                *old(body),
                *final(body),
                entry as int,
                res,
            ),
            Uint32Concrete::Operation(info) => operation_postcond(
                info.operator,
                *old(body),
                *final(body),
                entry as int,
                res,
            ),
            Uint32Concrete::SquareRoot(_) => res is Err
                && *final(body) == *old(body),
            Uint32Concrete::Equal(_) => equal_postcond(
                *old(body),
                *final(body),
                entry as int,
                res,
            ),
            Uint32Concrete::ToFelt252(_) => to_felt252_postcond(
                *old(body),
                *final(body),
                entry as int,
                res,
            ),
            Uint32Concrete::FromFelt252(_) => from_felt252_postcond(
                *old(body),
                *final(body),
                entry as int,
                res,
            ),
            Uint32Concrete::IsZero(_) => is_zero_postcond(
                *old(body),
                *final(body),
                entry as int,
                res,
            ),
            Uint32Concrete::Divmod(_) => divmod_postcond(
                *old(body),
                *final(body),
                entry as int,
                res,
            ),
            Uint32Concrete::WideMul(_) => widemul_postcond(
                *old(body),
                *final(body),
                entry as int,
                res,
            ),
        },
{
    match selector {
        Uint32Concrete::Const(info) => build_const(registry, body, entry, metadata, info),
        Uint32Concrete::Operation(info) => build_operation(registry, body, entry, info),
        Uint32Concrete::SquareRoot(_) => Err(Error::SierraAssert(
            crate::error::SierraAssertError::BadTypeInfo,
        )),
        Uint32Concrete::Equal(info) => build_equal(registry, body, entry, info),
        Uint32Concrete::ToFelt252(info) => build_to_felt252(registry, body, entry, metadata, info),
        Uint32Concrete::FromFelt252(info) => build_from_felt252(
            registry,
            body,
            entry,
            metadata,
            info,
        ),
        Uint32Concrete::IsZero(info) => build_is_zero(registry, body, entry, info),
        Uint32Concrete::Divmod(info) => build_divmod(registry, body, entry, info),
        Uint32Concrete::WideMul(info) => build_widemul(registry, body, entry, metadata, info),
    }
}

} // verus!
