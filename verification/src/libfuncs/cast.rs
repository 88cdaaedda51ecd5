//! Casting libfuncs: width-changing conversions between integer types.

use vstd::prelude::*;
use vstd::arithmetic::power2::pow2;

use crate::error::Error;
use crate::ir::{args_fit, eval_body_from, vals_after, FuncBody, Op, Outcome, Terminator};
use crate::libfuncs::args2;
use crate::metadata::MetadataStorage;
use crate::program::{
    CastConcreteLibfunc, DowncastConcreteLibfunc, ProgramRegistry, SignatureOnlyConcreteLibfunc,
};

verus! {

broadcast use crate::utils::lemma_push_drop_last;

/// The entry block a downcast expects: the range-check token, then the
/// source value at its declared width.
pub open spec fn downcast_entry_ok(info: DowncastConcreteLibfunc, body: FuncBody, entry: int)
    -> bool {
    &&& 0 <= entry < body.blocks@.len()
    &&& body.blocks@[entry].ops@.len() == 0
    &&& body.blocks@[entry].term is None
    &&& body.blocks@[entry].params@.len() == 2
    &&& body.blocks@[entry].params@[0] == 64u64
    &&& body.blocks@[entry].params@[1] == info.from_nbits
}

/// The downcast signature: a success branch carrying the token and the
/// narrowed value, and a failure branch carrying the token alone.
pub open spec fn downcast_sig_ok(info: DowncastConcreteLibfunc) -> bool {
    &&& info.signature.branch_signatures@.len() == 2
    &&& info.signature.branch_signatures@[0].vars@.len() == 2
    &&& info.signature.branch_signatures@[1].vars@.len() == 1
}

/// What a downcast lowering guarantees.
///
/// LAW — downcast: for a wider source, a value below `2^to_nbits` takes the
/// success branch carrying exactly the truncated (equal) value, and a value
/// at or above it takes the failure branch; at equal widths every value
/// takes the success branch unchanged. Each branch carries exactly as many
/// values as its signature declares.
pub open spec fn downcast_postcond(
    info: DowncastConcreteLibfunc,
    oldb: FuncBody,
    newb: FuncBody,
    entry: int,
    res: Result<(), Error>,
) -> bool {
    &&& res is Ok
    &&& newb.blocks@ == oldb.blocks@.update(entry, newb.blocks@[entry])
    &&& newb.blocks@[entry].term matches Some(Terminator::CondBranchOut {
        args_true,
        args_false,
        branch_true,
        branch_false,
        ..
    }) && (if branch_true == 0 {
        args_true@.len() == info.signature.branch_signatures@[0].vars@.len() && branch_false == 1
            && args_false@.len() == info.signature.branch_signatures@[1].vars@.len()
    } else {
        branch_true == 1 && args_true@.len() == info.signature.branch_signatures@[1].vars@.len()
            && branch_false == 0 && args_false@.len()
            == info.signature.branch_signatures@[0].vars@.len()
    })
    &&& info.to_nbits < info.from_nbits ==> forall|x: nat, rc: nat, fuel: nat|
        x < pow2(info.from_nbits as nat) && rc < pow2(64) && fuel >= 1 ==> #[trigger]
            eval_body_from(newb, entry, args2(rc, x), fuel) == if x < pow2(
            info.to_nbits as nat,
        ) {
            Outcome::Branches { branch: 0nat, vals: seq![rc, x] }
        } else {
            Outcome::Branches { branch: 1nat, vals: seq![rc] }
        }
    &&& info.to_nbits == info.from_nbits ==> forall|x: nat, rc: nat, fuel: nat|
        x < pow2(info.from_nbits as nat) && rc < pow2(64) && fuel >= 1 ==> #[trigger]
            eval_body_from(newb, entry, args2(rc, x), fuel) == (Outcome::Branches {
            branch: 0nat,
            vals: seq![rc, x],
        })
}

/// Generate the operations for the downcast libfunc.
#[verifier::rlimit(100)]
pub fn build_downcast(
    _registry: &ProgramRegistry,
    body: &mut FuncBody,
    entry: usize,
    _metadata: &mut MetadataStorage,
    info: &DowncastConcreteLibfunc,
) -> (res: Result<(), Error>)
    requires
        info.to_nbits <= info.from_nbits,
        info.from_nbits <= 0xFFFF_FFFF,
        downcast_sig_ok(*info),
        downcast_entry_ok(*info, *old(body), entry as int),
    ensures
        downcast_postcond(*info, *old(body), *final(body), entry as int, res),
{
    let ghost params = body.blocks@[entry as int].params@;
    if info.from_nbits == info.to_nbits {
        // Same width: the value always fits; emit a constant false check so
        // both declared branches exist.
        let zero = crate::bignum::big_from_u128(0);
        proof {
            vstd::arithmetic::power2::lemma2_to64();
        }
        let k0 = body.push_op(entry, Op::ConstInt { w: 1, c: zero });
        let mut ok_args: Vec<usize> = Vec::new();
        ok_args.push(0);
        ok_args.push(1);
        let mut fail_args: Vec<usize> = Vec::new();
        fail_args.push(0);
        proof {
            assert(ok_args@ =~= seq![0usize, 1usize]);
            assert(fail_args@ =~= seq![0usize]);
        }
        body.set_term(
            entry,
            Terminator::CondBranchOut {
                cond: k0,
                branch_true: 1,
                args_true: fail_args,
                branch_false: 0,
                args_false: ok_args,
            },
        );
        proof {
            let fb = *body;
            assert(fb.blocks@ =~= old(body).blocks@.update(
                entry as int,
                fb.blocks@[entry as int],
            ));
            assert forall|x: nat, rc: nat, fuel: nat|
                x < pow2(info.from_nbits as nat) && rc < pow2(64) && fuel >= 1 implies #[trigger]
                eval_body_from(fb, entry as int, args2(rc, x), fuel) == (Outcome::Branches {
                branch: 0nat,
                vals: seq![rc, x],
            }) by {
                let ar = args2(rc, x);
                assert(args_fit(ar, params));
                let ops0 = old(body).blocks@[entry as int].ops@;
                let opsa = fb.blocks@[entry as int].ops@;
                let va = vals_after(ar, params, opsa);
                crate::ir::lemma_vals_after_len(ar, params, opsa);
                assert(opsa.drop_last() == ops0);
                assert(vals_after(ar, params, ops0) == ar);
                vstd::arithmetic::power2::lemma_pow2_pos(1);
                vstd::arithmetic::div_mod::lemma_small_mod(0nat, pow2(1));
                assert(va[k0 as int] == 0nat);
                assert(crate::ir::pick_vals(va, seq![0usize, 1usize]) =~= seq![rc, x]);
            }
        }
        Ok(())
    } else {
        // Range-check the wider value against 2^to_nbits, truncating on the
        // success path.
        let limit = crate::bignum::big_pow2(info.to_nbits as u32);
        let ghost limv = crate::bignum::big(limit);
        proof {
            vstd::arithmetic::power2::lemma_pow2_strictly_increases(
                info.to_nbits as nat,
                info.from_nbits as nat,
            );
        }
        let lim = body.push_op(entry, Op::ConstInt { w: info.from_nbits, c: limit });
        let ghost body_a = *body;
        let cond = body.push_op(entry, Op::Cmpi { pred: crate::ir::CmpPred::Ult, a: 1, b: lim });
        let ghost body_b = *body;
        let trunc = body.push_op(entry, Op::TruncI { v: 1, w: info.to_nbits });
        let ghost body_c = *body;
        let mut ok_args: Vec<usize> = Vec::new();
        ok_args.push(0);
        ok_args.push(trunc);
        let mut fail_args: Vec<usize> = Vec::new();
        fail_args.push(0);
        proof {
            assert(ok_args@ =~= seq![0usize, trunc]);
            assert(fail_args@ =~= seq![0usize]);
        }
        body.set_term(
            entry,
            Terminator::CondBranchOut {
                cond,
                branch_true: 0,
                args_true: ok_args,
                branch_false: 1,
                args_false: fail_args,
            },
        );
        proof {
            let fb = *body;
            assert(fb.blocks@ =~= old(body).blocks@.update(
                entry as int,
                fb.blocks@[entry as int],
            ));
            assert forall|x: nat, rc: nat, fuel: nat|
                x < pow2(info.from_nbits as nat) && rc < pow2(64) && fuel >= 1 implies #[trigger]
                eval_body_from(fb, entry as int, args2(rc, x), fuel) == if x < pow2(
                info.to_nbits as nat,
            ) {
                Outcome::Branches { branch: 0nat, vals: seq![rc, x] }
            } else {
                Outcome::Branches { branch: 1nat, vals: seq![rc] }
            } by {
                let ar = args2(rc, x);
                assert(args_fit(ar, params));
                let ops0 = old(body).blocks@[entry as int].ops@;
                let opsa = body_a.blocks@[entry as int].ops@;
                let opsb = body_b.blocks@[entry as int].ops@;
                let opsc = body_c.blocks@[entry as int].ops@;
                let va = vals_after(ar, params, opsa);
                let vb = vals_after(ar, params, opsb);
                let vc = vals_after(ar, params, opsc);
                crate::ir::lemma_vals_after_len(ar, params, opsa);
                crate::ir::lemma_vals_after_len(ar, params, opsb);
                crate::ir::lemma_vals_after_len(ar, params, opsc);
                crate::ir::lemma_widths_after_len(params, opsa);
                crate::ir::lemma_widths_after_len(params, opsb);
                assert(fb.blocks@[entry as int].ops@ == opsc);
                assert(opsa.drop_last() == ops0);
                assert(vals_after(ar, params, ops0) == ar);
                vstd::arithmetic::power2::lemma_pow2_pos(info.from_nbits as nat);
                vstd::arithmetic::div_mod::lemma_small_mod(limv, pow2(info.from_nbits as nat));
                assert(va[lim as int] == limv);
                assert(opsb.drop_last() == opsa);
                assert(vb[cond as int] == (if x < pow2(info.to_nbits as nat) {
                    1nat
                } else {
                    0nat
                }));
                assert(opsc.drop_last() == opsb);
                assert(vc[trunc as int] == x % pow2(info.to_nbits as nat));
                if x < pow2(info.to_nbits as nat) {
                    vstd::arithmetic::div_mod::lemma_small_mod(x, pow2(info.to_nbits as nat));
                    assert(crate::ir::pick_vals(vc, seq![0usize, trunc]) =~= seq![rc, x]);
                } else {
                    assert(crate::ir::pick_vals(vc, seq![0usize]) =~= seq![rc]);
                }
            }
        }
        Ok(())
    }
}

/// What an upcast lowering guarantees: the single branch carries the value
/// unchanged, with exactly as many values as its signature declares.
pub open spec fn upcast_postcond(
    sig: crate::program::LibfuncSignature,
    src_width: u64,
    oldb: FuncBody,
    newb: FuncBody,
    entry: int,
    res: Result<(), Error>,
) -> bool {
    &&& res is Ok
    &&& newb.blocks@ == oldb.blocks@.update(entry, newb.blocks@[entry])
    &&& newb.blocks@[entry].term matches Some(Terminator::BranchOut { branch, args }) && branch
        == 0 && args@.len() == sig.branch_signatures@[0].vars@.len()
    &&& forall|x: nat, fuel: nat|
        x < pow2(src_width as nat) && fuel >= 1 ==> #[trigger] eval_body_from(
            newb,
            entry,
            crate::libfuncs::args1(x),
            fuel,
        ) == (Outcome::Branches { branch: 0nat, vals: seq![x] })
}

/// Generate the operations for the upcast libfunc: a zero extension, or the
/// value unchanged at equal widths.
pub fn build_upcast(
    _registry: &ProgramRegistry,
    body: &mut FuncBody,
    entry: usize,
    _metadata: &mut MetadataStorage,
    _info: &SignatureOnlyConcreteLibfunc,
    src_width: u64,
    dst_width: u64,
) -> (res: Result<(), Error>)
    requires
        src_width <= dst_width,
        _info.signature.branch_signatures@.len() == 1,
        _info.signature.branch_signatures@[0].vars@.len() == 1,
        entry < old(body).blocks@.len(),
        old(body).blocks@[entry as int].ops@.len() == 0,
        old(body).blocks@[entry as int].term is None,
        old(body).blocks@[entry as int].params@.len() == 1,
        old(body).blocks@[entry as int].params@[0] == src_width,
    ensures
        upcast_postcond(
            _info.signature,
            src_width,
            *old(body),
            *final(body),
            entry as int,
            res,
        ),
{
    let ghost params = body.blocks@[entry as int].params@;
    let r = body.push_op(entry, Op::ExtUi { v: 0, w: dst_width });
    let ghost body_a = *body;
    let mut out: Vec<usize> = Vec::new();
    out.push(r);
    proof {
        assert(out@ =~= seq![r]);
    }
    body.set_term(entry, Terminator::BranchOut { branch: 0, args: out });
    proof {
        let fb = *body;
        assert(fb.blocks@ =~= old(body).blocks@.update(entry as int, fb.blocks@[entry as int]));
        assert forall|x: nat, fuel: nat| x < pow2(src_width as nat) && fuel >= 1 implies
            #[trigger] eval_body_from(
            fb,
            entry as int,
            crate::libfuncs::args1(x),
            fuel,
        ) == (Outcome::Branches { branch: 0nat, vals: seq![x] }) by {
            let ar = crate::libfuncs::args1(x);
            assert(args_fit(ar, params));
            let ops0 = old(body).blocks@[entry as int].ops@;
            let opsa = body_a.blocks@[entry as int].ops@;
            let va = vals_after(ar, params, opsa);
            crate::ir::lemma_vals_after_len(ar, params, opsa);
            assert(fb.blocks@[entry as int].ops@ == opsa);
            assert(opsa.drop_last() == ops0);
            assert(vals_after(ar, params, ops0) == ar);
            assert(va[r as int] == x);
            assert(crate::ir::pick_vals(va, seq![r]) =~= seq![x]);
        }
    }
    Ok(())
}

/// Select and call the correct libfunc builder function from the selector.
pub fn build(
    registry: &ProgramRegistry,
    body: &mut FuncBody,
    entry: usize,
    metadata: &mut MetadataStorage,
    selector: &CastConcreteLibfunc,
    src_width: u64,
    dst_width: u64,
) -> (res: Result<(), Error>)
    requires
        match selector {
            CastConcreteLibfunc::Downcast(info) => info.to_nbits <= info.from_nbits
                && info.from_nbits <= 0xFFFF_FFFF && downcast_sig_ok(*info) && downcast_entry_ok(
                *info,
                *old(body),
                entry as int,
            ),
            CastConcreteLibfunc::Upcast(info) => src_width <= dst_width
                && info.signature.branch_signatures@.len() == 1
                && info.signature.branch_signatures@[0].vars@.len() == 1 && entry < old(
                body,
            ).blocks@.len() && old(body).blocks@[entry as int].ops@.len() == 0 && old(
                body,
            ).blocks@[entry as int].term is None && old(body).blocks@[entry as
                int].params@.len() == 1 && old(body).blocks@[entry as int].params@[0] == src_width,
        },
    ensures
        match selector {
            CastConcreteLibfunc::Downcast(info) => downcast_postcond(
                *info,
                *old(body),
                *final(body),
                entry as int,
                res,
            ),
            CastConcreteLibfunc::Upcast(info) => upcast_postcond(
                info.signature,
                src_width,
                *old(body),
                *final(body),
                entry as int,
                res,
            ),
        },
{
    match selector {
        CastConcreteLibfunc::Downcast(info) => build_downcast(
            registry,
            body,
            entry,
            metadata,
            info,
        ),
        CastConcreteLibfunc::Upcast(info) => build_upcast(
            registry,
            body,
            entry,
            metadata,
            info,
            src_width,
            dst_width,
        ),
    }
}

} // verus!
