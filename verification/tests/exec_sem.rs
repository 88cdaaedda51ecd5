//! Value-level checks: a small interpreter over the emitted instruction
//! representation runs the lowered libfuncs on concrete inputs.

use cairo_native::bignum::Signed;
use cairo_native::invoke::InvokeArg;
use cairo_native::ir::{Block, CmpPred, FuncBody, Op, Terminator};
use cairo_native::libfuncs;
use cairo_native::metadata::MetadataStorage;
use cairo_native::program::{
    BoundedIntTrimConcreteLibfunc, BranchSignature, IntConstConcreteLibfunc, IntOperator,
    LibfuncSignature, ProgramRegistry, SignatureOnlyConcreteLibfunc, UintOperationConcreteLibfunc,
};
use cairo_native::types::ConcreteType;
use cairo_native::utils::Range;

fn sig(params: Vec<u64>, branches: Vec<Vec<u64>>) -> LibfuncSignature {
    LibfuncSignature {
        param_signatures: params,
        branch_signatures: branches
            .into_iter()
            .map(|vars| BranchSignature { vars })
            .collect(),
    }
}

fn fresh_entry(widths: Vec<u64>) -> FuncBody {
    let mut body = FuncBody::new();
    body.add_block(widths);
    body
}

fn mask(w: u64, x: u128) -> u128 {
    if w >= 128 { x } else { x % (1u128 << w) }
}

fn big_to_u128(b: &num_bigint::BigUint) -> u128 {
    u128::try_from(b).expect("constant too wide for the interpreter")
}

/// Run one block's operations and terminator; follows plain jumps within
/// the body and reports the branch taken with its values.
fn eval(body: &FuncBody, block: usize, args: Vec<u128>) -> (usize, Vec<u128>) {
    let blk: &Block = &body.blocks[block];
    assert_eq!(args.len(), blk.params.len());
    let mut vals = args;
    let mut widths: Vec<u64> = blk.params.clone();
    for op in &blk.ops {
        let (v, w) = match *op {
            Op::ConstInt { w, ref c } => (big_to_u128(c), w),
            Op::ExtUi { v, w } => (vals[v], w),
            Op::ExtSi { v, w } => {
                let wv = widths[v];
                let x = vals[v];
                let r = if wv > 0 && x >= 1u128 << (wv - 1) {
                    x + mask(w, (1u128 << (w.min(127))).wrapping_sub(1u128 << wv))
                } else {
                    x
                };
                (r, w)
            }
            Op::AddI { a, b } => (mask(widths[a], vals[a].wrapping_add(vals[b])), widths[a]),
            Op::SubI { a, b } => (mask(widths[a], vals[a].wrapping_sub(vals[b])), widths[a]),
            Op::MulI { a, b } => (mask(widths[a], vals[a].wrapping_mul(vals[b])), widths[a]),
            Op::DivUi { a, b } => (if vals[b] == 0 { 0 } else { vals[a] / vals[b] }, widths[a]),
            Op::RemUi { a, b } => (if vals[b] == 0 { 0 } else { vals[a] % vals[b] }, widths[a]),
            Op::Cmpi { pred, a, b } => {
                let holds = match pred {
                    CmpPred::Eq => vals[a] == vals[b],
                    CmpPred::Ult => vals[a] < vals[b],
                    CmpPred::Ule => vals[a] <= vals[b],
                    CmpPred::Uge => vals[a] >= vals[b],
                    _ => panic!("signed comparison not needed by these checks"),
                };
                (if holds { 1 } else { 0 }, 1)
            }
            Op::TruncI { v, w } => (mask(w, vals[v]), w),
            _ => panic!("operation not needed by these checks"),
        };
        vals.push(v);
        widths.push(w);
    }
    let pick = |ix: &Vec<usize>| ix.iter().map(|&k| vals[k]).collect::<Vec<u128>>();
    match blk.term.as_ref().expect("unterminated block") {
        Terminator::BranchOut { branch, args } => (*branch, pick(args)),
        Terminator::CondBranchOut { cond, branch_true, args_true, branch_false, args_false } => {
            if vals[*cond] != 0 {
                (*branch_true, pick(args_true))
            } else {
                (*branch_false, pick(args_false))
            }
        }
        Terminator::CondJump { cond, target_true, args_true, target_false, args_false } => {
            if vals[*cond] != 0 {
                eval(body, *target_true, pick(args_true))
            } else {
                eval(body, *target_false, pick(args_false))
            }
        }
        Terminator::Jump { target, args } => eval(body, *target, pick(args)),
        Terminator::Ret { args } => (usize::MAX, pick(args)),
    }
}

fn build_u32_operation(op: IntOperator) -> FuncBody {
    let mut body = fresh_entry(vec![64, 32, 32]);
    let registry = ProgramRegistry { types: vec![], libfuncs: vec![] };
    let info = UintOperationConcreteLibfunc {
        operator: op,
        signature: sig(vec![0, 1, 1], vec![vec![0, 1], vec![0, 1]]),
    };
    libfuncs::uint32::build_operation(&registry, &mut body, 0, &info).unwrap();
    body
}

#[test]
fn u32_overflowing_add() {
    let body = build_u32_operation(IntOperator::OverflowingAdd);
    let run = |lhs: u128, rhs: u128| eval(&body, 0, vec![0, lhs, rhs]);
    let cases: [(u128, u128); 16] = [
        (0, 0), (0, 1), (0, 4294967294), (0, 4294967295),
        (1, 0), (1, 1), (1, 4294967294), (1, 4294967295),
        (4294967294, 0), (4294967294, 1), (4294967294, 4294967294), (4294967294, 4294967295),
        (4294967295, 0), (4294967295, 1), (4294967295, 4294967294), (4294967295, 4294967295),
    ];
    for (a, b) in cases {
        let (branch, out) = run(a, b);
        let sum = a + b;
        if sum < 1 << 32 {
            assert_eq!((branch, out[1]), (0, sum));
        } else {
            assert_eq!((branch, out[1]), (1, sum - (1 << 32)));
        }
    }
}

#[test]
fn u32_overflowing_sub() {
    let body = build_u32_operation(IntOperator::OverflowingSub);
    let run = |lhs: u128, rhs: u128| eval(&body, 0, vec![0, lhs, rhs]);
    let cases: [(u128, u128); 16] = [
        (0, 0), (0, 1), (0, 4294967294), (0, 4294967295),
        (1, 0), (1, 1), (1, 4294967294), (1, 4294967295),
        (4294967294, 0), (4294967294, 1), (4294967294, 4294967294), (4294967294, 4294967295),
        (4294967295, 0), (4294967295, 1), (4294967295, 4294967294), (4294967295, 4294967295),
    ];
    for (a, b) in cases {
        let (branch, out) = run(a, b);
        if a >= b {
            assert_eq!((branch, out[1]), (0, a - b));
        } else {
            assert_eq!((branch, out[1]), (1, a + (1 << 32) - b));
        }
    }
}

#[test]
fn u32_widemul() {
    let mut body = fresh_entry(vec![32, 32]);
    let registry = ProgramRegistry { types: vec![], libfuncs: vec![] };
    let mut md = MetadataStorage::new();
    let info = SignatureOnlyConcreteLibfunc { signature: sig(vec![1, 1], vec![vec![2]]) };
    libfuncs::uint32::build_widemul(&registry, &mut body, 0, &mut md, &info).unwrap();
    for (a, b) in [(0u128, 0u128), (0, 1), (1, 0), (1, 1), (4294967295, 4294967295)] {
        let (branch, out) = eval(&body, 0, vec![a, b]);
        assert_eq!((branch, out[0]), (0, a * b));
    }
}

#[test]
fn u32_to_felt252() {
    let mut body = fresh_entry(vec![32]);
    let registry = ProgramRegistry { types: vec![], libfuncs: vec![] };
    let mut md = MetadataStorage::new();
    let info = SignatureOnlyConcreteLibfunc { signature: sig(vec![1], vec![vec![0]]) };
    libfuncs::uint32::build_to_felt252(&registry, &mut body, 0, &mut md, &info).unwrap();
    let (branch, out) = eval(&body, 0, vec![2]);
    assert_eq!((branch, out[0]), (0, 2));
}

#[test]
fn u32_from_felt252() {
    let mut body = fresh_entry(vec![64, 252]);
    let registry = ProgramRegistry { types: vec![], libfuncs: vec![] };
    let mut md = MetadataStorage::new();
    let info = SignatureOnlyConcreteLibfunc { signature: sig(vec![0, 2], vec![vec![0, 1], vec![0]]) };
    libfuncs::uint32::build_from_felt252(&registry, &mut body, 0, &mut md, &info).unwrap();
    let (branch, out) = eval(&body, 0, vec![0, 4294967295]);
    assert_eq!((branch, out[1]), (0, 4294967295));
    let (branch, _) = eval(&body, 0, vec![0, 4294967296]);
    assert_eq!(branch, 1);
}

#[test]
fn u32_safe_divmod_values() {
    let mut body = fresh_entry(vec![64, 32, 32]);
    let registry = ProgramRegistry { types: vec![], libfuncs: vec![] };
    let info = SignatureOnlyConcreteLibfunc { signature: sig(vec![0, 1, 1], vec![vec![0, 1, 1]]) };
    libfuncs::uint32::build_divmod(&registry, &mut body, 0, &info).unwrap();
    for (a, b) in [
        (0u128, 1u128), (0, 0xFFFFFFFF), (1, 1), (1, 0xFFFFFFFF),
        (0xFFFFFFFF, 1), (0xFFFFFFFF, 0xFFFFFFFF),
    ] {
        let (branch, out) = eval(&body, 0, vec![0, a, b]);
        assert_eq!((branch, out[1], out[2]), (0, a / b, a % b));
    }
}

fn build_trim_body(src: ConcreteType, width: u64, trimmed: i128) -> FuncBody {
    let registry = ProgramRegistry { types: vec![src], libfuncs: vec![] };
    let mut md = MetadataStorage::new();
    let mut body = fresh_entry(vec![width]);
    let info = BoundedIntTrimConcreteLibfunc {
        trimmed_value: Signed::from_i128(trimmed),
        signature: sig(vec![0], vec![vec![], vec![0]]),
    };
    libfuncs::bounded_int::build_trim(&registry, &mut body, 0, &mut md, &info).unwrap();
    body
}

#[test]
fn test_trim_some_pos_i8() {
    // Trimming 0x7f from i8: the value 1 is kept, re-offset into
    // BoundedInt<-128, 126>, whose offset representation of 1 is 129.
    let body = build_trim_body(ConcreteType::Sint8, 8, 0x7f);
    let (branch, out) = eval(&body, 0, vec![1]);
    assert_eq!(branch, 1);
    assert_eq!(out[0], mask(8, 1u128.wrapping_sub(0x80)));
}

#[test]
fn test_trim_some_neg_i8() {
    // Trimming -0x80 from i8: the value 1 is kept, re-offset into
    // BoundedInt<-127, 127>, whose offset representation of 1 is 128.
    let body = build_trim_body(ConcreteType::Sint8, 8, -0x80);
    let (branch, out) = eval(&body, 0, vec![1]);
    assert_eq!(branch, 1);
    assert_eq!(out[0], 128);
}

#[test]
fn trim_values_u32() {
    // Trimming the largest u32: values pass through unchanged; the trimmed
    // value itself takes the invalid branch.
    let body = build_trim_body(ConcreteType::Uint32, 32, 4294967295);
    let (branch, out) = eval(&body, 0, vec![0xfffffffe]);
    assert_eq!((branch, out[0]), (1, 0xfffffffe));
    let (branch, out) = eval(&body, 0, vec![0xffffffff]);
    assert_eq!(branch, 0);
    assert!(out.is_empty());
}

#[test]
fn bounded_add_end_to_end_values() {
    // A two-parameter sub-ranged sum: (1, 1) over [0,2^8) into [0,2^8)
    // yields 2; (255, 255) into [0,2^9) yields 510.
    let mk = |dst_upper: i128, dst_width: u64| {
        let types = vec![
            ConcreteType::BoundedInt {
                range: Range { lower: Signed::from_i128(0), upper: Signed::from_i128(256) },
            },
            ConcreteType::BoundedInt {
                range: Range { lower: Signed::from_i128(0), upper: Signed::from_i128(dst_upper) },
            },
        ];
        let registry = ProgramRegistry { types, libfuncs: vec![] };
        let mut md = MetadataStorage::new();
        let mut body = fresh_entry(vec![8, 8]);
        let info = SignatureOnlyConcreteLibfunc { signature: sig(vec![0, 0], vec![vec![1]]) };
        libfuncs::bounded_int::build_add(&registry, &mut body, 0, &mut md, &info).unwrap();
        let _ = dst_width;
        body
    };
    let body = mk(256, 8);
    let (branch, out) = eval(&body, 0, vec![1, 1]);
    assert_eq!((branch, out[0]), (0, 2));
    let body = mk(512, 9);
    let (branch, out) = eval(&body, 0, vec![255, 255]);
    assert_eq!((branch, out[0]), (0, 510));
}

#[test]
fn constrain_values() {
    // Constrain [0,512) at 256: values below go to branch 0 unchanged,
    // values at or above go to branch 1 re-offset by the boundary.
    let types = vec![
        ConcreteType::BoundedInt {
            range: Range { lower: Signed::from_i128(0), upper: Signed::from_i128(512) },
        },
        ConcreteType::RangeCheck,
        ConcreteType::BoundedInt {
            range: Range { lower: Signed::from_i128(0), upper: Signed::from_i128(256) },
        },
        ConcreteType::BoundedInt {
            range: Range { lower: Signed::from_i128(256), upper: Signed::from_i128(512) },
        },
    ];
    let registry = ProgramRegistry { types, libfuncs: vec![] };
    let mut md = MetadataStorage::new();
    let mut body = fresh_entry(vec![64, 9]);
    let info = cairo_native::program::BoundedIntConstrainConcreteLibfunc {
        boundary: Signed::from_i128(256),
        signature: sig(vec![1, 0], vec![vec![1, 2], vec![1, 3]]),
    };
    libfuncs::bounded_int::build_constrain(&registry, &mut body, 0, &mut md, &info).unwrap();
    let (branch, out) = eval(&body, 0, vec![7, 100]);
    assert_eq!((branch, out[0], out[1]), (0, 8, 100));
    let (branch, out) = eval(&body, 0, vec![7, 300]);
    assert_eq!((branch, out[0], out[1]), (1, 8, 44));
}

#[test]
fn bounded_divrem_values() {
    // 300 divided by 7 in [0,512) ranges: quotient 42, remainder 6, and
    // the range-check token advanced once.
    let types = vec![
        ConcreteType::BoundedInt {
            range: Range { lower: Signed::from_i128(0), upper: Signed::from_i128(512) },
        },
        ConcreteType::BoundedInt {
            range: Range { lower: Signed::from_i128(1), upper: Signed::from_i128(512) },
        },
    ];
    let registry = ProgramRegistry { types, libfuncs: vec![] };
    let mut md = MetadataStorage::new();
    let mut body = fresh_entry(vec![64, 9, 9]);
    let info = cairo_native::program::BoundedIntDivRemConcreteLibfunc {
        signature: sig(vec![0, 0, 1], vec![vec![0, 0, 0]]),
    };
    libfuncs::bounded_int::build_divrem(&registry, &mut body, 0, &mut md, &info).unwrap();
    // The divisor's offset representation of 7 in [1,512) is 6.
    let (branch, out) = eval(&body, 0, vec![3, 300, 6]);
    assert_eq!((branch, out[0], out[1], out[2]), (0, 4, 42, 6));
}

#[test]
fn native_round_trip_values() {
    // Marshalling a struct of a felt and two integers and reading it back
    // gives the same value.
    let ty = ConcreteType::Struct {
        members: vec![ConcreteType::Uint8, ConcreteType::Uint32, ConcreteType::Felt252],
    };
    let v = InvokeArg::Struct(vec![
        InvokeArg::Uint8(7),
        InvokeArg::Uint32(0xDEADBEEF),
        InvokeArg::Felt252([1, 2, 3, 4, 5, 6, 7, 8]),
    ]);
    let bytes = v.to_jit(&ty).unwrap();
    // One byte, three bytes of padding, four bytes, then the felt at its
    // 8-byte alignment.
    assert_eq!(bytes.len(), 40);
    let back = cairo_native::invoke::from_jit(&bytes, &ty).unwrap();
    match back {
        InvokeArg::Struct(ms) => {
            assert!(matches!(ms[0], InvokeArg::Uint8(7)));
            assert!(matches!(ms[1], InvokeArg::Uint32(0xDEADBEEF)));
            assert!(matches!(ms[2], InvokeArg::Felt252(l) if l == [1, 2, 3, 4, 5, 6, 7, 8]));
        }
        other => panic!("unexpected value: {other:?}"),
    }
}

#[test]
fn from_native_rejects_wrong_size() {
    let bytes: Vec<u8> = vec![1, 2, 3];
    assert!(cairo_native::invoke::from_jit(&bytes, &ConcreteType::Uint32).is_err());
    let v = InvokeArg::Array(vec![]);
    assert!(v.to_jit(&ConcreteType::Uint32).is_err());
}

#[test]
fn u32_const_values() {
    let mut body = fresh_entry(vec![]);
    let registry = ProgramRegistry { types: vec![], libfuncs: vec![] };
    let mut md = MetadataStorage::new();
    let info = IntConstConcreteLibfunc { c: 1234, signature: sig(vec![], vec![vec![1]]) };
    libfuncs::uint32::build_const(&registry, &mut body, 0, &mut md, &info).unwrap();
    let (branch, out) = eval(&body, 0, vec![]);
    assert_eq!((branch, out[0]), (0, 1234));
}

#[test]
fn downcast_values() {
    let registry = ProgramRegistry { types: vec![], libfuncs: vec![] };
    let mut md = MetadataStorage::new();
    let mut body = fresh_entry(vec![64, 64]);
    let info = cairo_native::program::DowncastConcreteLibfunc {
        from_ty: 0,
        to_ty: 1,
        from_nbits: 64,
        to_nbits: 32,
        signature: sig(vec![0, 1], vec![vec![0, 2], vec![0]]),
    };
    libfuncs::cast::build_downcast(&registry, &mut body, 0, &mut md, &info).unwrap();
    let (branch, out) = eval(&body, 0, vec![9, 0xFFFFFFFF]);
    assert_eq!((branch, out[1]), (0, 0xFFFFFFFF));
    let (branch, _) = eval(&body, 0, vec![9, 0x1_0000_0000]);
    assert_eq!(branch, 1);
}
