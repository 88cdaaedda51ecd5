use cairo_native::aot::{decode_ret_outcome, Calldata, RetOutcome};
use cairo_native::bignum::Signed;
use cairo_native::edit_state::{EditStateError, VarEnv};
use cairo_native::error::Error;
use cairo_native::ids::ConcreteTypeId;
use cairo_native::ir::{FuncBody, Op, Terminator};
use cairo_native::libfuncs;
use cairo_native::metadata::{Metadata, MetadataKind, MetadataStorage};
use cairo_native::program::{
    BoundedIntConcreteLibfunc, BoundedIntTrimConcreteLibfunc, BranchSignature,
    DowncastConcreteLibfunc, IntConstConcreteLibfunc, LibfuncSignature, ProgramRegistry,
    SignatureOnlyConcreteLibfunc, Uint32Concrete,
};
use cairo_native::types::{ConcreteType, Layout};
use cairo_native::utils::Range;
use num_bigint::BigUint;

fn signed(v: i128) -> Signed {
    Signed::from_i128(v)
}

fn range(l: i128, u: i128) -> Range {
    Range { lower: signed(l), upper: signed(u) }
}

fn sig(params: Vec<u64>, branches: Vec<Vec<u64>>) -> LibfuncSignature {
    LibfuncSignature {
        param_signatures: params,
        branch_signatures: branches
            .into_iter()
            .map(|vars| BranchSignature { vars })
            .collect(),
    }
}

fn fresh_entry(widths: Vec<u64>) -> FuncBody {
    let mut body = FuncBody::new();
    body.add_block(widths);
    body
}

#[test]
fn test_make_missing_parameter() {
    let ty_with_debug_name = ConcreteTypeId { debug_name: Some("u32".to_string()), id: 10 };
    assert_eq!(
        Error::make_missing_parameter(&ty_with_debug_name).message(),
        "missing parameter of type 'u32'"
    );
    let ty_without_debug_name = ConcreteTypeId { debug_name: None, id: 10 };
    assert_eq!(
        Error::make_missing_parameter(&ty_without_debug_name).message(),
        "missing parameter of type ''"
    );
}

#[test]
fn metadata_single_instance_per_kind() {
    let mut store = MetadataStorage::new();
    assert!(store.get(MetadataKind::GasCost).is_none());
    assert!(store.insert(Metadata::GasCost { cost: 5 }));
    assert!(!store.insert(Metadata::GasCost { cost: 7 }));
    match store.get(MetadataKind::GasCost) {
        Some(Metadata::GasCost { cost }) => assert_eq!(*cost, 7),
        _ => panic!("missing gas cost entry"),
    }
}

#[test]
fn variable_environment_is_an_edit_state() {
    let mut env: VarEnv<u64> = VarEnv::new();
    assert!(env.put(3, 77).is_ok());
    assert_eq!(env.put(3, 78), Err(EditStateError::VariableOverride(3)));
    assert_eq!(env.take(3), Ok(77));
    assert_eq!(env.take(3), Err(EditStateError::MissingReference(3)));
}

#[test]
fn layout_extension_is_sequential() {
    let l = Layout::empty();
    let (l, off0) = l.extend(Layout { size: 1, align: 1 }).unwrap();
    assert_eq!(off0, 0);
    let (l, off1) = l.extend(Layout { size: 4, align: 4 }).unwrap();
    assert_eq!(off1, 4);
    assert_eq!(l.size, 8);
    assert_eq!(l.align, 4);
}

#[test]
fn u32_range_and_width() {
    let ty = ConcreteType::Uint32;
    let r = ty.integer_range().unwrap();
    assert!(!r.lower.neg);
    assert_eq!(r.upper.mag, BigUint::from(1u128 << 32));
    assert_eq!(ty.integer_width(), Some(32));
    assert!(!ty.is_bounded_int());
    assert_eq!(ty.is_integer_signed(), Some(false));
}

#[test]
fn u32_const_min() {
    let mut body = fresh_entry(vec![]);
    let mut md = MetadataStorage::new();
    let registry = ProgramRegistry { types: vec![], libfuncs: vec![] };
    let info = IntConstConcreteLibfunc { c: 0, signature: sig(vec![], vec![vec![0]]) };
    libfuncs::uint32::build_const(&registry, &mut body, 0, &mut md, &info).unwrap();
    assert!(matches!(
        body.blocks[0].ops[0],
        Op::ConstInt { w: 32, ref c } if *c == BigUint::from(0u32)
    ));
}

#[test]
fn u32_const_max() {
    let mut body = fresh_entry(vec![]);
    let mut md = MetadataStorage::new();
    let registry = ProgramRegistry { types: vec![], libfuncs: vec![] };
    let info = IntConstConcreteLibfunc { c: 4294967295, signature: sig(vec![], vec![vec![0]]) };
    libfuncs::uint32::build_const(&registry, &mut body, 0, &mut md, &info).unwrap();
    assert!(matches!(
        body.blocks[0].ops[0],
        Op::ConstInt { w: 32, ref c } if *c == BigUint::from(4294967295u32)
    ));
}

#[test]
fn u32_safe_divmod() {
    let mut body = fresh_entry(vec![64, 32, 32]);
    let registry = ProgramRegistry { types: vec![], libfuncs: vec![] };
    let info = SignatureOnlyConcreteLibfunc {
        signature: sig(vec![0, 1, 1], vec![vec![0, 1, 1]]),
    };
    libfuncs::uint32::build_divmod(&registry, &mut body, 0, &info).unwrap();
    assert!(matches!(body.blocks[0].ops[0], Op::DivUi { a: 1, b: 2 }));
    assert!(matches!(body.blocks[0].ops[1], Op::RemUi { a: 1, b: 2 }));
    match &body.blocks[0].term {
        Some(Terminator::BranchOut { branch: 0, args }) => assert_eq!(args.len(), 3),
        other => panic!("unexpected terminator: {other:?}"),
    }
}

#[test]
fn u32_equal() {
    let mut body = fresh_entry(vec![32, 32]);
    let registry = ProgramRegistry { types: vec![], libfuncs: vec![] };
    let info = SignatureOnlyConcreteLibfunc { signature: sig(vec![1, 1], vec![vec![], vec![]]) };
    libfuncs::uint32::build_equal(&registry, &mut body, 0, &info).unwrap();
    assert!(matches!(
        body.blocks[0].ops[0],
        Op::Cmpi { pred: cairo_native::ir::CmpPred::Eq, a: 0, b: 1 }
    ));
}

#[test]
fn u32_is_zero() {
    let mut body = fresh_entry(vec![32]);
    let registry = ProgramRegistry { types: vec![], libfuncs: vec![] };
    let info = SignatureOnlyConcreteLibfunc { signature: sig(vec![1], vec![vec![], vec![1]]) };
    libfuncs::uint32::build_is_zero(&registry, &mut body, 0, &info).unwrap();
    match &body.blocks[0].term {
        Some(Terminator::CondBranchOut { branch_true: 0, branch_false: 1, args_false, .. }) => {
            assert_eq!(args_false.len(), 1)
        },
        other => panic!("unexpected terminator: {other:?}"),
    }
}

#[test]
fn u32_sqrt_is_unsupported() {
    let mut body = fresh_entry(vec![64, 32]);
    let mut md = MetadataStorage::new();
    let registry = ProgramRegistry { types: vec![], libfuncs: vec![] };
    let info = SignatureOnlyConcreteLibfunc { signature: sig(vec![0, 1], vec![vec![0, 1]]) };
    let res = libfuncs::uint32::build(
        &registry,
        &mut body,
        0,
        &mut md,
        &Uint32Concrete::SquareRoot(info),
    );
    assert!(res.is_err());
}

#[test]
fn downcast() {
    let mut body = fresh_entry(vec![64, 64]);
    let mut md = MetadataStorage::new();
    let registry = ProgramRegistry { types: vec![], libfuncs: vec![] };
    let info = DowncastConcreteLibfunc {
        from_ty: 0,
        to_ty: 1,
        from_nbits: 64,
        to_nbits: 32,
        signature: sig(vec![0, 1], vec![vec![0, 2], vec![0]]),
    };
    libfuncs::cast::build_downcast(&registry, &mut body, 0, &mut md, &info).unwrap();
    assert!(matches!(
        body.blocks[0].ops[0],
        Op::ConstInt { w: 64, ref c } if *c == BigUint::from(1u128 << 32)
    ));
    assert!(matches!(body.blocks[0].ops[2], Op::TruncI { v: 1, w: 32 }));
}

#[test]
fn upcast() {
    let mut body = fresh_entry(vec![8]);
    let mut md = MetadataStorage::new();
    let registry = ProgramRegistry { types: vec![], libfuncs: vec![] };
    let info = SignatureOnlyConcreteLibfunc { signature: sig(vec![0], vec![vec![1]]) };
    libfuncs::cast::build_upcast(&registry, &mut body, 0, &mut md, &info, 8, 64).unwrap();
    assert!(matches!(body.blocks[0].ops[0], Op::ExtUi { v: 0, w: 64 }));
}

#[test]
fn bounded_int_add_emits_success_branch() {
    // Two 8-bit sub-ranged operands into a 9-bit destination.
    let types = vec![
        ConcreteType::BoundedInt { range: range(0, 256) },
        ConcreteType::BoundedInt { range: range(0, 512) },
    ];
    let registry = ProgramRegistry { types, libfuncs: vec![] };
    let mut md = MetadataStorage::new();
    let mut body = fresh_entry(vec![8, 8]);
    let info = SignatureOnlyConcreteLibfunc { signature: sig(vec![0, 0], vec![vec![1]]) };
    libfuncs::bounded_int::build_add(&registry, &mut body, 0, &mut md, &info).unwrap();
    match &body.blocks[0].term {
        Some(Terminator::BranchOut { branch: 0, args }) => assert_eq!(args.len(), 1),
        other => panic!("unexpected terminator: {other:?}"),
    }
    assert!(body.blocks[0].ops.iter().any(|op| matches!(op, Op::AddI { .. })));
}

#[test]
fn test_trim_some_u32() {
    // Trimming the largest value from u32.
    let types = vec![ConcreteType::Uint32];
    let registry = ProgramRegistry { types, libfuncs: vec![] };
    let mut md = MetadataStorage::new();
    let mut body = fresh_entry(vec![32]);
    let info = BoundedIntTrimConcreteLibfunc {
        trimmed_value: Signed::from_i128(4294967295),
        signature: sig(vec![0], vec![vec![], vec![0]]),
    };
    libfuncs::bounded_int::build_trim(&registry, &mut body, 0, &mut md, &info).unwrap();
    // Trimming the top value needs no re-offsetting: only the constant and
    // the comparison are emitted.
    assert_eq!(body.blocks[0].ops.len(), 2);
    assert!(matches!(
        body.blocks[0].term,
        Some(Terminator::CondBranchOut { branch_true: 0, branch_false: 1, .. })
    ));
}

#[test]
fn test_trim_none() {
    // Trimming the smallest value of a signed type re-offsets the result.
    let types = vec![ConcreteType::Sint16];
    let registry = ProgramRegistry { types, libfuncs: vec![] };
    let mut md = MetadataStorage::new();
    let mut body = fresh_entry(vec![16]);
    let info = BoundedIntTrimConcreteLibfunc {
        trimmed_value: Signed::from_i128(-32768),
        signature: sig(vec![0], vec![vec![], vec![0]]),
    };
    libfuncs::bounded_int::build_trim(&registry, &mut body, 0, &mut md, &info).unwrap();
    assert_eq!(body.blocks[0].ops.len(), 4);
    assert!(body.blocks[0].ops.iter().any(|op| matches!(op, Op::SubI { .. })));
}

#[test]
fn bounded_int_constrain_adds_two_blocks() {
    let types = vec![
        ConcreteType::BoundedInt { range: range(0, 512) },
        ConcreteType::RangeCheck,
        ConcreteType::BoundedInt { range: range(0, 256) },
        ConcreteType::BoundedInt { range: range(256, 512) },
    ];
    let registry = ProgramRegistry { types, libfuncs: vec![] };
    let mut md = MetadataStorage::new();
    let mut body = fresh_entry(vec![64, 9]);
    let info = cairo_native::program::BoundedIntConstrainConcreteLibfunc {
        boundary: Signed::from_i128(256),
        signature: sig(vec![1, 0], vec![vec![1, 2], vec![1, 3]]),
    };
    libfuncs::bounded_int::build_constrain(&registry, &mut body, 0, &mut md, &info).unwrap();
    assert_eq!(body.blocks.len(), 3);
    assert!(matches!(
        body.blocks[0].term,
        Some(Terminator::CondJump { target_true: 1, target_false: 2, .. })
    ));
}

#[test]
fn bounded_int_is_zero_rejects_nonzero_range() {
    let types = vec![ConcreteType::BoundedInt { range: range(1, 256) }];
    let registry = ProgramRegistry { types, libfuncs: vec![] };
    let mut md = MetadataStorage::new();
    let mut body = fresh_entry(vec![8]);
    let info = SignatureOnlyConcreteLibfunc { signature: sig(vec![0], vec![vec![], vec![0]]) };
    let res = libfuncs::bounded_int::build(
        &registry,
        &mut body,
        0,
        &mut md,
        &BoundedIntConcreteLibfunc::IsZero(info),
    );
    assert!(res.is_err());
}

#[test]
fn registry_lookup_errors_name_the_registry() {
    let registry = ProgramRegistry { types: vec![], libfuncs: vec![] };
    match registry.get_type(0) {
        Err(e) => assert!(e.message().starts_with("program registry error")),
        Ok(_) => panic!("lookup should fail on an empty registry"),
    }
}

#[test]
fn calldata_and_return_outcome() {
    let mut cd = Calldata::new();
    cd.push_felt([1, 0, 0, 0, 0, 0, 0, 0]);
    assert_eq!(cd.len(), 1);
    assert_eq!(decode_ret_outcome(0, 0, 0, 0), RetOutcome::Success);
    assert_eq!(
        decode_ret_outcome(1, 64, 2, 2),
        RetOutcome::Failure { ptr: 64, len: 2, cap: 2 }
    );
}
