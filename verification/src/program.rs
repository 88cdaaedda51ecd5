//! The program model: concrete libfuncs with their signatures, statements,
//! functions, and the immutable registry resolving identifiers.

use vstd::prelude::*;

use crate::bignum::Signed;
use crate::error::Error;
use crate::types::ConcreteType;

verus! {

/// The output types of one branch of a libfunc, as type identifiers.
#[derive(Debug)]
pub struct BranchSignature {
    pub vars: Vec<u64>,
}

/// A libfunc's signature: parameter types and per-branch output types.
#[derive(Debug)]
pub struct LibfuncSignature {
    pub param_signatures: Vec<u64>,
    pub branch_signatures: Vec<BranchSignature>,
}

/// A libfunc described by its signature alone.
#[derive(Debug)]
pub struct SignatureOnlyConcreteLibfunc {
    pub signature: LibfuncSignature,
}

/// The sub-ranged integer division libfunc.
#[derive(Debug)]
pub struct BoundedIntDivRemConcreteLibfunc {
    pub signature: LibfuncSignature,
}

/// The sub-ranged integer constrain libfunc: branch on a boundary constant.
#[derive(Debug)]
pub struct BoundedIntConstrainConcreteLibfunc {
    pub boundary: Signed,
    pub signature: LibfuncSignature,
}

/// The trim libfunc: remove one value from either end of a type's range.
#[derive(Debug)]
pub struct BoundedIntTrimConcreteLibfunc {
    pub trimmed_value: Signed,
    pub signature: LibfuncSignature,
}

/// The sub-ranged integer libfuncs.
#[derive(Debug)]
pub enum BoundedIntConcreteLibfunc {
    Add(SignatureOnlyConcreteLibfunc),
    Sub(SignatureOnlyConcreteLibfunc),
    Mul(SignatureOnlyConcreteLibfunc),
    DivRem(BoundedIntDivRemConcreteLibfunc),
    Constrain(BoundedIntConstrainConcreteLibfunc),
    Trim(BoundedIntTrimConcreteLibfunc),
    IsZero(SignatureOnlyConcreteLibfunc),
    WrapNonZero(SignatureOnlyConcreteLibfunc),
}

/// The casting libfuncs.
#[derive(Debug)]
pub enum CastConcreteLibfunc {
    Downcast(DowncastConcreteLibfunc),
    Upcast(SignatureOnlyConcreteLibfunc),
}

/// The downcast libfunc: narrow an integer, range-checking it.
#[derive(Debug)]
pub struct DowncastConcreteLibfunc {
    pub from_ty: u64,
    pub to_ty: u64,
    pub from_nbits: u64,
    pub to_nbits: u64,
    pub signature: LibfuncSignature,
}

/// A constant of the 32-bit unsigned integer type.
#[derive(Debug)]
pub struct IntConstConcreteLibfunc {
    pub c: u32,
    pub signature: LibfuncSignature,
}

/// The overflowing operations on unsigned integers.
#[derive(Clone, Copy, Debug, PartialEq, Eq, Structural)]
pub enum IntOperator {
    OverflowingAdd,
    OverflowingSub,
}

/// An overflowing operation libfunc.
#[derive(Debug)]
pub struct UintOperationConcreteLibfunc {
    pub operator: IntOperator,
    pub signature: LibfuncSignature,
}

/// The `u32` libfuncs.
#[derive(Debug)]
pub enum Uint32Concrete {
    Const(IntConstConcreteLibfunc),
    Operation(UintOperationConcreteLibfunc),
    SquareRoot(SignatureOnlyConcreteLibfunc),
    Equal(SignatureOnlyConcreteLibfunc),
    ToFelt252(SignatureOnlyConcreteLibfunc),
    FromFelt252(SignatureOnlyConcreteLibfunc),
    IsZero(SignatureOnlyConcreteLibfunc),
    Divmod(SignatureOnlyConcreteLibfunc),
    WideMul(SignatureOnlyConcreteLibfunc),
}

/// One concrete libfunc.
#[derive(Debug)]
pub enum ConcreteLibfunc {
    BoundedInt(BoundedIntConcreteLibfunc),
    Cast(CastConcreteLibfunc),
    Uint32(Uint32Concrete),
}

/// One statement of a function: a libfunc invocation with its control-flow
/// edges, or a return.
#[derive(Debug)]
pub enum GenStatement {
    Invocation { libfunc_id: u64, args: Vec<u64>, branches: Vec<BranchInfo> },
    Return { args: Vec<u64> },
}

/// One control-flow edge of an invocation: the statement the branch jumps
/// to (`None` for fallthrough) and the variables its outputs bind.
#[derive(Debug)]
pub struct BranchInfo {
    pub target: Option<usize>,
    pub results: Vec<u64>,
}

/// One function of the program.
#[derive(Debug)]
pub struct GenFunction {
    /// Entry parameters: variable identifier and type identifier.
    pub params: Vec<(u64, u64)>,
    pub statements: Vec<GenStatement>,
}

/// The immutable program registry: type and libfunc identifiers resolve to
/// their concrete definitions, read-only for the whole compilation.
#[derive(Debug)]
pub struct ProgramRegistry {
    pub types: Vec<ConcreteType>,
    pub libfuncs: Vec<ConcreteLibfunc>,
}

impl ProgramRegistry {
    /// All registered types are well-formed.
    pub open spec fn wf(&self) -> bool {
        forall|i: int| 0 <= i < self.types@.len() ==> (#[trigger] self.types@[i]).wf()
    }

    pub fn get_type(&self, id: u64) -> (r: Result<&ConcreteType, Error>)
        ensures
            match r {
                Ok(t) => id < self.types@.len() && *t == self.types@[id as int],
                Err(e) => id >= self.types@.len() && e matches Error::ProgramRegistryError(_),
            },
    {
        if id < self.types.len() as u64 {
            Ok(&self.types[id as usize])
        } else {
            Err(Error::ProgramRegistryError(
                <String as vstd::string::StringExecFns>::from_str("type identifier not found"),
            ))
        }
    }

    pub fn get_libfunc(&self, id: u64) -> (r: Result<&ConcreteLibfunc, Error>)
        ensures
            match r {
                Ok(t) => id < self.libfuncs@.len() && *t == self.libfuncs@[id as int],
                Err(e) => id >= self.libfuncs@.len() && e matches Error::ProgramRegistryError(_),
            },
    {
        if id < self.libfuncs.len() as u64 {
            Ok(&self.libfuncs[id as usize])
        } else {
            Err(Error::ProgramRegistryError(
                <String as vstd::string::StringExecFns>::from_str("libfunc identifier not found"),
            ))
        }
    }
}

} // verus!
