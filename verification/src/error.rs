//! Error types used throughout the crate.

pub mod compile;
pub mod panic;

use vstd::prelude::*;
use vstd::string::StringExecFns;

use crate::bignum::Signed;
use crate::edit_state::EditStateError;
use crate::ids::ConcreteTypeId;
use crate::utils::Range;
use panic::NativeAssertError;

verus! {

/// A fatal compilation error.
#[derive(Debug)]
pub enum Error {
    LayoutError,
    MissingParameter(String),
    UnexpectedValue(String),
    MissingSyscallHandler,
    ProgramRegistryError(String),
    ParseAttributeError,
    MissingMetadata,
    SierraAssert(SierraAssertError),
    NativeAssert(NativeAssertError),
    Compiler(CompilerError),
    EditStateError(EditStateError),
    ConstDataMismatch,
    IntegerLikeTypeExpected,
    IntegerConversion,
}

impl Error {
    pub fn make_missing_parameter(ty: &ConcreteTypeId) -> (r: Self)
        ensures
            r matches Error::MissingParameter(s) && s@ == match ty.debug_name {
                Some(n) => n@,
                None => Seq::<char>::empty(),
            },
    {
        Error::MissingParameter(
            match &ty.debug_name {
                Some(n) => String::from_str(n.as_str()),
                None => String::new(),
            },
        )
    }

    /// The user-visible text of this error.
    pub open spec fn message_spec(&self) -> Seq<char> {
        match self {
            Error::LayoutError => "layout error"@,
            Error::MissingParameter(s) => "missing parameter of type '"@ + s@ + "'"@,
            Error::UnexpectedValue(s) => "unexpected value, expected value of type '"@ + s@
                + "'"@,
            Error::MissingSyscallHandler => "a syscall handler was expected but was not provided"@,
            Error::ProgramRegistryError(s) => "program registry error: "@ + s@,
            Error::ParseAttributeError => "error parsing attribute"@,
            Error::MissingMetadata => "missing metadata"@,
            Error::SierraAssert(e) => e.message_spec(),
            Error::NativeAssert(e) => e.message_spec(),
            Error::Compiler(e) => e.message_spec(),
            Error::EditStateError(e) => e.message_spec(),
            Error::ConstDataMismatch => "cairo const data mismatch"@,
            Error::IntegerLikeTypeExpected => "expected an integer-like type"@,
            Error::IntegerConversion => "integer conversion failed"@,
        }
    }

    pub fn message(&self) -> (r: String)
        ensures
            r@ == self.message_spec(),
    {
        match self {
            Error::LayoutError => String::from_str("layout error"),
            Error::MissingParameter(s) => {
                let mut m = String::from_str("missing parameter of type '");
                m.append(s.as_str());
                m.append("'");
                m
            },
            Error::UnexpectedValue(s) => {
                let mut m = String::from_str("unexpected value, expected value of type '");
                m.append(s.as_str());
                m.append("'");
                m
            },
            Error::MissingSyscallHandler => String::from_str(
                "a syscall handler was expected but was not provided",
            ),
            Error::ProgramRegistryError(s) => {
                let mut m = String::from_str("program registry error: ");
                m.append(s.as_str());
                m
            },
            Error::ParseAttributeError => String::from_str("error parsing attribute"),
            Error::MissingMetadata => String::from_str("missing metadata"),
            Error::SierraAssert(e) => e.message(),
            Error::NativeAssert(e) => e.message(),
            Error::Compiler(e) => e.message(),
            Error::EditStateError(e) => e.message(),
            Error::ConstDataMismatch => String::from_str("cairo const data mismatch"),
            Error::IntegerLikeTypeExpected => String::from_str("expected an integer-like type"),
            Error::IntegerConversion => String::from_str("integer conversion failed"),
        }
    }
}

/// A contract of the input program itself was broken: the program is
/// malformed, not the backend.
#[derive(Debug)]
pub enum SierraAssertError {
    Cast,
    Range { ranges: Box<(Range, Range)> },
    BadTypeInit(ConcreteTypeId),
    BadTypeInfo,
    ImpossibleCircuit,
}

impl SierraAssertError {
    pub open spec fn message_spec(&self) -> Seq<char> {
        match self {
            SierraAssertError::Cast => "casts always happen between numerical types"@,
            SierraAssertError::Range { .. } => "range should always intersect"@,
            SierraAssertError::BadTypeInit(_) => "type should never be initialized"@,
            SierraAssertError::BadTypeInfo => "expected type information was missing"@,
            SierraAssertError::ImpossibleCircuit => "circuit cannot be evaluated"@,
        }
    }

    pub fn message(&self) -> (r: String)
        ensures
            r@ == self.message_spec(),
    {
        match self {
            SierraAssertError::Cast => String::from_str(
                "casts always happen between numerical types",
            ),
            SierraAssertError::Range { .. } => String::from_str("range should always intersect"),
            SierraAssertError::BadTypeInit(_) => String::from_str(
                "type should never be initialized",
            ),
            SierraAssertError::BadTypeInfo => String::from_str(
                "expected type information was missing",
            ),
            SierraAssertError::ImpossibleCircuit => String::from_str("circuit cannot be evaluated"),
        }
    }
}

/// A value did not fit the range its type declares.
#[derive(Debug)]
pub enum CompilerError {
    BoundedIntOutOfRange { value: Box<Signed>, range: Box<(Signed, Signed)> },
}

impl CompilerError {
    pub open spec fn message_spec(&self) -> Seq<char> {
        "BoundedInt value is out of range"@
    }

    pub fn message(&self) -> (r: String)
        ensures
            r@ == self.message_spec(),
    {
        String::from_str("BoundedInt value is out of range")
    }
}

impl EditStateError {
    pub open spec fn message_spec(&self) -> Seq<char> {
        match self {
            EditStateError::MissingReference(_) => "missing reference to a variable"@,
            EditStateError::VariableOverride(_) => "overridden variable"@,
        }
    }

    pub fn message(&self) -> (r: String)
        ensures
            r@ == self.message_spec(),
    {
        match self {
            EditStateError::MissingReference(_) => String::from_str(
                "missing reference to a variable",
            ),
            EditStateError::VariableOverride(_) => String::from_str("overridden variable"),
        }
    }
}

} // verus!
