//! Compiler errors: failures wrapped with the type or libfunc being built.

use vstd::prelude::*;
use vstd::string::StringExecFns;

use crate::edit_state::EditStateError;
use crate::ids::{ConcreteLibfuncId, ConcreteTypeId};

verus! {

/// The error a type or libfunc builder reports.
pub type BuilderError = crate::error::Error;

/// Wrapper for the error type of a whole-program compilation.
#[derive(Debug)]
pub struct Error {
    /// The actual error.
    pub source: ErrorImpl,
}

impl Error {
    pub open spec fn message_spec(&self) -> Seq<char> {
        self.source.message_spec()
    }

    pub fn message(&self) -> (r: String)
        ensures
            r@ == self.message_spec(),
    {
        self.source.message()
    }
}

/// A compilation error.
#[derive(Debug)]
pub enum ErrorImpl {
    /// Failed to edit the variable state. This should mean an invalid
    /// program has been handed to the compiler.
    EditStateError(EditStateError),
    /// The program registry has no entry for an identifier. This should mean
    /// an invalid program has been handed to the compiler.
    ProgramRegistryError(String),
    /// A type builder error, named after the type which caused it.
    TypeBuilderError { type_id: ConcreteTypeId, error: BuilderError },
    /// A libfunc builder error, named after the libfunc which caused it.
    LibfuncBuilderError { type_id: ConcreteLibfuncId, error: BuilderError },
}

impl ErrorImpl {
    pub open spec fn message_spec(&self) -> Seq<char> {
        match self {
            ErrorImpl::EditStateError(e) => e.message_spec(),
            ErrorImpl::ProgramRegistryError(s) => "program registry error: "@ + s@,
            ErrorImpl::TypeBuilderError { error, .. } => "error building type: "@
                + error.message_spec(),
            ErrorImpl::LibfuncBuilderError { error, .. } => "error building libfunc: "@
                + error.message_spec(),
        }
    }

    pub fn message(&self) -> (r: String)
        ensures
            r@ == self.message_spec(),
    {
        match self {
            ErrorImpl::EditStateError(e) => e.message(),
            ErrorImpl::ProgramRegistryError(s) => {
                let mut m = String::from_str("program registry error: ");
                m.append(s.as_str());
                m
            },
            ErrorImpl::TypeBuilderError { error, .. } => {
                let mut m = String::from_str("error building type: ");
                let tail = error.message();
                m.append(tail.as_str());
                m
            },
            ErrorImpl::LibfuncBuilderError { error, .. } => {
                let mut m = String::from_str("error building libfunc: ");
                let tail = error.message();
                m.append(tail.as_str());
                m
            },
        }
    }
}

/// Wrap a builder error with the type that caused it.
pub fn make_type_builder_error(id: &ConcreteTypeId, source: BuilderError) -> (r: Error)
    ensures
        r.source matches ErrorImpl::TypeBuilderError { type_id, error } && type_id.id == id.id
            && error == source,
{
    Error {
        source: ErrorImpl::TypeBuilderError {
            type_id: ConcreteTypeId {
                id: id.id,
                debug_name: match &id.debug_name {
                    Some(n) => Some(String::from_str(n.as_str())),
                    None => None,
                },
            },
            error: source,
        },
    }
}

/// Wrap a builder error with the libfunc that caused it.
pub fn make_libfunc_builder_error(id: &ConcreteLibfuncId, source: BuilderError) -> (r: Error)
    ensures
        r.source matches ErrorImpl::LibfuncBuilderError { type_id, error } && type_id.id == id.id
            && error == source,
{
    Error {
        source: ErrorImpl::LibfuncBuilderError {
            type_id: ConcreteLibfuncId {
                id: id.id,
                debug_name: match &id.debug_name {
                    Some(n) => Some(String::from_str(n.as_str())),
                    None => None,
                },
            },
            error: source,
        },
    }
}

} // verus!
