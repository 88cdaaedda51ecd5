//! Code-generation engine for a stack-based, typed intermediate representation.
//!
//! The library lowers programs made of concrete types and concrete library
//! functions ("libfuncs") into a low-level, typed instruction representation
//! ready for a machine-code pipeline, and marshals structured host values to
//! and from the exact in-memory representation the generated code expects.

pub mod bignum;
pub mod edit_state;
pub mod error;
pub mod ids;
pub mod invoke;
pub mod ir;
pub mod libfuncs;
pub mod metadata;
pub mod aot;
pub mod program;
pub mod types;
pub mod utils;

use vstd::prelude::*;

verus! {

} // verus!
