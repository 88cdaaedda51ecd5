//! Identifiers of the concrete types and libfuncs of a program.

use vstd::prelude::*;

verus! {

/// Identifier of a concrete type in the program registry.
#[derive(Clone, Debug)]
pub struct ConcreteTypeId {
    pub id: u64,
    pub debug_name: Option<String>,
}

/// Identifier of a concrete libfunc in the program registry.
#[derive(Clone, Debug)]
pub struct ConcreteLibfuncId {
    pub id: u64,
    pub debug_name: Option<String>,
}

} // verus!
