//! The per-function variable environment: an edit state binding the input
//! program's variable identifiers to compiled values.
//!
//! Assignment, read-and-delete, and nothing else: reading an unbound
//! identifier or rebinding a live one signals a producer/consumer mismatch
//! in the input program.

use std::collections::HashMap;

use vstd::prelude::*;

verus! {

broadcast use vstd::std_specs::hash::group_hash_axioms;

/// Misuse of the variable environment.
#[derive(Debug, Clone, PartialEq, Eq)]
pub enum EditStateError {
    /// A variable was read (or deleted) while unbound.
    MissingReference(u64),
    /// A variable was assigned while still bound.
    VariableOverride(u64),
}

/// The variable environment of one function being lowered. `V` is whatever
/// stands for a compiled value.
pub struct VarEnv<V> {
    map: HashMap<u64, V>,
}

impl<V> VarEnv<V> {
    /// The bindings currently live.
    pub closed spec fn view(&self) -> Map<u64, V> {
        self.map@
    }

    pub fn new() -> (r: Self)
        ensures
            r@ == Map::<u64, V>::empty(),
    {
        VarEnv { map: HashMap::new() }
    }

    /// Bind a fresh variable; a live binding of the same identifier is an
    /// override error and leaves the environment unchanged.
    pub fn put(&mut self, var: u64, value: V) -> (r: Result<(), EditStateError>)
        ensures
            match r {
                Ok(()) => !old(self)@.dom().contains(var)
                    && final(self)@ == old(self)@.insert(var, value),
                Err(e) => e == EditStateError::VariableOverride(var)
                    && old(self)@.dom().contains(var)
                    && final(self)@ == old(self)@,
            },
    {
        if self.map.contains_key(&var) {
            Err(EditStateError::VariableOverride(var))
        } else {
            self.map.insert(var, value);
            Ok(())
        }
    }

    /// Read a variable and delete its binding; an unbound identifier is a
    /// missing-reference error and leaves the environment unchanged.
    pub fn take(&mut self, var: u64) -> (r: Result<V, EditStateError>)
        ensures
            match r {
                Ok(v) => old(self)@.dom().contains(var)
                    && v == old(self)@[var]
                    && final(self)@ == old(self)@.remove(var),
                Err(e) => e == EditStateError::MissingReference(var)
                    && !old(self)@.dom().contains(var)
                    && final(self)@ == old(self)@,
            },
    {
        match self.map.remove(&var) {
            Some(v) => Ok(v),
            None => Err(EditStateError::MissingReference(var)),
        }
    }

    /// Whether a variable is currently bound.
    pub fn is_bound(&self, var: u64) -> (r: bool)
        ensures
            r == self@.dom().contains(var),
    {
        self.map.contains_key(&var)
    }
}

} // verus!
