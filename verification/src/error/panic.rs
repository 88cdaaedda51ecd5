//! Fatal backend assertions, reported as errors instead of panics.

use vstd::prelude::*;
use vstd::string::StringExecFns;

use crate::error::Error;

verus! {

/// An assertion of the backend itself failed; this signals a bug in the
/// backend, not in the input program.
#[derive(Debug)]
pub struct NativeAssertError {
    msg: String,
}

impl NativeAssertError {
    pub fn new(msg: String) -> (r: Self)
        ensures
            r.message_spec() == msg@,
    {
        NativeAssertError { msg }
    }

    /// The text this assertion error carries.
    pub closed spec fn message_spec(&self) -> Seq<char> {
        self.msg@
    }

    pub fn message(&self) -> (r: String)
        ensures
            r@ == self.message_spec(),
    {
        String::from_str(self.msg.as_str())
    }
}

/// Turn an absent value into a backend assertion error with the given text.
pub trait ToNativeAssert<T>: Sized {
    fn to_native_assert(self, msg: &str) -> Result<T, Error>;
}

impl<T> ToNativeAssert<T> for Option<T> {
    fn to_native_assert(self, msg: &str) -> (r: Result<T, Error>)
        ensures
            match self {
                Some(v) => r matches Ok(rv) && rv == v,
                None => r matches Err(e) && e matches Error::NativeAssert(n)
                    && n.message_spec() == msg@,
            },
    {
        match self {
            Some(v) => Ok(v),
            None => Err(Error::NativeAssert(NativeAssertError::new(String::from_str(msg)))),
        }
    }
}

impl<T> ToNativeAssert<T> for Result<T, Error> {
    fn to_native_assert(self, msg: &str) -> (r: Result<T, Error>)
        ensures
            match self {
                Ok(v) => r matches Ok(rv) && rv == v,
                Err(_) => r matches Err(e) && e matches Error::NativeAssert(n)
                    && n.message_spec() == msg@,
            },
    {
        match self {
            Ok(v) => Ok(v),
            Err(_) => Err(Error::NativeAssert(NativeAssertError::new(String::from_str(msg)))),
        }
    }
}

} // verus!
