//! Ahead-of-time invocation data: the marshalled call data handed to
//! compiled code, and the decoded return buffer.

use vstd::prelude::*;

verus! {

/// The marshalled call data of a contract invocation: an array of field
/// elements, each stored as eight 32-bit limbs in little-endian order.
#[derive(Debug)]
pub struct Calldata {
    pub calldata: Vec<[u32; 8]>,
}

impl Calldata {
    pub fn new() -> (r: Calldata)
        ensures
            r.calldata@.len() == 0,
    {
        Calldata { calldata: Vec::new() }
    }

    /// Append one field element to the call data.
    pub fn push_felt(&mut self, limbs: [u32; 8])
        ensures
            final(self).calldata@ == old(self).calldata@.push(limbs),
    {
        self.calldata.push(limbs);
    }

    /// The number of field elements.
    pub fn len(&self) -> (r: usize)
        ensures
            r == self.calldata@.len(),
    {
        self.calldata.len()
    }
}

/// The tagged outcome read back from a return buffer: success carries no
/// payload; failure carries the address, length and capacity of an array
/// of field elements that the caller must read out.
#[derive(Debug, PartialEq, Eq, Structural)]
pub enum RetOutcome {
    Success,
    Failure { ptr: u64, len: u32, cap: u32 },
}

/// Decode the tagged outcome of a return buffer from its tag byte and
/// error-array descriptor words, as laid out by the calling convention.
pub fn decode_ret_outcome(tag: u8, ptr: u64, len: u32, cap: u32) -> (r: RetOutcome)
    ensures
        tag == 0 ==> r is Success,
        tag != 0 ==> r == (RetOutcome::Failure { ptr, len, cap }),
{
    if tag == 0 {
        RetOutcome::Success
    } else {
        RetOutcome::Failure { ptr, len, cap }
    }
}

} // verus!
