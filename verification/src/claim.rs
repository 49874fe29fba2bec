//! The bounded-claim encoding: claim bytes are converted into a well-formed
//! key before any lookup, so the length bound is checked exactly once, ahead
//! of every other validation.

use vstd::prelude::*;

use crate::types::Error;

verus! {

/// Claim bytes whose length was checked against a registry's bound before
/// use. Only values of this type are ever used to index the registry's map,
/// which is what keeps every stored key within the bound.
pub struct BoundedClaim {
    bytes: Vec<u8>,
}

impl View for BoundedClaim {
    type V = Seq<u8>;

    closed spec fn view(&self) -> Seq<u8> {
        self.bytes@
    }
}

impl BoundedClaim {
    /// Convert raw claim bytes into a key, refusing any claim longer than
    /// `max`. This is the only constructor, so a too-long claim can never
    /// reach a lookup or a mutation.
    pub fn try_new(bytes: &Vec<u8>, max: usize) -> (r: Result<BoundedClaim, Error>)
        ensures
            bytes@.len() <= max ==> (r matches Ok(c) && c@ == bytes@),
            bytes@.len() > max ==> r == Err::<BoundedClaim, Error>(Error::ClaimTooLong),
    {
        if bytes.len() <= max {
            let copy = bytes.clone();
            proof {
                assert(copy@ =~= bytes@);
            }
            Ok(BoundedClaim { bytes: copy })
        } else {
            Err(Error::ClaimTooLong)
        }
    }

    /// The claim's bytes.
    pub fn as_bytes(&self) -> (r: &Vec<u8>)
        ensures
            r@ == self@,
    {
        &self.bytes
    }
}

} // verus!
