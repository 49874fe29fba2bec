//! The plain values the registry works on: identities, logical time,
//! registrations, and the closed sets of errors and notifications.

use vstd::prelude::*;

verus! {

/// An authenticated caller, exactly as the dispatcher hands it in. The
/// registry never authenticates anyone itself; it only compares identities.
pub type Identity = u64;

/// A monotonically non-decreasing counter supplied by the dispatcher (a
/// block height, for instance). The registry only reads it, never advances it.
pub type LogicalTime = u64;

/// What the registry stores for one claim: who registered it, and the
/// logical time at which that registration (or the latest transfer) happened.
#[derive(Clone, Copy, Debug, PartialEq, Eq, Structural)]
pub struct Registration {
    pub owner: Identity,
    pub registered_at: LogicalTime,
}

/// Why an operation was refused. Every failure is a deterministic validation
/// failure checked before any mutation, so a failing call changes nothing.
#[derive(Clone, Copy, Debug, PartialEq, Eq, Structural)]
pub enum Error {
    /// The claim exceeds the registry's configured length bound.
    ClaimTooLong,
    /// A create was attempted on a claim that is already registered.
    ProofAlreadyExists,
    /// A revoke or transfer was attempted on a claim that is not registered.
    NoSuchClaim,
    /// A revoke or transfer was attempted by someone other than the owner.
    NotClaimOwner,
}

/// What a successful operation reports, for the dispatcher to deliver to
/// observers. Each variant carries the identities and claim bytes involved.
#[derive(Debug, PartialEq, Eq)]
pub enum Event {
    /// A claim was registered. Carries the registrant and the claim.
    ClaimCreated(Identity, Vec<u8>),
    /// A claim was revoked by its owner. Carries the owner and the claim.
    ClaimRevoked(Identity, Vec<u8>),
    /// A claim changed owner. Carries the previous owner, the new owner,
    /// and the claim.
    ClaimTransferred(Identity, Identity, Vec<u8>),
}

} // verus!
