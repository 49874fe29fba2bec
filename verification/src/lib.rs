//! A claim registry: a proof-of-existence store that maps an opaque,
//! length-bounded byte-string claim to the identity that registered it and
//! the logical time at which registration happened. Anyone may register a
//! claim and anyone may look one up; only the registrant may revoke or
//! transfer it.
//!
//! The registry is plain sequential logic over an abstract key-value map.
//! The hosting dispatcher authenticates callers, supplies the current
//! logical time, and forwards the returned [`types::Event`] to observers.

pub mod claim;
pub mod laws;
pub mod registry;
pub mod types;

pub use claim::BoundedClaim;
pub use registry::ClaimRegistry;
pub use types::Error;
pub use types::Event;
pub use types::Identity;
pub use types::LogicalTime;
pub use types::Registration;
