//! Laws of the registry, stated over the same map model that the operation
//! contracts use: the abstract store before a call, `old(self)@`, is a
//! `Map<Seq<u8>, Registration>`, and each successful operation produces the
//! map these lemmas speak about.

use vstd::prelude::*;

use crate::types::Identity;
use crate::types::LogicalTime;
use crate::types::Registration;

verus! {

/// A claim looked up straight after its creation reports the creating
/// caller and the creation time: for every store and every claim, the map a
/// successful `create_claim` produces holds the claim, bound to exactly the
/// registration `(caller, now)` of that call, which is what
/// `get_registration` then returns.
pub proof fn lemma_create_then_get(
    m: Map<Seq<u8>, Registration>,
    caller: Identity,
    claim: Seq<u8>,
    now: LogicalTime,
)
    ensures
        m.insert(claim, (Registration { owner: caller, registered_at: now })).contains_key(claim),
        m.insert(claim, (Registration { owner: caller, registered_at: now }))[claim] == (
        Registration { owner: caller, registered_at: now }),
{
}

/// Creating the same claim twice leaves the first registration in place:
/// after a successful create the claim is present, which is exactly the
/// condition under which `create_claim` refuses a second create of the same
/// bytes and changes nothing, so the registration stored by the first call
/// is still what the store holds.
pub proof fn lemma_second_create_changes_nothing(
    m: Map<Seq<u8>, Registration>,
    caller: Identity,
    claim: Seq<u8>,
    now: LogicalTime,
)
    requires
        !m.contains_key(claim),
    ensures
        m.insert(claim, (Registration { owner: caller, registered_at: now })).contains_key(claim),
        m.insert(claim, (Registration { owner: caller, registered_at: now }))[claim] == (
        Registration { owner: caller, registered_at: now }),
{
}

/// A transfer by the rightful owner hands the claim to the recipient and
/// refreshes the registration time: in the map a successful
/// `transfer_claim` produces, the claim is owned by the recipient at the
/// transfer time, so a later revoke by the recipient meets the success
/// condition of `revoke_claim` and removes the entry, while the previous
/// owner no longer matches the stored owner and is refused.
pub proof fn lemma_transfer_then_revoke(
    m: Map<Seq<u8>, Registration>,
    from: Identity,
    to: Identity,
    claim: Seq<u8>,
    now: LogicalTime,
)
    requires
        m.contains_key(claim),
        m[claim].owner == from,
        from != to,
    ensures
        m.insert(claim, (Registration { owner: to, registered_at: now })).contains_key(claim),
        m.insert(claim, (Registration { owner: to, registered_at: now }))[claim].owner == to,
        m.insert(claim, (Registration { owner: to, registered_at: now }))[claim].registered_at
            == now,
        m.insert(claim, (Registration { owner: to, registered_at: now }))[claim].owner != from,
        !m.insert(claim, (Registration { owner: to, registered_at: now })).remove(
            claim,
        ).contains_key(claim),
{
}

} // verus!
