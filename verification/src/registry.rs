//! The registry itself: a mapping from bounded claim bytes to registrations,
//! and the three transition rules (create, revoke, transfer) with their
//! ownership checks.
//!
//! The store is modelled for specification purposes as a `Map` from claim
//! bytes to [`Registration`]; concretely it is a sequence of entries with
//! pairwise-distinct claims, looked up by exact byte equality.

use vstd::prelude::*;

use crate::claim::BoundedClaim;
use crate::types::Error;
use crate::types::Event;
use crate::types::Identity;
use crate::types::LogicalTime;
use crate::types::Registration;

verus! {

/// One registered claim with its registration.
struct Entry {
    claim: BoundedClaim,
    owner: Identity,
    registered_at: LogicalTime,
}

/// The registration an entry stands for.
spec fn entry_registration(e: Entry) -> Registration {
    Registration { owner: e.owner, registered_at: e.registered_at }
}

/// The mapping a sequence of entries denotes: each entry's claim bytes to
/// its registration.
spec fn entries_map(s: Seq<Entry>) -> Map<Seq<u8>, Registration>
    decreases s.len(),
{
    if s.len() == 0 {
        Map::empty()
    } else {
        entries_map(s.drop_last()).insert(s.last().claim@, entry_registration(s.last()))
    }
}

/// No two entries hold the same claim bytes, so the denoted map is keyed
/// unambiguously.
spec fn distinct_claims(s: Seq<Entry>) -> bool {
    forall|i: int, j: int|
        #![trigger s[i], s[j]]
        0 <= i < j < s.len() ==> s[i].claim@ != s[j].claim@
}

/// An entry known to stand at an index is in the denoted map.
proof fn lemma_contains_from_index(s: Seq<Entry>, i: int)
    requires
        0 <= i < s.len(),
    ensures
        entries_map(s).contains_key(s[i].claim@),
    decreases s.len(),
{
    if i < s.len() - 1 {
        lemma_contains_from_index(s.drop_last(), i);
        assert(s.drop_last()[i] == s[i]);
    }
}

/// Claim bytes held by no entry are absent from the denoted map.
proof fn lemma_absent_key(s: Seq<Entry>, c: Seq<u8>)
    requires
        forall|i: int| 0 <= i < s.len() ==> s[i].claim@ != c,
    ensures
        !entries_map(s).contains_key(c),
    decreases s.len(),
{
    if s.len() > 0 {
        assert(forall|i: int| 0 <= i < s.drop_last().len() ==> s.drop_last()[i] == s[i]);
        lemma_absent_key(s.drop_last(), c);
    }
}

/// With distinct claims, the denoted map sends an entry's claim bytes to
/// exactly that entry's registration.
proof fn lemma_registration_at(s: Seq<Entry>, i: int)
    requires
        distinct_claims(s),
        0 <= i < s.len(),
    ensures
        entries_map(s).contains_key(s[i].claim@),
        entries_map(s)[s[i].claim@] == entry_registration(s[i]),
    decreases s.len(),
{
    if i < s.len() - 1 {
        assert(forall|p: int| 0 <= p < s.drop_last().len() ==> s.drop_last()[p] == s[p]);
        assert(distinct_claims(s.drop_last()));
        lemma_registration_at(s.drop_last(), i);
        assert(s[i].claim@ != s[s.len() - 1].claim@);
    }
}

/// Appending an entry inserts its claim into the denoted map.
proof fn lemma_map_push(s: Seq<Entry>, e: Entry)
    ensures
        entries_map(s.push(e)) == entries_map(s).insert(e.claim@, entry_registration(e)),
{
    assert(s.push(e).drop_last() =~= s);
    assert(s.push(e).last() == e);
}

/// Overwriting the entry that holds some claim bytes re-inserts those bytes
/// with the new registration, and keeps the claims distinct.
proof fn lemma_map_update(s: Seq<Entry>, i: int, e: Entry)
    requires
        distinct_claims(s),
        0 <= i < s.len(),
        s[i].claim@ == e.claim@,
    ensures
        entries_map(s.update(i, e)) == entries_map(s).insert(e.claim@, entry_registration(e)),
        distinct_claims(s.update(i, e)),
    decreases s.len(),
{
    if i == s.len() - 1 {
        assert(s.update(i, e).drop_last() =~= s.drop_last());
        assert(s.update(i, e).last() == e);
        assert(entries_map(s.drop_last()).insert(e.claim@, entry_registration(e)) =~= entries_map(
            s,
        ).insert(e.claim@, entry_registration(e)));
    } else {
        assert(forall|p: int| 0 <= p < s.drop_last().len() ==> s.drop_last()[p] == s[p]);
        assert(distinct_claims(s.drop_last()));
        lemma_map_update(s.drop_last(), i, e);
        assert(s.update(i, e).drop_last() =~= s.drop_last().update(i, e));
        assert(s.update(i, e).last() == s.last());
        assert(s.last().claim@ != e.claim@);
        assert(entries_map(s.drop_last()).insert(e.claim@, entry_registration(e)).insert(
            s.last().claim@,
            entry_registration(s.last()),
        ) =~= entries_map(s).insert(e.claim@, entry_registration(e)));
    }
    assert forall|p: int, q: int| 0 <= p < q < s.update(i, e).len() implies s.update(
        i,
        e,
    )[p].claim@ != s.update(i, e)[q].claim@ by {
        assert(s.update(i, e)[p].claim@ == s[p].claim@);
        assert(s.update(i, e)[q].claim@ == s[q].claim@);
    }
}

/// Removing the entry that holds some claim bytes removes those bytes from
/// the denoted map, and keeps the claims distinct.
proof fn lemma_map_remove(s: Seq<Entry>, i: int)
    requires
        distinct_claims(s),
        0 <= i < s.len(),
    ensures
        entries_map(s.remove(i)) == entries_map(s).remove(s[i].claim@),
        distinct_claims(s.remove(i)),
    decreases s.len(),
{
    s.remove_ensures(i);
    if i == s.len() - 1 {
        assert(s.remove(i) =~= s.drop_last());
        assert(forall|j: int| 0 <= j < s.drop_last().len() ==> s.drop_last()[j] == s[j]);
        lemma_absent_key(s.drop_last(), s[i].claim@);
        assert(entries_map(s).remove(s[i].claim@) =~= entries_map(s.drop_last()));
    } else {
        assert(forall|p: int| 0 <= p < s.drop_last().len() ==> s.drop_last()[p] == s[p]);
        assert(distinct_claims(s.drop_last()));
        lemma_map_remove(s.drop_last(), i);
        assert(s.remove(i).drop_last() =~= s.drop_last().remove(i));
        assert(s.remove(i).last() == s.last());
        assert(s.last().claim@ != s[i].claim@);
        assert(entries_map(s.drop_last()).remove(s[i].claim@).insert(
            s.last().claim@,
            entry_registration(s.last()),
        ) =~= entries_map(s).remove(s[i].claim@));
    }
    assert forall|p: int, q: int| 0 <= p < q < s.remove(i).len() implies s.remove(
        i,
    )[p].claim@ != s.remove(i)[q].claim@ by {
        if p < i {
            assert(s.remove(i)[p] == s[p]);
        } else {
            assert(s.remove(i)[p] == s[p + 1]);
        }
        if q < i {
            assert(s.remove(i)[q] == s[q]);
        } else {
            assert(s.remove(i)[q] == s[q + 1]);
        }
    }
}

/// The claim registry: an append/revoke/transfer store from bounded claim
/// bytes to [`Registration`] values. The length bound is fixed when the
/// registry is set up and is not mutable afterwards.
pub struct ClaimRegistry {
    max_len: usize,
    entries: Vec<Entry>,
}

impl View for ClaimRegistry {
    type V = Map<Seq<u8>, Registration>;

    closed spec fn view(&self) -> Map<Seq<u8>, Registration> {
        entries_map(self.entries@)
    }
}

impl ClaimRegistry {
    /// The configured bound on claim length.
    pub closed spec fn max_claim(&self) -> nat {
        self.max_len as nat
    }

    /// Well-formed: claims are pairwise distinct, and every stored claim
    /// satisfies the length bound.
    pub closed spec fn wf(&self) -> bool {
        &&& distinct_claims(self.entries@)
        &&& forall|i: int|
            0 <= i < self.entries@.len() ==> self.entries@[i].claim@.len() <= self.max_len
    }

    /// A fresh, empty registry with the given claim-length bound.
    pub fn new(max_claim_length: usize) -> (r: ClaimRegistry)
        ensures
            r.wf(),
            r@ == Map::<Seq<u8>, Registration>::empty(),
            r.max_claim() == max_claim_length,
    {
        ClaimRegistry { max_len: max_claim_length, entries: Vec::new() }
    }

    /// The configured bound on claim length.
    pub fn max_claim_length(&self) -> (n: usize)
        ensures
            n == self.max_claim(),
    {
        self.max_len
    }

    /// The registry's standing invariant: the bounded encoding is checked
    /// before any insertion, so every key of a well-formed registry
    /// satisfies the length bound.
    pub proof fn lemma_keys_within_bound(&self)
        requires
            self.wf(),
        ensures
            forall|c: Seq<u8>| self@.contains_key(c) ==> c.len() <= self.max_claim(),
    {
        assert forall|c: Seq<u8>| self@.contains_key(c) implies c.len() <= self.max_claim() by {
            if c.len() > self.max_claim() {
                assert(forall|i: int|
                    0 <= i < self.entries@.len() ==> self.entries@[i].claim@ != c);
                lemma_absent_key(self.entries@, c);
            }
        }
    }

    /// The index of the entry holding exactly these claim bytes, if any.
    fn find_index(&self, claim: &BoundedClaim) -> (r: Option<usize>)
        ensures
            match r {
                Some(i) => i < self.entries@.len() && self.entries@[i as int].claim@ == claim@,
                None => forall|i: int|
                    0 <= i < self.entries@.len() ==> self.entries@[i].claim@ != claim@,
            },
    {
        let n: usize = self.entries.len();
        let mut idx: usize = 0;
        while idx < n
            invariant
                n == self.entries@.len(),
                idx <= n,
                forall|i: int| 0 <= i < idx ==> self.entries@[i].claim@ != claim@,
            decreases n - idx,
        {
            let e = &self.entries[idx];
            if e.claim.as_bytes() == claim.as_bytes() {
                proof {
                    assert(self.entries@[idx as int].claim@ =~= claim@);
                }
                return Some(idx);
            }
            proof {
                assert(self.entries@[idx as int].claim@ != claim@) by {
                    if self.entries@[idx as int].claim@ == claim@ {
                        assert(false);
                    }
                }
            }
            idx = idx + 1;
        }
        None
    }

    /// Register `claim` for `caller` at time `now`. Refused with
    /// `ClaimTooLong` when the claim exceeds the bound, and with
    /// `ProofAlreadyExists` when the claim is already registered; either
    /// refusal changes nothing. On success the claim maps to
    /// `(caller, now)` and a `ClaimCreated` notification is returned.
    pub fn create_claim(&mut self, caller: Identity, claim: Vec<u8>, now: LogicalTime) -> (r:
        Result<Event, Error>)
        requires
            old(self).wf(),
        ensures
            final(self).wf(),
            final(self).max_claim() == old(self).max_claim(),
            claim@.len() > old(self).max_claim() ==> r == Err::<Event, Error>(Error::ClaimTooLong)
                && final(self)@ == old(self)@,
            claim@.len() <= old(self).max_claim() && old(self)@.contains_key(claim@) ==> r == Err::<
                Event,
                Error,
            >(Error::ProofAlreadyExists) && final(self)@ == old(self)@,
            claim@.len() <= old(self).max_claim() && !old(self)@.contains_key(claim@) ==> final(self)@ == old(self)@.insert(
                claim@,
                (Registration { owner: caller, registered_at: now }),
            ) && (r matches Ok(e) && e matches Event::ClaimCreated(who, c) && who == caller && c@
                == claim@),
    {
        let bounded = match BoundedClaim::try_new(&claim, self.max_len) {
            Ok(b) => b,
            Err(e) => {
                return Err(e);
            },
        };
        match self.find_index(&bounded) {
            Some(i) => {
                proof {
                    lemma_contains_from_index(self.entries@, i as int);
                }
                Err(Error::ProofAlreadyExists)
            },
            None => {
                proof {
                    lemma_absent_key(self.entries@, claim@);
                }
                let ghost pre = self.entries@;
                let e = Entry { claim: bounded, owner: caller, registered_at: now };
                let ghost ge = e;
                self.entries.push(e);
                proof {
                    lemma_map_push(pre, ge);
                    assert forall|p: int, q: int|
                        0 <= p < q < self.entries@.len() implies self.entries@[p].claim@
                        != self.entries@[q].claim@ by {
                        if q < pre.len() {
                            assert(pre[p].claim@ != pre[q].claim@);
                        } else {
                            assert(self.entries@[q] == ge);
                            assert(pre[p].claim@ != claim@);
                        }
                    }
                }
                Ok(Event::ClaimCreated(caller, claim))
            },
        }
    }

    /// Revoke `claim`, removing its registration entirely. Refused with
    /// `ClaimTooLong` when the claim exceeds the bound, with `NoSuchClaim`
    /// when it is not registered, and with `NotClaimOwner` when `caller` is
    /// not the stored owner; any refusal changes nothing. On success the
    /// entry is gone and a `ClaimRevoked` notification is returned.
    pub fn revoke_claim(&mut self, caller: Identity, claim: Vec<u8>) -> (r: Result<Event, Error>)
        requires
            old(self).wf(),
        ensures
            final(self).wf(),
            final(self).max_claim() == old(self).max_claim(),
            claim@.len() > old(self).max_claim() ==> r == Err::<Event, Error>(Error::ClaimTooLong)
                && final(self)@ == old(self)@,
            claim@.len() <= old(self).max_claim() && !old(self)@.contains_key(claim@) ==> r
                == Err::<Event, Error>(Error::NoSuchClaim) && final(self)@ == old(self)@,
            claim@.len() <= old(self).max_claim() && old(self)@.contains_key(claim@) && old(self)@[claim@].owner != caller ==> r == Err::<Event, Error>(Error::NotClaimOwner) && final(self)@ == old(self)@,
            claim@.len() <= old(self).max_claim() && old(self)@.contains_key(claim@) && old(self)@[claim@].owner == caller ==> final(self)@ == old(self)@.remove(claim@) && (
            r matches Ok(e) && e matches Event::ClaimRevoked(who, c) && who == caller && c@
                == claim@),
    {
        let bounded = match BoundedClaim::try_new(&claim, self.max_len) {
            Ok(b) => b,
            Err(e) => {
                return Err(e);
            },
        };
        let i: usize = match self.find_index(&bounded) {
            Some(i) => i,
            None => {
                proof {
                    lemma_absent_key(self.entries@, claim@);
                }
                return Err(Error::NoSuchClaim);
            },
        };
        proof {
            lemma_registration_at(self.entries@, i as int);
        }
        if self.entries[i].owner != caller {
            return Err(Error::NotClaimOwner);
        }
        let ghost pre = self.entries@;
        let _removed = self.entries.remove(i);
        proof {
            lemma_map_remove(pre, i as int);
            pre.remove_ensures(i as int);
            assert forall|j: int|
                0 <= j < self.entries@.len() implies self.entries@[j].claim@.len()
                <= self.max_len by {
                if j < i {
                    assert(self.entries@[j] == pre[j]);
                } else {
                    assert(self.entries@[j] == pre[j + 1]);
                }
            }
        }
        Ok(Event::ClaimRevoked(caller, claim))
    }

    /// Transfer `claim` to `to`, refreshing the registration time to `now`.
    /// Refused with `ClaimTooLong` when the claim exceeds the bound, with
    /// `NoSuchClaim` when it is not registered, and with `NotClaimOwner`
    /// when `caller` is not the stored owner; any refusal changes nothing.
    /// On success the claim maps to `(to, now)` and a `ClaimTransferred`
    /// notification is returned.
    pub fn transfer_claim(
        &mut self,
        caller: Identity,
        to: Identity,
        claim: Vec<u8>,
        now: LogicalTime,
    ) -> (r: Result<Event, Error>)
        requires
            old(self).wf(),
        ensures
            final(self).wf(),
            final(self).max_claim() == old(self).max_claim(),
            claim@.len() > old(self).max_claim() ==> r == Err::<Event, Error>(Error::ClaimTooLong)
                && final(self)@ == old(self)@,
            claim@.len() <= old(self).max_claim() && !old(self)@.contains_key(claim@) ==> r
                == Err::<Event, Error>(Error::NoSuchClaim) && final(self)@ == old(self)@,
            claim@.len() <= old(self).max_claim() && old(self)@.contains_key(claim@) && old(self)@[claim@].owner != caller ==> r == Err::<Event, Error>(Error::NotClaimOwner) && final(self)@ == old(self)@,
            claim@.len() <= old(self).max_claim() && old(self)@.contains_key(claim@) && old(self)@[claim@].owner == caller ==> final(self)@ == old(self)@.insert(
                claim@,
                (Registration { owner: to, registered_at: now }),
            ) && (r matches Ok(e) && e matches Event::ClaimTransferred(who, rcpt, c) && who
                == caller && rcpt == to && c@ == claim@),
    {
        let bounded = match BoundedClaim::try_new(&claim, self.max_len) {
            Ok(b) => b,
            Err(e) => {
                return Err(e);
            },
        };
        let i: usize = match self.find_index(&bounded) {
            Some(i) => i,
            None => {
                proof {
                    lemma_absent_key(self.entries@, claim@);
                }
                return Err(Error::NoSuchClaim);
            },
        };
        proof {
            lemma_registration_at(self.entries@, i as int);
        }
        if self.entries[i].owner != caller {
            return Err(Error::NotClaimOwner);
        }
        let ghost pre = self.entries@;
        let e = Entry { claim: bounded, owner: to, registered_at: now };
        let ghost ge = e;
        self.entries[i] = e;
        proof {
            lemma_map_update(pre, i as int, ge);
            assert forall|j: int|
                0 <= j < self.entries@.len() implies self.entries@[j].claim@.len()
                <= self.max_len by {
                assert(self.entries@[j].claim@ == pre[j].claim@);
            }
        }
        Ok(Event::ClaimTransferred(caller, to, claim))
    }

    /// Look a claim up: who registered it and when, or nothing if it is not
    /// registered. A pure lookup with no failure kinds; a claim longer than
    /// the bound is never a key, so it simply reports absence.
    pub fn get_registration(&self, claim: &Vec<u8>) -> (r: Option<Registration>)
        requires
            self.wf(),
        ensures
            self@.contains_key(claim@) ==> r == Some(self@[claim@]),
            !self@.contains_key(claim@) ==> r == None::<Registration>,
    {
        let bounded = match BoundedClaim::try_new(claim, self.max_len) {
            Ok(b) => b,
            Err(_) => {
                proof {
                    assert(forall|i: int|
                        0 <= i < self.entries@.len() ==> self.entries@[i].claim@ != claim@);
                    lemma_absent_key(self.entries@, claim@);
                }
                return None;
            },
        };
        match self.find_index(&bounded) {
            Some(i) => {
                proof {
                    lemma_registration_at(self.entries@, i as int);
                }
                let e = &self.entries[i];
                Some(Registration { owner: e.owner, registered_at: e.registered_at })
            },
            None => {
                proof {
                    lemma_absent_key(self.entries@, claim@);
                }
                None
            },
        }
    }
}

} // verus!
