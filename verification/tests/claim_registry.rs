use poe::BoundedClaim;
use poe::ClaimRegistry;
use poe::Error;
use poe::Event;
use poe::Registration;

#[test]
fn create_claim_works() {
    let mut reg = ClaimRegistry::new(512);
    let claim = vec![0, 1];
    assert!(reg.create_claim(1, claim.clone(), 1).is_ok());
    assert_eq!(
        reg.get_registration(&claim),
        Some(Registration { owner: 1, registered_at: 1 })
    );
}

#[test]
fn create_claim_failed_when_claim_already_exist() {
    let mut reg = ClaimRegistry::new(512);
    let claim = vec![0, 1];
    assert!(reg.create_claim(1, claim.clone(), 1).is_ok());
    assert_eq!(
        reg.create_claim(1, claim, 2),
        Err(Error::ProofAlreadyExists)
    );
}

#[test]
fn create_claim_failed_when_claim_is_too_long() {
    let mut reg = ClaimRegistry::new(512);
    let claim = vec![0; 513];
    assert_eq!(reg.create_claim(1, claim, 1), Err(Error::ClaimTooLong));
}

#[test]
fn revoke_claim_works() {
    let mut reg = ClaimRegistry::new(512);
    let claim = vec![0, 1];
    assert!(reg.create_claim(1, claim.clone(), 1).is_ok());
    assert!(reg.revoke_claim(1, claim).is_ok());
}

#[test]
fn revoke_claim_failed_when_claim_is_not_exist() {
    let mut reg = ClaimRegistry::new(512);
    let claim = vec![0, 1];
    assert_eq!(reg.revoke_claim(1, claim), Err(Error::NoSuchClaim));
}

#[test]
fn revoke_claim_failed_with_wrong_owner() {
    let mut reg = ClaimRegistry::new(512);
    let claim = vec![0, 1];
    assert!(reg.create_claim(1, claim.clone(), 1).is_ok());
    assert_eq!(reg.revoke_claim(2, claim.clone()), Err(Error::NotClaimOwner));
    // The entry is still there, with its original owner and time.
    assert_eq!(
        reg.get_registration(&claim),
        Some(Registration { owner: 1, registered_at: 1 })
    );
}

#[test]
fn transfer_claim_works() {
    let mut reg = ClaimRegistry::new(512);
    let claim = vec![0, 1];
    assert!(reg.create_claim(1, claim.clone(), 1).is_ok());
    assert!(reg.transfer_claim(1, 2, claim.clone(), 2).is_ok());
    assert_eq!(
        reg.get_registration(&claim),
        Some(Registration { owner: 2, registered_at: 2 })
    );
}

#[test]
fn transfer_claim_failed_when_claim_is_not_exist() {
    let mut reg = ClaimRegistry::new(512);
    let claim = vec![0, 1];
    assert_eq!(reg.transfer_claim(1, 2, claim, 1), Err(Error::NoSuchClaim));
}

#[test]
fn transfer_claim_failed_with_wrong_owner() {
    let mut reg = ClaimRegistry::new(512);
    let claim = vec![0, 1];
    assert!(reg.create_claim(1, claim.clone(), 1).is_ok());
    assert_eq!(
        reg.transfer_claim(3, 2, claim.clone(), 2),
        Err(Error::NotClaimOwner)
    );
    assert_eq!(
        reg.get_registration(&claim),
        Some(Registration { owner: 1, registered_at: 1 })
    );
}

#[test]
fn revoke_claim_failed_when_claim_is_too_long() {
    let mut reg = ClaimRegistry::new(512);
    assert_eq!(reg.revoke_claim(1, vec![0; 513]), Err(Error::ClaimTooLong));
}

#[test]
fn transfer_claim_failed_when_claim_is_too_long() {
    let mut reg = ClaimRegistry::new(512);
    assert_eq!(
        reg.transfer_claim(1, 2, vec![0; 513], 1),
        Err(Error::ClaimTooLong)
    );
}

#[test]
fn too_long_claim_is_reported_before_existence_and_ownership() {
    // The length check precedes every lookup: a too-long claim that was
    // never created still reports ClaimTooLong, not NoSuchClaim.
    let mut reg = ClaimRegistry::new(2);
    let long = vec![0, 1, 2];
    assert_eq!(reg.revoke_claim(1, long.clone()), Err(Error::ClaimTooLong));
    assert_eq!(
        reg.transfer_claim(1, 2, long.clone(), 5),
        Err(Error::ClaimTooLong)
    );
    assert_eq!(reg.create_claim(1, long, 5), Err(Error::ClaimTooLong));
}

#[test]
fn create_claim_at_exact_bound_succeeds() {
    let mut reg = ClaimRegistry::new(512);
    let claim = vec![7; 512];
    assert!(reg.create_claim(1, claim.clone(), 3).is_ok());
    assert_eq!(
        reg.get_registration(&claim),
        Some(Registration { owner: 1, registered_at: 3 })
    );
}

#[test]
fn empty_claim_can_be_registered_and_revoked() {
    let mut reg = ClaimRegistry::new(512);
    let claim: Vec<u8> = vec![];
    assert!(reg.create_claim(9, claim.clone(), 4).is_ok());
    assert_eq!(
        reg.get_registration(&claim),
        Some(Registration { owner: 9, registered_at: 4 })
    );
    assert!(reg.revoke_claim(9, claim.clone()).is_ok());
    assert_eq!(reg.get_registration(&claim), None);
}

#[test]
fn operations_report_the_matching_events() {
    let mut reg = ClaimRegistry::new(512);
    let claim = vec![5, 6];
    assert_eq!(
        reg.create_claim(1, claim.clone(), 1),
        Ok(Event::ClaimCreated(1, vec![5, 6]))
    );
    assert_eq!(
        reg.transfer_claim(1, 2, claim.clone(), 2),
        Ok(Event::ClaimTransferred(1, 2, vec![5, 6]))
    );
    assert_eq!(
        reg.revoke_claim(2, claim),
        Ok(Event::ClaimRevoked(2, vec![5, 6]))
    );
}

#[test]
fn second_create_keeps_first_registration() {
    let mut reg = ClaimRegistry::new(512);
    let claim = vec![8, 8];
    assert!(reg.create_claim(1, claim.clone(), 10).is_ok());
    assert_eq!(
        reg.create_claim(2, claim.clone(), 11),
        Err(Error::ProofAlreadyExists)
    );
    assert_eq!(
        reg.get_registration(&claim),
        Some(Registration { owner: 1, registered_at: 10 })
    );
}

#[test]
fn transfer_then_revoke_by_new_owner() {
    let mut reg = ClaimRegistry::new(512);
    let claim = vec![4];
    assert!(reg.create_claim(1, claim.clone(), 10).is_ok());
    assert!(reg.transfer_claim(1, 2, claim.clone(), 12).is_ok());
    assert_eq!(
        reg.get_registration(&claim),
        Some(Registration { owner: 2, registered_at: 12 })
    );
    assert_eq!(reg.revoke_claim(1, claim.clone()), Err(Error::NotClaimOwner));
    assert!(reg.revoke_claim(2, claim.clone()).is_ok());
    assert_eq!(reg.get_registration(&claim), None);
}

#[test]
fn full_lifecycle_scenario() {
    let mut reg = ClaimRegistry::new(512);
    assert!(reg.create_claim(1, vec![0, 1], 10).is_ok());
    assert_eq!(
        reg.get_registration(&vec![0, 1]),
        Some(Registration { owner: 1, registered_at: 10 })
    );
    assert_eq!(
        reg.create_claim(1, vec![0, 1], 11),
        Err(Error::ProofAlreadyExists)
    );
    assert_eq!(reg.create_claim(1, vec![0; 513], 11), Err(Error::ClaimTooLong));
    assert!(reg.transfer_claim(1, 2, vec![0, 1], 12).is_ok());
    assert_eq!(
        reg.get_registration(&vec![0, 1]),
        Some(Registration { owner: 2, registered_at: 12 })
    );
    assert_eq!(reg.revoke_claim(1, vec![0, 1]), Err(Error::NotClaimOwner));
    assert!(reg.revoke_claim(2, vec![0, 1]).is_ok());
    assert_eq!(reg.get_registration(&vec![0, 1]), None);
}

#[test]
fn max_claim_length_reports_the_bound() {
    let reg = ClaimRegistry::new(512);
    assert_eq!(reg.max_claim_length(), 512);
}

#[test]
fn bounded_claim_checks_the_length_bound() {
    let bytes = vec![1, 2, 3];
    match BoundedClaim::try_new(&bytes, 2) {
        Err(Error::ClaimTooLong) => {}
        _ => panic!("a claim over the bound must be refused"),
    }
    match BoundedClaim::try_new(&bytes, 3) {
        Ok(claim) => assert_eq!(claim.as_bytes(), &bytes),
        _ => panic!("a claim within the bound must be accepted"),
    }
}
