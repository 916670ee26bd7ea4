use substrate_kitties::poe::{Error, Event, Module};

#[test]
fn creat_claim_works() {
    let mut m = Module::new();
    let block_number: u64 = 0;
    let claim: Vec<u8> = vec![0, 1];
    assert!(m.create_claim(1, claim.clone(), block_number).is_ok());
    assert_eq!(m.proofs(&claim), Some((1, block_number)));
}

#[test]
fn creat_claim_failed_when_claim_already_exist() {
    let mut m = Module::new();
    let claim: Vec<u8> = vec![0, 1];
    let _ = m.create_claim(1, claim.clone(), 0);
    assert_eq!(m.create_claim(1, claim.clone(), 0), Err(Error::ProofAlreadyExist));
    assert_eq!(m.proofs(&claim), Some((1, 0)));
}

#[test]
fn revoke_claim_works() {
    let mut m = Module::new();
    let claim: Vec<u8> = vec![0, 1];
    let _ = m.create_claim(1, claim.clone(), 0);
    assert!(m.revoke_claim(1, claim.clone()).is_ok());
    assert_eq!(m.proofs(&claim), None);
}

#[test]
fn creat_claim_failed_when_claim_is_not_exist() {
    let mut m = Module::new();
    let claim: Vec<u8> = vec![0, 1];
    assert_eq!(m.revoke_claim(1, claim.clone()), Err(Error::ClaimNotExist));
}

#[test]
fn revoke_by_other_account_is_refused() {
    let mut m = Module::new();
    let claim: Vec<u8> = vec![9, 9, 9];
    m.create_claim(1, claim.clone(), 4).unwrap();
    assert_eq!(m.revoke_claim(2, claim.clone()), Err(Error::NotClaimOwner));
    assert_eq!(m.proofs(&claim), Some((1, 4)));
}

#[test]
fn claim_events_carry_account_and_bytes() {
    let mut m = Module::new();
    assert_eq!(m.create_claim(3, vec![5, 6], 2), Ok(Event::ClaimCreated(3, vec![5, 6])));
    assert_eq!(m.revoke_claim(3, vec![5, 6]), Ok(Event::ClaimRevoked(3, vec![5, 6])));
}

#[test]
fn claims_are_kept_apart() {
    let mut m = Module::new();
    m.create_claim(1, vec![1], 10).unwrap();
    m.create_claim(2, vec![1, 0], 11).unwrap();
    m.create_claim(3, vec![], 12).unwrap();
    assert_eq!(m.proofs(&[1]), Some((1, 10)));
    assert_eq!(m.proofs(&[1, 0]), Some((2, 11)));
    assert_eq!(m.proofs(&[]), Some((3, 12)));
    m.revoke_claim(2, vec![1, 0]).unwrap();
    assert_eq!(m.proofs(&[1, 0]), None);
    assert_eq!(m.proofs(&[1]), Some((1, 10)));
    assert_eq!(m.create_claim(4, vec![1, 0], 13), Ok(Event::ClaimCreated(4, vec![1, 0])));
    assert_eq!(m.proofs(&[1, 0]), Some((4, 13)));
}
