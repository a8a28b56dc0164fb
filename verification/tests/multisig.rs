use zenith::ids::AccountId;
use zenith::multisig::{Error, Multisig};

fn account(n: u64) -> AccountId {
    AccountId::from_words([n, 0, 0, 0, 0, 0, 0])
}

struct Harness {
    ms: Multisig,
    signers: [AccountId; 3],
}

fn setup() -> Harness {
    let signers = [account(1), account(2), account(3)];
    let mut ms = Multisig::new();
    ms.initialize(vec![signers[0], signers[1], signers[2]], 2).unwrap();
    Harness { ms, signers }
}

#[test]
fn initialize_sets_signers_and_threshold() {
    let h = setup();
    assert_eq!(h.ms.get_signer_count(), 3);
    assert_eq!(h.ms.get_threshold(), 2);
    for signer in &h.signers {
        assert!(h.ms.is_signer(*signer));
    }
    let stranger = account(99);
    assert!(!h.ms.is_signer(stranger));
}

#[test]
fn initialize_twice_panics() {
    let mut h = setup();
    let r = h.ms.initialize(vec![h.signers[0]], 1);
    assert_eq!(r, Err(Error::AlreadyInitialized));
    assert_eq!(Error::AlreadyInitialized.code(), 1);
    // The first configuration is untouched.
    assert_eq!(h.ms.get_signer_count(), 3);
    assert_eq!(h.ms.get_threshold(), 2);
}

#[test]
fn initialize_rejects_a_zero_threshold() {
    let mut ms = Multisig::new();
    let r = ms.initialize(vec![account(1)], 0);
    assert_eq!(r, Err(Error::InvalidThreshold));
    assert_eq!(Error::InvalidThreshold.code(), 2);
}

#[test]
fn initialize_rejects_a_threshold_above_the_signer_count() {
    let mut ms = Multisig::new();
    let r = ms.initialize(vec![account(1), account(2)], 3);
    assert_eq!(r, Err(Error::InvalidThreshold));
}

#[test]
fn initialize_rejects_a_duplicate_signer() {
    let mut ms = Multisig::new();
    let signer = account(7);
    let r = ms.initialize(vec![signer, signer], 1);
    assert_eq!(r, Err(Error::DuplicateSigner));
    assert_eq!(Error::DuplicateSigner.code(), 3);
}

#[test]
fn approve_records_the_signers_own_vote() {
    let mut h = setup();
    h.ms.approve(h.signers[0], 42).unwrap();

    assert!(h.ms.has_approved(42, h.signers[0]));
    assert!(!h.ms.has_approved(42, h.signers[1]));
    assert_eq!(h.ms.get_approval_count(42), 1);
}

#[test]
fn is_approved_flips_true_once_the_threshold_is_reached() {
    let mut h = setup();
    // Threshold is 2 of 3.
    assert!(!h.ms.is_approved(42));

    h.ms.approve(h.signers[0], 42).unwrap();
    assert!(!h.ms.is_approved(42));

    h.ms.approve(h.signers[1], 42).unwrap();
    assert!(h.ms.is_approved(42));
}

#[test]
fn different_action_ids_track_approvals_independently() {
    let mut h = setup();
    h.ms.approve(h.signers[0], 1).unwrap();
    h.ms.approve(h.signers[0], 2).unwrap();
    h.ms.approve(h.signers[1], 2).unwrap();

    assert!(!h.ms.is_approved(1)); // only 1 of 3
    assert!(h.ms.is_approved(2)); // 2 of 3
}

#[test]
fn approve_rejects_a_non_signer() {
    let mut h = setup();
    let stranger = account(99);
    assert_eq!(h.ms.approve(stranger, 42), Err(Error::NotASigner));
    assert_eq!(Error::NotASigner.code(), 4);
    assert_eq!(h.ms.get_approval_count(42), 0);
}

#[test]
fn approve_rejects_the_same_signer_voting_twice() {
    let mut h = setup();
    h.ms.approve(h.signers[0], 42).unwrap();
    assert_eq!(h.ms.approve(h.signers[0], 42), Err(Error::AlreadyApproved));
    assert_eq!(Error::AlreadyApproved.code(), 5);
    assert_eq!(h.ms.get_approval_count(42), 1);
}

#[test]
fn revoke_withdraws_the_signers_vote() {
    let mut h = setup();
    h.ms.approve(h.signers[0], 42).unwrap();
    h.ms.approve(h.signers[1], 42).unwrap();
    assert!(h.ms.is_approved(42));

    h.ms.revoke(h.signers[1], 42).unwrap();
    assert!(!h.ms.has_approved(42, h.signers[1]));
    assert_eq!(h.ms.get_approval_count(42), 1);
    // Dropping below threshold un-approves the action.
    assert!(!h.ms.is_approved(42));
}

#[test]
fn a_revoked_signer_can_approve_again() {
    let mut h = setup();
    h.ms.approve(h.signers[0], 42).unwrap();
    h.ms.revoke(h.signers[0], 42).unwrap();
    h.ms.approve(h.signers[0], 42).unwrap();

    assert!(h.ms.has_approved(42, h.signers[0]));
    assert_eq!(h.ms.get_approval_count(42), 1);
}

#[test]
fn revoke_rejects_a_signer_who_never_approved() {
    let mut h = setup();
    assert_eq!(h.ms.revoke(h.signers[0], 42), Err(Error::NotYetApproved));
    assert_eq!(Error::NotYetApproved.code(), 6);
}

#[test]
fn revoke_then_approve_round_trip_leaves_counts_unchanged() {
    let mut h = setup();
    h.ms.approve(h.signers[2], 9).unwrap();
    let before = h.ms.get_approval_count(9);
    h.ms.approve(h.signers[0], 9).unwrap();
    h.ms.revoke(h.signers[0], 9).unwrap();
    assert_eq!(h.ms.get_approval_count(9), before);
    assert!(h.ms.has_approved(9, h.signers[2]));
    assert!(!h.ms.has_approved(9, h.signers[0]));
}

#[test]
fn approval_count_never_exceeds_the_signer_count() {
    let mut h = setup();
    for s in h.signers {
        h.ms.approve(s, 5).unwrap();
    }
    assert_eq!(h.ms.get_approval_count(5), 3);
    assert_eq!(h.ms.approve(h.signers[1], 5), Err(Error::AlreadyApproved));
    assert_eq!(h.ms.get_approval_count(5), h.ms.get_signer_count());
}

#[test]
fn revoking_on_a_fresh_deployment_is_refused() {
    let mut ms = Multisig::new();
    assert_eq!(ms.revoke(account(1), 1), Err(Error::NotYetApproved));
    assert!(!ms.has_approved(1, account(1)));
    assert_eq!(ms.get_approval_count(1), 0);
}
