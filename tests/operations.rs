use shasper::operations::{
    initiate_validator_exit, process_attester_slashing, process_deposit, process_proposer_slashing, process_voluntary_exit,
    slash_validator, AttestationData, Deposit, IndexedAttestation, OperationError, ProposerSlashing,
};
use shasper::state::{BeaconBlockHeader, Checkpoint, Validator, FAR_FUTURE_EPOCH};

const BALANCE: u64 = 32_000_000_000;

fn validator(tag: u8) -> Validator {
    Validator {
        pubkey: [tag; 48],
        withdrawal_credentials: [0u8; 32],
        effective_balance: BALANCE,
        slashed: false,
        activation_eligibility_epoch: 0,
        activation_epoch: 0,
        exit_epoch: FAR_FUTURE_EPOCH,
        withdrawable_epoch: FAR_FUTURE_EPOCH,
    }
}

fn registry(n: u8) -> (Vec<Validator>, Vec<u64>) {
    ((0..n).map(validator).collect(), vec![BALANCE; n as usize])
}

fn data(source: u64, target: u64, target_root: u8) -> AttestationData {
    AttestationData {
        slot: target * 64,
        source: Checkpoint { epoch: source, root: [0u8; 32] },
        target: Checkpoint { epoch: target, root: [target_root; 32] },
        beacon_block_root: [target_root; 32],
    }
}

#[test]
fn double_vote_slashing() {
    let (mut vals, mut bals) = registry(16);
    let a = IndexedAttestation { attesting_indices: vec![3, 7], data: data(4, 5, 1) };
    let b = IndexedAttestation { attesting_indices: vec![7, 9], data: data(4, 5, 2) };
    assert_eq!(process_attester_slashing(&mut vals, &mut bals, &a, &b, 0, 6), Ok(()));
    assert!(vals[7].slashed);
    assert!(!vals[3].slashed && !vals[9].slashed);
    assert_eq!(bals[7], BALANCE - BALANCE / 32);
    assert_eq!(vals[7].exit_epoch, 11);
    assert_eq!(vals[7].withdrawable_epoch, 6 + 8192);
    assert_eq!(bals[0], BALANCE + BALANCE / 512);
}

#[test]
fn surround_vote_slashing() {
    let (mut vals, mut bals) = registry(4);
    let a = IndexedAttestation { attesting_indices: vec![1], data: data(1, 6, 1) };
    let b = IndexedAttestation { attesting_indices: vec![1], data: data(2, 5, 1) };
    assert_eq!(process_attester_slashing(&mut vals, &mut bals, &a, &b, 0, 7), Ok(()));
    assert!(vals[1].slashed);
}

#[test]
fn attester_slashing_errors() {
    let (mut vals, mut bals) = registry(4);
    let a = IndexedAttestation { attesting_indices: vec![1], data: data(1, 5, 1) };
    let same = IndexedAttestation { attesting_indices: vec![1], data: data(1, 5, 1) };
    assert_eq!(process_attester_slashing(&mut vals, &mut bals, &a, &same, 0, 7), Err(OperationError::NotSlashable));
    let disjoint = IndexedAttestation { attesting_indices: vec![2], data: data(1, 5, 2) };
    assert_eq!(process_attester_slashing(&mut vals, &mut bals, &a, &disjoint, 0, 7), Err(OperationError::NoneSlashed));
    assert_eq!(bals, vec![BALANCE; 4]);
}

#[test]
fn slashing_twice_changes_nothing() {
    let (mut vals, mut bals) = registry(4);
    assert!(slash_validator(&mut vals, &mut bals, 2, 0, 3));
    let after_first = (vals.clone(), bals.clone());
    assert!(!slash_validator(&mut vals, &mut bals, 2, 0, 3));
    assert_eq!(bals, after_first.1);
    assert_eq!(vals[2].exit_epoch, after_first.0[2].exit_epoch);
    assert_eq!(vals[2].withdrawable_epoch, after_first.0[2].withdrawable_epoch);
}

#[test]
fn exit_queue_respects_churn() {
    let (mut vals, _) = registry(6);
    for i in 0..6 {
        initiate_validator_exit(&mut vals, i, 10);
    }
    // churn limit is 4 for a small registry: the fifth exit moves to the next epoch
    assert_eq!(vals[0].exit_epoch, 15);
    assert_eq!(vals[3].exit_epoch, 15);
    assert_eq!(vals[4].exit_epoch, 16);
    assert_eq!(vals[5].exit_epoch, 16);
    assert_eq!(vals[4].withdrawable_epoch, 16 + 256);
    for v in &vals {
        assert!(v.activation_eligibility_epoch <= v.activation_epoch);
        assert!(v.activation_epoch <= v.exit_epoch && v.exit_epoch <= v.withdrawable_epoch);
    }
}

#[test]
fn voluntary_exit_rules() {
    let (mut vals, _) = registry(3);
    vals[1].activation_epoch = 10;
    assert_eq!(process_voluntary_exit(&mut vals, 9, 3000), Err(OperationError::UnknownValidator));
    assert_eq!(process_voluntary_exit(&mut vals, 1, 5), Err(OperationError::NotActive));
    assert_eq!(process_voluntary_exit(&mut vals, 1, 2000), Err(OperationError::TooYoung));
    assert_eq!(process_voluntary_exit(&mut vals, 0, 3000), Ok(()));
    assert_eq!(vals[0].exit_epoch, 3005);
    assert_eq!(process_voluntary_exit(&mut vals, 0, 3000), Err(OperationError::AlreadyExiting));
}

#[test]
fn deposits_keep_registry_aligned() {
    let (mut vals, mut bals) = registry(2);
    let fresh = Deposit { index: 0, pubkey: [9u8; 48], withdrawal_credentials: [1u8; 32], amount: 5 };
    process_deposit(&mut vals, &mut bals, &fresh);
    assert_eq!(vals.len(), 3);
    assert_eq!(bals, vec![BALANCE, BALANCE, 5]);
    assert_eq!(vals[2].activation_epoch, FAR_FUTURE_EPOCH);
    let top_up = Deposit { index: 1, pubkey: [1u8; 48], withdrawal_credentials: [1u8; 32], amount: 7 };
    process_deposit(&mut vals, &mut bals, &top_up);
    assert_eq!(vals.len(), 3);
    assert_eq!(bals, vec![BALANCE, BALANCE + 7, 5]);
}

#[test]
fn proposer_slashing_rules() {
    let (mut vals, mut bals) = registry(4);
    let h = BeaconBlockHeader { slot: 9, parent_root: [1u8; 32], state_root: [2u8; 32], body_root: [3u8; 32] };
    let other = BeaconBlockHeader { body_root: [4u8; 32], ..h };
    let later = BeaconBlockHeader { slot: 10, ..other };
    let same = ProposerSlashing { proposer_index: 2, header_1: h, header_2: h };
    assert_eq!(process_proposer_slashing(&mut vals, &mut bals, &same, 0, 3), Err(OperationError::NotSlashable));
    let slots = ProposerSlashing { proposer_index: 2, header_1: h, header_2: later };
    assert_eq!(process_proposer_slashing(&mut vals, &mut bals, &slots, 0, 3), Err(OperationError::NotSlashable));
    let unknown = ProposerSlashing { proposer_index: 8, header_1: h, header_2: other };
    assert_eq!(process_proposer_slashing(&mut vals, &mut bals, &unknown, 0, 3), Err(OperationError::UnknownValidator));
    let good = ProposerSlashing { proposer_index: 2, header_1: h, header_2: other };
    assert_eq!(process_proposer_slashing(&mut vals, &mut bals, &good, 0, 3), Ok(()));
    assert!(vals[2].slashed);
    assert_eq!(bals[2], BALANCE - BALANCE / 32);
    assert_eq!(bals[0], BALANCE + BALANCE / 512);
    assert_eq!(process_proposer_slashing(&mut vals, &mut bals, &good, 0, 3), Err(OperationError::NoneSlashed));
    assert_eq!(bals[2], BALANCE - BALANCE / 32);
}
