use shasper::executor::{Error, Executor, MemoryState, RocksState, Transaction};
use shasper::operations::{AttestationData, Deposit, IndexedAttestation, OperationError};
use shasper::state::{BeaconBlockHeader, BeaconState, Checkpoint, Finality, Fork, Validator, FAR_FUTURE_EPOCH};

fn validator(tag: u8, activation: u64) -> Validator {
    Validator {
        pubkey: [tag; 48],
        withdrawal_credentials: [0u8; 32],
        effective_balance: 32_000_000_000,
        slashed: false,
        activation_eligibility_epoch: activation,
        activation_epoch: activation,
        exit_epoch: FAR_FUTURE_EPOCH,
        withdrawable_epoch: FAR_FUTURE_EPOCH,
    }
}

fn state(justified_root: [u8; 32], justified_epoch: u64) -> BeaconState {
    let cp = Checkpoint { epoch: 0, root: [0u8; 32] };
    BeaconState {
        slot: 6 * 64,
        genesis_time: 0,
        fork: Fork { previous_version: 0, current_version: 0, epoch: 0 },
        validator_registry: vec![validator(0, 0), validator(1, 0), validator(2, 4)],
        validator_balances: vec![32_000_000_000; 3],
        validator_registry_update_epoch: 0,
        latest_randao_mixes: vec![[0u8; 32]; 8192],
        previous_shuffling_start_shard: 0,
        current_shuffling_start_shard: 0,
        previous_shuffling_epoch: 0,
        current_shuffling_epoch: 0,
        previous_shuffling_seed: [0u8; 32],
        current_shuffling_seed: [0u8; 32],
        previous_epoch_attestations: vec![],
        current_epoch_attestations: vec![],
        finality: Finality {
            previous_justified_checkpoint: cp,
            current_justified_checkpoint: Checkpoint { epoch: justified_epoch, root: justified_root },
            justification_bitfield: 0,
            finalized_checkpoint: cp,
        },
        latest_block_roots: vec![[0u8; 32]; 8192],
        latest_state_roots: vec![[0u8; 32]; 8192],
        latest_active_index_roots: vec![],
        latest_slashed_balances: vec![],
        latest_block_header: BeaconBlockHeader { slot: 0, parent_root: [0u8; 32], state_root: [0u8; 32], body_root: [0u8; 32] },
        historical_roots: vec![],
        deposit_index: 0,
    }
}

#[test]
fn justified_block_id_is_none_at_genesis() {
    let e = Executor::new();
    assert_eq!(e.justified_block_id(&state([0u8; 32], 0)), None);
    let mut root = [0u8; 32];
    root[31] = 1;
    assert_eq!(e.justified_block_id(&state(root, 2)), Some(root));
}

#[test]
fn justified_active_validators_at_justified_epoch() {
    let e = Executor::new();
    assert_eq!(e.justified_active_validators(&state([1u8; 32], 2)), vec![0, 1]);
    assert_eq!(e.justified_active_validators(&state([1u8; 32], 5)), vec![0, 1, 2]);
}

#[test]
fn apply_extrinsic_operations() {
    let e = Executor::new();
    let mut s = state([1u8; 32], 5);
    let d = Deposit { index: 0, pubkey: [7u8; 48], withdrawal_credentials: [0u8; 32], amount: 1_000 };
    assert_eq!(e.apply_extrinsic(&mut s, &Transaction::Deposit(d), 0), Ok(()));
    assert_eq!(s.deposit_index, 1);
    assert_eq!(s.validator_registry.len(), s.validator_balances.len());
    assert_eq!(s.validator_balances[3], 1_000);
    assert_eq!(
        e.apply_extrinsic(&mut s, &Transaction::Deposit(d), 0),
        Err(Error::Beacon(OperationError::WrongDepositIndex))
    );
    assert_eq!(s.deposit_index, 1);
    assert_eq!(s.validator_registry.len(), 4);
    assert_eq!(
        e.apply_extrinsic(&mut s, &Transaction::VoluntaryExit(1), 0),
        Err(Error::Beacon(OperationError::TooYoung))
    );
    let data = |root: u8| AttestationData {
        slot: 5 * 64,
        source: Checkpoint { epoch: 4, root: [0u8; 32] },
        target: Checkpoint { epoch: 5, root: [root; 32] },
        beacon_block_root: [root; 32],
    };
    let a = IndexedAttestation { attesting_indices: vec![1], data: data(1) };
    let b = IndexedAttestation { attesting_indices: vec![1], data: data(2) };
    let slashing = Transaction::AttesterSlashing(a, b);
    assert_eq!(e.apply_extrinsic(&mut s, &slashing, 9), Err(Error::Beacon(OperationError::UnknownValidator)));
    assert!(!s.validator_registry[1].slashed);
    assert_eq!(e.apply_extrinsic(&mut s, &slashing, 2), Ok(()));
    assert!(s.validator_registry[1].slashed);
    // the proposer collects the whistleblower reward
    assert_eq!(s.validator_balances[2], 32_000_000_000 + 32_000_000_000 / 512);
    assert_eq!(s.validator_balances[0], 32_000_000_000);
    assert_eq!(
        e.apply_extrinsic(&mut s, &slashing, 2),
        Err(Error::Beacon(OperationError::NoneSlashed))
    );
    assert_eq!(s.slot, 6 * 64);
}

#[test]
fn state_holders_keep_the_state() {
    let mut m = MemoryState::from(state([3u8; 32], 1));
    assert_eq!(m.state().slot, 6 * 64);
    m.state_mut().slot = 7 * 64;
    assert_eq!(m.state().slot, 7 * 64);
    assert_eq!(m.into().finality.current_justified_checkpoint.epoch, 1);
    let mut r = RocksState::from_raw(state([3u8; 32], 2));
    r.state_mut().genesis_time = 9;
    assert_eq!(r.state().genesis_time, 9);
    assert_eq!(r.state().finality.current_justified_checkpoint.epoch, 2);
    assert_eq!(r.into_raw().validator_registry.len(), 3);
}
