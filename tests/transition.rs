use shasper::state::{
    BeaconBlockHeader, BeaconState, Checkpoint, Finality, Fork, PendingAttestation, Validator, FAR_FUTURE_EPOCH,
    SLOTS_PER_HISTORICAL_ROOT,
};
use shasper::transition::{is_epoch_end, process_block_header, process_final_updates, process_slot, BlockError};

const BALANCE: u64 = 32_000_000_000;

fn genesis(n: usize) -> BeaconState {
    let v = Validator {
        pubkey: [0u8; 48],
        withdrawal_credentials: [0u8; 32],
        effective_balance: BALANCE,
        slashed: false,
        activation_eligibility_epoch: 0,
        activation_epoch: 0,
        exit_epoch: FAR_FUTURE_EPOCH,
        withdrawable_epoch: FAR_FUTURE_EPOCH,
    };
    let cp = Checkpoint { epoch: 0, root: [0u8; 32] };
    let ring = SLOTS_PER_HISTORICAL_ROOT as usize;
    BeaconState {
        slot: 0,
        genesis_time: 0,
        fork: Fork { previous_version: 0, current_version: 0, epoch: 0 },
        validator_registry: vec![v; n],
        validator_balances: vec![BALANCE; n],
        validator_registry_update_epoch: 0,
        latest_randao_mixes: vec![[0u8; 32]; 8192],
        previous_shuffling_start_shard: 0,
        current_shuffling_start_shard: 0,
        previous_shuffling_epoch: 0,
        current_shuffling_epoch: 0,
        previous_shuffling_seed: [0u8; 32],
        current_shuffling_seed: [0u8; 32],
        previous_epoch_attestations: vec![],
        current_epoch_attestations: vec![],
        finality: Finality {
            previous_justified_checkpoint: cp,
            current_justified_checkpoint: cp,
            justification_bitfield: 0,
            finalized_checkpoint: cp,
        },
        latest_block_roots: vec![[0u8; 32]; ring],
        latest_state_roots: vec![[0u8; 32]; ring],
        latest_active_index_roots: vec![],
        latest_slashed_balances: vec![],
        latest_block_header: BeaconBlockHeader { slot: 0, parent_root: [0u8; 32], state_root: [0u8; 32], body_root: [5u8; 32] },
        historical_roots: vec![],
        deposit_index: 0,
    }
}

#[test]
fn genesis_plus_one_empty_slot() {
    let mut s = genesis(64);
    let state_root = [0x11u8; 32];
    let genesis_header_root = [0x22u8; 32];
    process_slot(&mut s, state_root, genesis_header_root);
    assert_eq!(s.slot, 1);
    assert_eq!(s.latest_block_roots[0], genesis_header_root);
    assert_eq!(s.latest_state_roots[0], state_root);
    assert_eq!(s.latest_block_header.state_root, state_root);
    assert_eq!(s.validator_balances, vec![BALANCE; 64]);
}

#[test]
fn backfill_happens_once() {
    let mut s = genesis(1);
    process_slot(&mut s, [1u8; 32], [2u8; 32]);
    process_slot(&mut s, [3u8; 32], [2u8; 32]);
    assert_eq!(s.latest_block_header.state_root, [1u8; 32]);
    assert_eq!(s.latest_state_roots[1], [3u8; 32]);
    assert_eq!(s.slot, 2);
}

#[test]
fn ring_index_wraps() {
    let mut s = genesis(1);
    s.slot = SLOTS_PER_HISTORICAL_ROOT + 3;
    process_slot(&mut s, [7u8; 32], [8u8; 32]);
    assert_eq!(s.latest_state_roots[3], [7u8; 32]);
    assert_eq!(s.latest_block_roots.len(), SLOTS_PER_HISTORICAL_ROOT as usize);
}

#[test]
fn epoch_end_slots() {
    assert!(is_epoch_end(63));
    assert!(!is_epoch_end(64));
    assert!(is_epoch_end(127));
}

#[test]
fn block_header_checks() {
    let mut s = genesis(4);
    s.slot = 3;
    s.validator_registry[2].slashed = true;
    let parent = [9u8; 32];
    let block = BeaconBlockHeader { slot: 3, parent_root: parent, state_root: [4u8; 32], body_root: [6u8; 32] };
    let wrong_slot = BeaconBlockHeader { slot: 4, ..block };
    assert_eq!(process_block_header(&mut s, &wrong_slot, parent, 0, true), Err(BlockError::WrongSlot));
    assert_eq!(process_block_header(&mut s, &block, [8u8; 32], 0, true), Err(BlockError::WrongParent));
    assert_eq!(process_block_header(&mut s, &block, parent, 9, true), Err(BlockError::UnknownProposer));
    assert_eq!(process_block_header(&mut s, &block, parent, 2, true), Err(BlockError::ProposerSlashed));
    assert_eq!(process_block_header(&mut s, &block, parent, 1, false), Err(BlockError::BadSignature));
    assert_eq!(s.latest_block_header.body_root, [5u8; 32]);
    assert_eq!(process_block_header(&mut s, &block, parent, 1, true), Ok(()));
    assert_eq!(s.latest_block_header.body_root, [6u8; 32]);
    assert_eq!(s.latest_block_header.state_root, [0u8; 32]);
    assert_eq!(s.latest_block_header.parent_root, parent);
}

fn pending_attestation(slot: u64) -> PendingAttestation {
    let cp = Checkpoint { epoch: slot / 64, root: [1u8; 32] };
    PendingAttestation {
        aggregation_bitfield: vec![0b1],
        slot,
        source: cp,
        target: cp,
        beacon_block_root: [1u8; 32],
        inclusion_delay: 1,
        proposer_index: 0,
    }
}

#[test]
fn final_updates_rotate() {
    let mut s = genesis(1);
    s.previous_epoch_attestations = vec![pending_attestation(3)];
    s.current_epoch_attestations = vec![pending_attestation(70), pending_attestation(71)];
    s.latest_randao_mixes[126] = [0x42u8; 32];
    process_final_updates(&mut s, 126, [0x55u8; 32]);
    assert_eq!(s.previous_epoch_attestations.len(), 2);
    assert_eq!(s.previous_epoch_attestations[0].slot, 70);
    assert!(s.current_epoch_attestations.is_empty());
    assert_eq!(s.latest_randao_mixes[127], [0x42u8; 32]);
    assert!(s.historical_roots.is_empty());
    process_final_updates(&mut s, 127, [0x55u8; 32]);
    assert_eq!(s.historical_roots, vec![[0x55u8; 32]]);
    assert!(s.previous_epoch_attestations.is_empty());
}
