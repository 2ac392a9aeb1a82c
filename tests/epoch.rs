use shasper::epoch::{process_epoch, EpochError};
use shasper::executor::{ChainHooks, Error, Executor};
use shasper::reward::{BeaconAttestation, DefaultSchemeConfig};
use shasper::state::{BeaconBlockHeader, BeaconState, Checkpoint, Finality, Fork, Validator, FAR_FUTURE_EPOCH};

const BALANCE: u64 = 32_000_000_000;

fn state(n: usize, slot: u64) -> BeaconState {
    let v = Validator {
        pubkey: [0u8; 48],
        withdrawal_credentials: [0u8; 32],
        effective_balance: BALANCE,
        slashed: false,
        activation_eligibility_epoch: 0,
        activation_epoch: 0,
        exit_epoch: FAR_FUTURE_EPOCH,
        withdrawable_epoch: FAR_FUTURE_EPOCH,
    };
    let cp = Checkpoint { epoch: 0, root: [0u8; 32] };
    BeaconState {
        slot,
        genesis_time: 0,
        fork: Fork { previous_version: 0, current_version: 0, epoch: 0 },
        validator_registry: vec![v; n],
        validator_balances: vec![BALANCE; n],
        validator_registry_update_epoch: 0,
        latest_randao_mixes: vec![[0u8; 32]; 8192],
        previous_shuffling_start_shard: 0,
        current_shuffling_start_shard: 0,
        previous_shuffling_epoch: 0,
        current_shuffling_epoch: 0,
        previous_shuffling_seed: [0u8; 32],
        current_shuffling_seed: [0u8; 32],
        previous_epoch_attestations: vec![],
        current_epoch_attestations: vec![],
        finality: Finality {
            previous_justified_checkpoint: cp,
            current_justified_checkpoint: cp,
            justification_bitfield: 0,
            finalized_checkpoint: cp,
        },
        latest_block_roots: vec![[0u8; 32]; 8192],
        latest_state_roots: vec![[0u8; 32]; 8192],
        latest_active_index_roots: vec![],
        latest_slashed_balances: vec![],
        latest_block_header: BeaconBlockHeader { slot: 0, parent_root: [0u8; 32], state_root: [0u8; 32], body_root: [0u8; 32] },
        historical_roots: vec![],
        deposit_index: 0,
    }
}

fn config(quotient: u64) -> DefaultSchemeConfig {
    DefaultSchemeConfig {
        base_reward_quotient: quotient,
        inactivity_penalty_quotient: 1 << 24,
        includer_reward_quotient: 8,
        min_attestation_inclusion_delay: 1,
        leak_target_penalty_on_source: true,
    }
}

fn attestations(n: u64, target: u64) -> Vec<BeaconAttestation> {
    (0..n)
        .map(|v| BeaconAttestation {
            validator_id: v,
            source_epoch: 0,
            target_epoch: target,
            is_casper_canon: true,
            slot: target * 64,
            is_slot_canon: true,
            inclusion_distance: 1,
        })
        .collect()
}

#[test]
fn epoch_transition_with_full_participation() {
    let mut s = state(64, 2 * 64 + 63);
    s.latest_block_roots[64] = [1u8; 32];
    s.latest_randao_mixes[2] = [3u8; 32];
    let r = process_epoch(&mut s, attestations(64, 1), &config(32), [9u8; 32]);
    assert_eq!(r, Ok(()));
    // every validator attested to the previous epoch's target, none yet to the current one
    assert_eq!(s.finality.current_justified_checkpoint.epoch, 1);
    assert_eq!(s.finality.current_justified_checkpoint.root, [1u8; 32]);
    assert_eq!(s.finality.justification_bitfield, 2);
    assert_eq!(s.latest_randao_mixes[3], [3u8; 32]);
    assert!(s.validator_balances.iter().all(|b| *b == BALANCE + 572_436));
}

#[test]
fn epoch_transition_rejects_bad_config() {
    let mut s = state(4, 2 * 64 + 63);
    let r = process_epoch(&mut s, attestations(4, 1), &config(0), [9u8; 32]);
    assert_eq!(r, Err(EpochError::InvalidConfig));
    assert_eq!(s.finality.current_justified_checkpoint.epoch, 0);
    assert_eq!(s.validator_balances, vec![BALANCE; 4]);
    let mut empty = state(0, 2 * 64 + 63);
    let r = process_epoch(&mut empty, vec![], &config(32), [9u8; 32]);
    assert_eq!(r, Err(EpochError::NoActiveBalance));
}

struct Hooks {
    quotient: u64,
}

impl ChainHooks for Hooks {
    fn state_root(&self, state: &BeaconState) -> [u8; 32] {
        [(state.slot % 251 + 1) as u8; 32]
    }

    fn header_root(&self, header: &BeaconBlockHeader) -> [u8; 32] {
        let mut r = header.state_root;
        r[0] ^= 0xff;
        r
    }

    fn historical_batch_root(&self, _state: &BeaconState) -> [u8; 32] {
        [7u8; 32]
    }

    fn reward_attestations(&self, state: &BeaconState) -> Vec<BeaconAttestation> {
        let epoch = state.slot / 64;
        attestations(state.validator_registry.len() as u64, if epoch == 0 { 0 } else { epoch - 1 })
    }

    fn reward_config(&self) -> DefaultSchemeConfig {
        config(self.quotient)
    }
}

#[test]
fn initialize_block_advances_through_epochs() {
    let mut s = state(64, 0);
    let e = Executor::new();
    assert_eq!(e.initialize_block(&mut s, 130, &Hooks { quotient: 32 }), Ok(()));
    assert_eq!(s.slot, 130);
    assert_eq!(s.latest_state_roots[0], [1u8; 32]);
    assert_eq!(s.latest_state_roots[5], [6u8; 32]);
    let mut first_header_root = [1u8; 32];
    first_header_root[0] = 0xfe;
    assert_eq!(s.latest_block_roots[0], first_header_root);
    assert_eq!(s.latest_block_roots[129], first_header_root);
    assert_eq!(s.latest_block_header.state_root, [1u8; 32]);
    assert_eq!(s.finality.current_justified_checkpoint.epoch, 0);
    assert!(s.validator_balances.iter().all(|b| *b > BALANCE));
    assert_eq!(e.initialize_block(&mut s, 100, &Hooks { quotient: 32 }), Ok(()));
    assert_eq!(s.slot, 130);
}

#[test]
fn initialize_block_stops_at_failed_epoch() {
    let mut s = state(8, 10);
    let e = Executor::new();
    assert_eq!(e.initialize_block(&mut s, 200, &Hooks { quotient: 0 }), Err(Error::Epoch(EpochError::InvalidConfig)));
    assert_eq!(s.slot, 63);
}

#[test]
fn genesis_plus_one_empty_slot_through_executor() {
    let mut s = state(64, 0);
    let e = Executor::new();
    let hooks = Hooks { quotient: 32 };
    let genesis_header = BeaconBlockHeader { state_root: hooks.state_root(&s), ..s.latest_block_header };
    assert_eq!(e.initialize_block(&mut s, 1, &hooks), Ok(()));
    assert_eq!(s.slot, 1);
    assert_eq!(s.latest_block_roots[0], hooks.header_root(&genesis_header));
    assert_eq!(s.validator_balances, vec![BALANCE; 64]);
}
