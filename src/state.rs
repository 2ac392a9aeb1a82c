//! The beacon state and the records it is made of.

use vstd::prelude::*;

verus! {

/// A 32-byte digest.
pub type H256 = [u8; 32];

/// The epoch that stands for "not yet".
pub const FAR_FUTURE_EPOCH: u64 = 0xffff_ffff_ffff_ffff;

/// Number of slots in an epoch.
pub const SLOTS_PER_EPOCH: u64 = 64;

/// Length of the block-root and state-root rings.
pub const SLOTS_PER_HISTORICAL_ROOT: u64 = 8192;

/// Length of the randao-mix ring.
pub const LATEST_RANDAO_MIXES_LENGTH: u64 = 8192;

/// Protocol version record.
#[derive(Clone, Copy, Debug, PartialEq, Eq, Structural)]
pub struct Fork {
    /// Previous fork version
    pub previous_version: u64,
    /// Current fork version
    pub current_version: u64,
    /// Fork epoch number
    pub epoch: u64,
}

/// A validator of the registry.
#[derive(Clone, Copy, Debug)]
pub struct Validator {
    pub pubkey: [u8; 48],
    pub withdrawal_credentials: H256,
    pub effective_balance: u64,
    pub slashed: bool,
    pub activation_eligibility_epoch: u64,
    pub activation_epoch: u64,
    pub exit_epoch: u64,
    pub withdrawable_epoch: u64,
}

impl Validator {
    /// The lifecycle epochs come in order.
    pub open spec fn wf(&self) -> bool {
        self.activation_eligibility_epoch <= self.activation_epoch
            && self.activation_epoch <= self.exit_epoch
            && self.exit_epoch <= self.withdrawable_epoch
    }

    pub open spec fn spec_is_active(&self, epoch: u64) -> bool {
        self.activation_epoch <= epoch && epoch < self.exit_epoch
    }

    /// Whether the validator is active at `epoch`.
    pub fn is_active(&self, epoch: u64) -> (r: bool)
        ensures
            r == self.spec_is_active(epoch),
    {
        self.activation_epoch <= epoch && epoch < self.exit_epoch
    }
}

/// The ids (registry indices) of the validators of `vals` active at `epoch`, in order.
pub open spec fn active_ids(vals: Seq<Validator>, epoch: u64) -> Seq<u64>
    decreases vals.len(),
{
    if vals.len() == 0 {
        Seq::empty()
    } else {
        active_ids(vals.drop_last(), epoch) + if vals.last().spec_is_active(epoch) {
            seq![(vals.len() - 1) as u64]
        } else {
            Seq::empty()
        }
    }
}

/// The registry indices of the validators active at `epoch`.
pub fn active_validator_indices(vals: &Vec<Validator>, epoch: u64) -> (r: Vec<u64>)
    ensures
        r@ == active_ids(vals@, epoch),
{
    let mut r: Vec<u64> = Vec::new();
    let mut i: usize = 0;
    while i < vals.len()
        invariant
            i <= vals.len(),
            r@ == active_ids(vals@.take(i as int), epoch),
        decreases vals.len() - i,
    {
        proof {
            assert(vals@.take(i + 1).drop_last() =~= vals@.take(i as int));
        }
        if vals[i].is_active(epoch) {
            r.push(i as u64);
        }
        i += 1;
    }
    proof {
        assert(vals@.take(vals@.len() as int) =~= vals@);
    }
    r
}

/// An epoch and the root of the block at its start.
#[derive(Clone, Copy, Debug)]
pub struct Checkpoint {
    pub epoch: u64,
    pub root: H256,
}

/// The finality data of the state.
#[derive(Clone, Copy, Debug)]
pub struct Finality {
    pub previous_justified_checkpoint: Checkpoint,
    pub current_justified_checkpoint: Checkpoint,
    /// Rolling window of justified epochs: bit `i` for `i` epochs back.
    pub justification_bitfield: u64,
    pub finalized_checkpoint: Checkpoint,
}

impl Finality {
    /// The checkpoints are ordered and none is later than `epoch`.
    pub open spec fn wf(&self, epoch: u64) -> bool {
        self.finalized_checkpoint.epoch <= self.previous_justified_checkpoint.epoch
            && self.previous_justified_checkpoint.epoch <= self.current_justified_checkpoint.epoch
            && self.current_justified_checkpoint.epoch <= epoch
    }
}

/// A pending attestation held by the state.
#[derive(Clone, Debug)]
pub struct PendingAttestation {
    pub aggregation_bitfield: Vec<u8>,
    pub slot: u64,
    pub source: Checkpoint,
    pub target: Checkpoint,
    pub beacon_block_root: H256,
    pub inclusion_delay: u64,
    pub proposer_index: u64,
}

/// The header of a block.
#[derive(Clone, Copy, Debug)]
pub struct BeaconBlockHeader {
    pub slot: u64,
    pub parent_root: H256,
    pub state_root: H256,
    pub body_root: H256,
}

/// The beacon state.
#[derive(Clone, Debug)]
pub struct BeaconState {
    // Misc
    pub slot: u64,
    pub genesis_time: u64,
    /// For versioning hard forks
    pub fork: Fork,
    // Validator registry
    pub validator_registry: Vec<Validator>,
    pub validator_balances: Vec<u64>,
    pub validator_registry_update_epoch: u64,
    // Randomness and committees
    pub latest_randao_mixes: Vec<H256>,
    pub previous_shuffling_start_shard: u64,
    pub current_shuffling_start_shard: u64,
    pub previous_shuffling_epoch: u64,
    pub current_shuffling_epoch: u64,
    pub previous_shuffling_seed: H256,
    pub current_shuffling_seed: H256,
    // Finality
    pub previous_epoch_attestations: Vec<PendingAttestation>,
    pub current_epoch_attestations: Vec<PendingAttestation>,
    pub finality: Finality,
    // Recent state
    pub latest_block_roots: Vec<H256>,
    pub latest_state_roots: Vec<H256>,
    pub latest_active_index_roots: Vec<H256>,
    /// Balances slashed at every withdrawal period
    pub latest_slashed_balances: Vec<u64>,
    pub latest_block_header: BeaconBlockHeader,
    pub historical_roots: Vec<H256>,
    // Ethereum 1.0 chain data
    pub deposit_index: u64,
}

/// Block and state roots of one historical period.
#[derive(Clone, Debug)]
pub struct HistoricalBatch {
    /// Block roots
    pub block_roots: Vec<H256>,
    /// State roots
    pub state_roots: Vec<H256>,
}

/// The epoch before `epoch` (the genesis epoch is its own predecessor).
pub open spec fn spec_previous_epoch(epoch: u64) -> u64 {
    if epoch == 0 { 0 } else { (epoch - 1) as u64 }
}

pub open spec fn spec_epoch_of(slot: u64) -> u64 {
    slot / SLOTS_PER_EPOCH
}

impl BeaconState {
    /// The state's invariants: aligned registry and balances, ordered finality
    /// checkpoints, each validator's lifecycle in order, and full rings. An
    /// epoch is justified at its last slot, just before the slot moves into
    /// the next epoch, so no checkpoint is later than the previous epoch.
    pub open spec fn wf(&self) -> bool {
        self.wf_with(spec_previous_epoch(spec_epoch_of(self.slot)))
    }

    /// The invariants, with the finality checkpoints bounded by `bound`.
    pub open spec fn wf_with(&self, bound: u64) -> bool {
        &&& self.validator_registry@.len() == self.validator_balances@.len()
        &&& self.latest_block_roots@.len() == SLOTS_PER_HISTORICAL_ROOT
        &&& self.latest_state_roots@.len() == SLOTS_PER_HISTORICAL_ROOT
        &&& self.latest_randao_mixes@.len() == LATEST_RANDAO_MIXES_LENGTH
        &&& self.finality.wf(bound)
        &&& forall|i: int| 0 <= i < self.validator_registry@.len() ==> (#[trigger] self.validator_registry@[i]).wf()
    }

    /// The epoch of the state's slot.
    pub fn current_epoch(&self) -> (r: u64)
        ensures
            r == spec_epoch_of(self.slot),
    {
        self.slot / SLOTS_PER_EPOCH
    }
}

} // verus!
