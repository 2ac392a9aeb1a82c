//! The block executor over a beacon state, and the in-memory and persistent
//! holders of that state.

use vstd::prelude::*;
use crate::state::{BeaconBlockHeader, BeaconState, H256, active_ids, active_validator_indices, spec_epoch_of};
use crate::epoch::{EpochError, process_epoch};
use crate::reward::{BeaconAttestation, DefaultSchemeConfig};
use crate::transition::{cache_slot_roots, is_epoch_end, same_outside_slot_data, zero_hash};
use crate::hash::is_zero;
use crate::operations::{
    Deposit, IndexedAttestation, OperationError, process_attester_slashing, process_deposit,
    process_voluntary_exit, slash_many, is_double_vote, is_surround_vote, exit_check, spec_exited,
    find_pubkey, new_validator, lemma_slash_many_none_unchanged, ProposerSlashing, process_proposer_slashing,
    proposer_slashing_check, spec_slash,
};
use crate::reward::sat;

verus! {

/// An operation carried by a block.
#[derive(Clone, Debug)]
pub enum Transaction {
    /// Two headers for one slot by the same proposer.
    ProposerSlashing(ProposerSlashing),
    /// Two conflicting attestations.
    AttesterSlashing(IndexedAttestation, IndexedAttestation),
    /// A deposit whose proof has been checked.
    Deposit(Deposit),
    /// A voluntary exit of the validator with this index.
    VoluntaryExit(u64),
}

/// Executor errors.
#[derive(Clone, Copy, Debug, PartialEq, Eq, Structural)]
pub enum Error {
    Beacon(OperationError),
    Epoch(EpochError),
}

/// What the chain's configuration supplies to the executor: hash-tree roots,
/// and at an epoch boundary the per-attester records, which need committees
/// and shuffling. Justification, rewards and registry updates are computed
/// from them by the library.
pub trait ChainHooks {
    /// The hash-tree root of the state.
    fn state_root(&self, state: &BeaconState) -> H256;

    /// The hash-tree root of a block header.
    fn header_root(&self, header: &BeaconBlockHeader) -> H256;

    /// The root of the historical batch of the state's block and state roots.
    fn historical_batch_root(&self, state: &BeaconState) -> H256;

    /// The pending attestations, one record per attester, for the rewards.
    fn reward_attestations(&self, state: &BeaconState) -> Vec<BeaconAttestation>;

    /// The reward scheme's configuration.
    fn reward_config(&self) -> DefaultSchemeConfig;
}

impl From<OperationError> for Error {
    fn from(e: OperationError) -> (r: Error)
        ensures
            r == Error::Beacon(e),
    {
        Error::Beacon(e)
    }
}

impl vstd::std_specs::convert::FromSpecImpl<OperationError> for Error {
    open spec fn obeys_from_spec() -> bool {
        true
    }

    open spec fn from_spec(e: OperationError) -> Error {
        Error::Beacon(e)
    }
}

/// A state held in memory.
#[derive(Clone, Debug)]
pub struct MemoryState {
    state: BeaconState,
}

impl MemoryState {
    pub closed spec fn view_state(&self) -> BeaconState {
        self.state
    }

    pub fn from(state: BeaconState) -> (r: MemoryState)
        ensures
            r.view_state() == state,
    {
        MemoryState { state }
    }

    pub fn into(self) -> (r: BeaconState)
        ensures
            r == self.view_state(),
    {
        self.state
    }

    pub fn state(&self) -> (r: &BeaconState)
        ensures
            *r == self.view_state(),
    {
        &self.state
    }

    pub fn state_mut(&mut self) -> (r: &mut BeaconState)
        ensures
            *r == old(self).view_state(),
            final(self).view_state() == *final(r),
    {
        &mut self.state
    }
}

/// A state kept by the persistent backend.
#[derive(Clone, Debug)]
pub struct RocksState {
    state: BeaconState,
}

impl RocksState {
    pub closed spec fn view_state(&self) -> BeaconState {
        self.state
    }

    pub fn from(state: BeaconState) -> (r: RocksState)
        ensures
            r.view_state() == state,
    {
        RocksState { state }
    }

    pub fn into(self) -> (r: BeaconState)
        ensures
            r == self.view_state(),
    {
        self.state
    }

    pub fn state(&self) -> (r: &BeaconState)
        ensures
            *r == self.view_state(),
    {
        &self.state
    }

    pub fn state_mut(&mut self) -> (r: &mut BeaconState)
        ensures
            *r == old(self).view_state(),
            final(self).view_state() == *final(r),
    {
        &mut self.state
    }

    pub fn from_raw(state: BeaconState) -> (r: RocksState)
        ensures
            r.view_state() == state,
    {
        RocksState { state }
    }

    pub fn into_raw(self) -> (r: BeaconState)
        ensures
            r == self.view_state(),
    {
        self.state
    }
}

/// No slot from `from` up to (not including) `to` is the last of an epoch.
pub open spec fn no_epoch_end(from: u64, to: u64) -> bool {
    forall|s: u64| from <= s < to ==> #[trigger] ((s as int + 1) % 64) != 0
}

pub open spec fn is_epoch_error(r: Result<(), Error>) -> bool {
    r matches Err(Error::Epoch(_))
}

/// `b` is `a` with only the registry, the balances and the deposit index replaced.
pub open spec fn same_outside_registry(a: BeaconState, b: BeaconState) -> bool {
    b == (BeaconState {
        validator_registry: b.validator_registry,
        validator_balances: b.validator_balances,
        deposit_index: b.deposit_index,
        ..a
    })
}

/// The executor of blocks and their operations.
#[derive(Clone, Copy, Debug)]
pub struct Executor {}

impl Executor {
    /// A new executor.
    pub fn new() -> (r: Executor) {
        Executor {}
    }

    /// Advance the state slot by slot up to `target_slot`, caching roots and
    /// running the epoch transition at the last slot of each epoch. Only an
    /// epoch transition can fail, so an advance that crosses no epoch
    /// boundary succeeds and changes nothing but the slot, the two root rings
    /// and the header's state root. On an epoch error
    /// the state stands at the last slot of that epoch, its roots cached and
    /// its transition not applied.
    pub fn initialize_block<H: ChainHooks>(&self, state: &mut BeaconState, target_slot: u64, hooks: &H) -> (r: Result<(), Error>)
        requires
            old(state).wf(),
        ensures
            final(state).wf(),
            final(state).slot >= old(state).slot,
            no_epoch_end(old(state).slot, target_slot) ==> r is Ok && same_outside_slot_data(*old(state), *final(state)),
            final(state).latest_block_header.slot == old(state).latest_block_header.slot,
            final(state).latest_block_header.parent_root == old(state).latest_block_header.parent_root,
            final(state).latest_block_header.body_root == old(state).latest_block_header.body_root,
            old(state).latest_block_header.state_root@ != zero_hash() ==> final(state).latest_block_header
                == old(state).latest_block_header,
            final(state).finality.finalized_checkpoint.epoch >= old(state).finality.finalized_checkpoint.epoch,
            r is Ok ==> final(state).slot == (if old(state).slot < target_slot { target_slot } else { old(state).slot }),
            r is Err ==> final(state).slot < target_slot && is_epoch_error(r),
    {
        while state.slot < target_slot
            invariant
                state.wf(),
                state.slot >= old(state).slot,
                old(state).slot < target_slot ==> state.slot <= target_slot,
                old(state).slot >= target_slot ==> state.slot == old(state).slot,
                state.finality.finalized_checkpoint.epoch >= old(state).finality.finalized_checkpoint.epoch,
                no_epoch_end(old(state).slot, target_slot) ==> same_outside_slot_data(*old(state), *state),
                state.latest_block_header.slot == old(state).latest_block_header.slot,
                state.latest_block_header.parent_root == old(state).latest_block_header.parent_root,
                state.latest_block_header.body_root == old(state).latest_block_header.body_root,
                old(state).latest_block_header.state_root@ != zero_hash() ==> state.latest_block_header
                    == old(state).latest_block_header,
            decreases target_slot - state.slot,
        {
            let state_root = hooks.state_root(state);
            let header = if is_zero(&state.latest_block_header.state_root) {
                BeaconBlockHeader { state_root, ..state.latest_block_header }
            } else {
                state.latest_block_header
            };
            let block_root = hooks.header_root(&header);
            let ghost before = *state;
            cache_slot_roots(state, state_root, block_root);
            proof {
                if no_epoch_end(old(state).slot, target_slot) {
                    assert((before.slot as int + 1) % 64 != 0);
                }
            }
            if is_epoch_end(state.slot) {
                let attestations = hooks.reward_attestations(state);
                let config = hooks.reward_config();
                let batch_root = hooks.historical_batch_root(state);
                let ghost e = spec_epoch_of(state.slot);
                match process_epoch(state, attestations, &config, batch_root) {
                    Err(err) => {
                        return Err(Error::Epoch(err));
                    },
                    Ok(()) => {},
                }
                assert(spec_epoch_of((state.slot + 1) as u64) == e + 1);
            } else {
                assert(spec_epoch_of((state.slot + 1) as u64) == spec_epoch_of(state.slot));
            }
            state.slot = state.slot + 1;
        }
        Ok(())
    }

    /// The root of the current justified checkpoint, or `None` at genesis
    /// (zero root).
    pub fn justified_block_id(&self, state: &BeaconState) -> (r: Option<H256>)
        ensures
            state.finality.current_justified_checkpoint.root@ == Seq::new(32, |i: int| 0u8) ==> r is None,
            state.finality.current_justified_checkpoint.root@ != Seq::new(32, |i: int| 0u8) ==> r == Some(
                state.finality.current_justified_checkpoint.root,
            ),
    {
        let root = state.finality.current_justified_checkpoint.root;
        if is_zero(&root) { None } else { Some(root) }
    }

    /// The validators active at the current justified epoch.
    pub fn justified_active_validators(&self, state: &BeaconState) -> (r: Vec<u64>)
        ensures
            r@ == active_ids(state.validator_registry@, state.finality.current_justified_checkpoint.epoch),
    {
        active_validator_indices(&state.validator_registry, state.finality.current_justified_checkpoint.epoch)
    }

    /// Apply one operation of a block proposed by `proposer_index` to the
    /// state at its current epoch. Only the registry, the balances and the
    /// deposit index change, and the state's invariants are kept. On error
    /// the state is unchanged.
    pub fn apply_extrinsic(&self, state: &mut BeaconState, extrinsic: &Transaction, proposer_index: u64) -> (r: Result<(), Error>)
        requires
            old(state).wf(),
            old(state).validator_registry@.len() < usize::MAX,
            old(state).deposit_index < u64::MAX,
        ensures
            final(state).wf(),
            same_outside_registry(*old(state), *final(state)),
            r is Err ==> final(state).validator_registry@ == old(state).validator_registry@
                && final(state).validator_balances@ == old(state).validator_balances@
                && final(state).deposit_index == old(state).deposit_index,
            ({
                let vals = old(state).validator_registry@;
                let bals = old(state).validator_balances@;
                let epoch = old(state).slot / 64;
                match *extrinsic {
                    Transaction::Deposit(d) => {
                        &&& d.index != old(state).deposit_index ==> r == Err::<(), Error>(Error::Beacon(OperationError::WrongDepositIndex))
                        &&& d.index == old(state).deposit_index ==> {
                            &&& r is Ok
                            &&& final(state).deposit_index == old(state).deposit_index + 1
                            &&& find_pubkey(vals, d.pubkey, 0) >= 0 ==> final(state).validator_registry@ == vals
                                && final(state).validator_balances@ == bals.update(
                                    find_pubkey(vals, d.pubkey, 0),
                                    sat(bals[find_pubkey(vals, d.pubkey, 0)] + d.amount) as u64,
                                )
                            &&& find_pubkey(vals, d.pubkey, 0) < 0 ==> final(state).validator_registry@ == vals.push(new_validator(d))
                                && final(state).validator_balances@ == bals.push(d.amount)
                        }
                    },
                    Transaction::VoluntaryExit(index) => {
                        &&& r == match exit_check(vals, index, epoch) {
                            Ok(()) => Ok::<(), Error>(()),
                            Err(e) => Err(Error::Beacon(e)),
                        }
                        &&& r is Ok ==> final(state).validator_registry@ == vals.update(
                            index as int,
                            spec_exited(vals, vals[index as int], epoch),
                        )
                        &&& final(state).validator_balances@ == bals
                        &&& final(state).deposit_index == old(state).deposit_index
                    },
                    Transaction::ProposerSlashing(p) => {
                        &&& final(state).deposit_index == old(state).deposit_index
                        &&& proposer_index >= vals.len() ==> r == Err::<(), Error>(Error::Beacon(OperationError::UnknownValidator))
                        &&& proposer_index < vals.len() ==> r == match proposer_slashing_check(vals, p, epoch) {
                            Ok(()) => Ok::<(), Error>(()),
                            Err(e) => Err(Error::Beacon(e)),
                        }
                        &&& r is Ok ==> (final(state).validator_registry@, final(state).validator_balances@) == spec_slash(
                            vals,
                            bals,
                            p.proposer_index as int,
                            proposer_index as int,
                            epoch,
                        )
                    },
                    Transaction::AttesterSlashing(a, b) => {
                        &&& final(state).deposit_index == old(state).deposit_index
                        &&& proposer_index >= vals.len() ==> r == Err::<(), Error>(Error::Beacon(OperationError::UnknownValidator))
                        &&& proposer_index < vals.len() && !(is_double_vote(a.data, b.data) || is_surround_vote(a.data, b.data))
                            ==> r == Err::<(), Error>(Error::Beacon(OperationError::NotSlashable))
                        &&& proposer_index < vals.len() && (is_double_vote(a.data, b.data) || is_surround_vote(a.data, b.data)) ==> ({
                            let res = slash_many(vals, bals, a.attesting_indices@, b.attesting_indices@, proposer_index as int, epoch);
                            &&& res.2 ==> r is Ok && final(state).validator_registry@ == res.0 && final(state).validator_balances@ == res.1
                            &&& !res.2 ==> r == Err::<(), Error>(Error::Beacon(OperationError::NoneSlashed))
                        })
                    },
                }
            }),
    {
        let epoch = state.current_epoch();
        match extrinsic {
            Transaction::Deposit(d) => {
                if d.index != state.deposit_index {
                    return Err(Error::Beacon(OperationError::WrongDepositIndex));
                }
                process_deposit(&mut state.validator_registry, &mut state.validator_balances, d);
                state.deposit_index = state.deposit_index + 1;
                Ok(())
            },
            Transaction::VoluntaryExit(index) => {
                match process_voluntary_exit(&mut state.validator_registry, *index, epoch) {
                    Ok(()) => Ok(()),
                    Err(e) => Err(Error::from(e)),
                }
            },
            Transaction::ProposerSlashing(p) => {
                if proposer_index >= state.validator_registry.len() as u64 {
                    return Err(Error::Beacon(OperationError::UnknownValidator));
                }
                match process_proposer_slashing(
                    &mut state.validator_registry,
                    &mut state.validator_balances,
                    p,
                    proposer_index as usize,
                    epoch,
                ) {
                    Ok(()) => Ok(()),
                    Err(e) => Err(Error::Beacon(e)),
                }
            },
            Transaction::AttesterSlashing(a, b) => {
                if proposer_index >= state.validator_registry.len() as u64 {
                    return Err(Error::Beacon(OperationError::UnknownValidator));
                }
                if !is_double_vote_or_surround(a, b) {
                    return Err(Error::Beacon(OperationError::NotSlashable));
                }
                proof {
                    lemma_slash_many_none_unchanged(
                        state.validator_registry@,
                        state.validator_balances@,
                        a.attesting_indices@,
                        b.attesting_indices@,
                        proposer_index as int,
                        epoch,
                    );
                }
                match process_attester_slashing(
                    &mut state.validator_registry,
                    &mut state.validator_balances,
                    a,
                    b,
                    proposer_index as usize,
                    epoch,
                ) {
                    Ok(()) => Ok(()),
                    Err(e) => Err(Error::Beacon(e)),
                }
            },
        }
    }
}

fn is_double_vote_or_surround(a: &IndexedAttestation, b: &IndexedAttestation) -> (r: bool)
    ensures
        r == (is_double_vote(a.data, b.data) || is_surround_vote(a.data, b.data)),
{
    crate::operations::is_slashable_attestation_data(&a.data, &b.data)
}

} // verus!
