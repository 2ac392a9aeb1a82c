//! Per-slot advance, block-header processing, and the final updates of an
//! epoch transition. Roots are hash-tree roots computed by the caller's
//! Merkleization; signatures are checked by the caller's BLS verifier, whose
//! verdict is passed in.

use vstd::prelude::*;
use crate::state::{
    BeaconBlockHeader, BeaconState, H256, LATEST_RANDAO_MIXES_LENGTH, SLOTS_PER_HISTORICAL_ROOT, SLOTS_PER_EPOCH, spec_epoch_of,
};
use crate::hash::{hash_eq, is_zero};

verus! {

/// Block-header errors.
#[derive(Clone, Copy, Debug, PartialEq, Eq, Structural)]
pub enum BlockError {
    /// The block is not for the state's slot.
    WrongSlot,
    /// The block's parent is not the state's latest block header.
    WrongParent,
    /// The proposer index is out of range.
    UnknownProposer,
    /// The proposer has been slashed.
    ProposerSlashed,
    /// The proposer signature does not verify.
    BadSignature,
}

pub open spec fn zero_hash() -> Seq<u8> {
    Seq::new(32, |i: int| 0u8)
}

/// The latest block header after the state-root backfill of a slot.
pub open spec fn backfilled(h: BeaconBlockHeader, state_root: H256) -> BeaconBlockHeader {
    if h.state_root@ == zero_hash() { BeaconBlockHeader { state_root, ..h } } else { h }
}

/// `b` is `a` with only the slot, the two root rings and the latest block
/// header replaced.
pub open spec fn same_outside_slot_data(a: BeaconState, b: BeaconState) -> bool {
    b == (BeaconState {
        slot: b.slot,
        latest_block_roots: b.latest_block_roots,
        latest_state_roots: b.latest_state_roots,
        latest_block_header: b.latest_block_header,
        ..a
    })
}

/// Whether the slot after `slot` begins an epoch, so that the epoch
/// transition is due before advancing.
pub fn is_epoch_end(slot: u64) -> (r: bool)
    ensures
        r == ((slot as int + 1) % SLOTS_PER_EPOCH as int == 0),
{
    slot % SLOTS_PER_EPOCH == SLOTS_PER_EPOCH - 1
}

/// Advance the state by one slot: cache `state_root` (the root of the state
/// before the advance) in the state-root ring, backfill it into the latest
/// block header if that is still zero, cache `block_root` (the root of that
/// header after the backfill) in the block-root ring, and increment the slot.
pub fn process_slot(state: &mut BeaconState, state_root: H256, block_root: H256)
    requires
        old(state).wf(),
        old(state).slot < u64::MAX,
    ensures
        final(state).wf(),
        same_outside_slot_data(*old(state), *final(state)),
        final(state).slot == old(state).slot + 1,
        final(state).latest_state_roots@ == old(state).latest_state_roots@.update(
            (old(state).slot % SLOTS_PER_HISTORICAL_ROOT) as int,
            state_root,
        ),
        final(state).latest_block_roots@ == old(state).latest_block_roots@.update(
            (old(state).slot % SLOTS_PER_HISTORICAL_ROOT) as int,
            block_root,
        ),
        final(state).latest_block_header == backfilled(old(state).latest_block_header, state_root),
{
    cache_slot_roots(state, state_root, block_root);
    state.slot = state.slot + 1;
    assert(spec_epoch_of((state.slot - 1) as u64) <= spec_epoch_of(state.slot));
}

/// The first half of a slot advance, before any epoch transition: cache the
/// roots and backfill the header, leaving the slot as it is.
pub fn cache_slot_roots(state: &mut BeaconState, state_root: H256, block_root: H256)
    requires
        old(state).wf(),
    ensures
        final(state).wf(),
        same_outside_slot_data(*old(state), *final(state)),
        final(state).slot == old(state).slot,
        final(state).latest_state_roots@ == old(state).latest_state_roots@.update(
            (old(state).slot % SLOTS_PER_HISTORICAL_ROOT) as int,
            state_root,
        ),
        final(state).latest_block_roots@ == old(state).latest_block_roots@.update(
            (old(state).slot % SLOTS_PER_HISTORICAL_ROOT) as int,
            block_root,
        ),
        final(state).latest_block_header == backfilled(old(state).latest_block_header, state_root),
{
    let i = (state.slot % SLOTS_PER_HISTORICAL_ROOT) as usize;
    state.latest_state_roots.set(i, state_root);
    if is_zero(&state.latest_block_header.state_root) {
        state.latest_block_header.state_root = state_root;
    }
    state.latest_block_roots.set(i, block_root);
}

/// The outcome of checking `block` against the state.
pub open spec fn header_check(
    state: BeaconState,
    block: BeaconBlockHeader,
    parent_signing_root: H256,
    proposer_index: u64,
    signature_valid: bool,
) -> Result<(), BlockError> {
    if block.slot != state.slot {
        Err(BlockError::WrongSlot)
    } else if block.parent_root@ != parent_signing_root@ {
        Err(BlockError::WrongParent)
    } else if proposer_index >= state.validator_registry@.len() {
        Err(BlockError::UnknownProposer)
    } else if state.validator_registry@[proposer_index as int].slashed {
        Err(BlockError::ProposerSlashed)
    } else if !signature_valid {
        Err(BlockError::BadSignature)
    } else {
        Ok(())
    }
}

/// Check a block header against the state and make it the latest block
/// header, with its state root zeroed (to be backfilled at the next slot).
/// `parent_signing_root` is the signing root of the state's latest block
/// header; `signature_valid` is the verifier's verdict on the proposer's
/// signature. On error the state is unchanged.
pub fn process_block_header(
    state: &mut BeaconState,
    block: &BeaconBlockHeader,
    parent_signing_root: H256,
    proposer_index: u64,
    signature_valid: bool,
) -> (r: Result<(), BlockError>)
    requires
        old(state).wf(),
    ensures
        final(state).wf(),
        r == header_check(*old(state), *block, parent_signing_root, proposer_index, signature_valid),
        r is Err ==> *final(state) == *old(state),
        r is Ok ==> *final(state) == (BeaconState { latest_block_header: final(state).latest_block_header, ..*old(state) })
            && final(state).latest_block_header.slot == block.slot
            && final(state).latest_block_header.parent_root == block.parent_root
            && final(state).latest_block_header.body_root == block.body_root
            && final(state).latest_block_header.state_root@ == zero_hash(),
{
    if block.slot != state.slot {
        return Err(BlockError::WrongSlot);
    }
    if !hash_eq(&block.parent_root, &parent_signing_root) {
        return Err(BlockError::WrongParent);
    }
    if proposer_index >= state.validator_registry.len() as u64 {
        return Err(BlockError::UnknownProposer);
    }
    if state.validator_registry[proposer_index as usize].slashed {
        return Err(BlockError::ProposerSlashed);
    }
    if !signature_valid {
        return Err(BlockError::BadSignature);
    }
    let zero: H256 = [0u8; 32];
    assert(zero@ =~= zero_hash());
    state.latest_block_header = BeaconBlockHeader {
        slot: block.slot,
        parent_root: block.parent_root,
        state_root: zero,
        body_root: block.body_root,
    };
    Ok(())
}

/// Epochs covered by one historical batch of block and state roots.
pub const EPOCHS_PER_HISTORICAL_BATCH: u64 = 128;

/// Apply the final updates of the epoch boundary at `epoch`: the current
/// epoch's attestations become the previous epoch's and the current list is
/// emptied; the next epoch's randao mix starts as a copy of this epoch's; at
/// the end of a historical batch, `batch_root` (the root of the batch of
/// block and state roots) is appended to `historical_roots`.
pub fn process_final_updates(state: &mut BeaconState, epoch: u64, batch_root: H256)
    requires
        old(state).latest_randao_mixes@.len() == LATEST_RANDAO_MIXES_LENGTH,
        epoch < u64::MAX,
    ensures
        forall|b: u64| #[trigger] old(state).wf_with(b) ==> final(state).wf_with(b),
        old(state).wf() ==> final(state).wf(),
        final(state).previous_epoch_attestations == old(state).current_epoch_attestations,
        final(state).current_epoch_attestations@.len() == 0,
        final(state).latest_randao_mixes@ == old(state).latest_randao_mixes@.update(
            (epoch as int + 1) % (LATEST_RANDAO_MIXES_LENGTH as int),
            old(state).latest_randao_mixes@[(epoch % LATEST_RANDAO_MIXES_LENGTH) as int],
        ),
        (epoch as int + 1) % (EPOCHS_PER_HISTORICAL_BATCH as int) == 0 ==> final(state).historical_roots@ == old(state).historical_roots@.push(batch_root),
        (epoch as int + 1) % (EPOCHS_PER_HISTORICAL_BATCH as int) != 0 ==> final(state).historical_roots@ == old(state).historical_roots@,
        *final(state) == (BeaconState {
            previous_epoch_attestations: final(state).previous_epoch_attestations,
            current_epoch_attestations: final(state).current_epoch_attestations,
            latest_randao_mixes: final(state).latest_randao_mixes,
            historical_roots: final(state).historical_roots,
            ..*old(state)
        }),
{
    std::mem::swap(&mut state.previous_epoch_attestations, &mut state.current_epoch_attestations);
    state.current_epoch_attestations = Vec::new();
    let mix = state.latest_randao_mixes[(epoch % LATEST_RANDAO_MIXES_LENGTH) as usize];
    state.latest_randao_mixes.set(((epoch + 1) % LATEST_RANDAO_MIXES_LENGTH) as usize, mix);
    if (epoch + 1) % EPOCHS_PER_HISTORICAL_BATCH == 0 {
        state.historical_roots.push(batch_root);
    }
}

} // verus!
