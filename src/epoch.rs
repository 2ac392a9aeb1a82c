//! The epoch transition: justification and finalization, rewards and
//! penalties, registry updates, and the final updates, in that order.

use vstd::prelude::*;
use crate::state::{
    BeaconState, H256, Validator, LATEST_RANDAO_MIXES_LENGTH, SLOTS_PER_EPOCH, SLOTS_PER_HISTORICAL_ROOT, active_ids,
    active_validator_indices, spec_epoch_of, spec_previous_epoch,
};
use crate::sequence::{flat_map, lemma_flat_map_all, lemma_flat_map_take};
use crate::reward::{
    BeaconAttestation, BeaconRewardType, CasperContext, DefaultSchemeConfig, RewardAction, RewardStore, apply_rewards,
    base_divisor, beacon_rewards, casper_rewards, default_scheme_rewards, distance_positive, integer_sqrt,
    spec_apply_rewards, spec_beacon_rewards, spec_casper_rewards, spec_default_scheme_rewards, total_balance,
    total_balance_of,
};
use crate::justification::{JustificationInput, process_justification_and_finalization, spec_process_justification};
use crate::registry::{process_registry_updates, spec_registry_updates};
use crate::transition::{process_final_updates, EPOCHS_PER_HISTORICAL_BATCH};

verus! {

/// Why an epoch transition cannot compute rewards.
#[derive(Clone, Copy, Debug, PartialEq, Eq, Structural)]
pub enum EpochError {
    /// A quotient or the inclusion delay of the configuration is zero.
    InvalidConfig,
    /// The previous epoch's active balance is too small for a base reward.
    NoActiveBalance,
    /// An attestation was included at distance zero.
    ZeroInclusionDistance,
}

/// What the reward computation reads from the state at `epoch`.
pub open spec fn reward_store(state: BeaconState, attestations: Vec<BeaconAttestation>, epoch: u64) -> RewardStore {
    RewardStore {
        validators: state.validator_registry,
        balances: state.validator_balances,
        attestations,
        epoch,
    }
}

pub open spec fn beacon_of(store: RewardStore) -> Seq<(u64, BeaconRewardType)> {
    spec_beacon_rewards(store.epoch, store.validators@, store.attestations@)
}

/// Whether the default scheme can run on `store`.
pub open spec fn rewards_ready(store: RewardStore, config: DefaultSchemeConfig) -> bool {
    &&& config.base_reward_quotient > 0
    &&& config.min_attestation_inclusion_delay > 0
    &&& config.inactivity_penalty_quotient > 0
    &&& base_divisor(store, config) > 0
    &&& forall|k: int| 0 <= k < beacon_of(store).len() ==> distance_positive(#[trigger] beacon_of(store)[k].1)
}

/// The reward actions of the epoch: the default scheme over the beacon and
/// Casper classifications, with the state's finality before the update.
pub open spec fn epoch_rewards(state: BeaconState, store: RewardStore, config: DefaultSchemeConfig) -> Seq<(u64, RewardAction)> {
    let context = CasperContext {
        epoch: store.epoch,
        previous_justified_epoch: state.finality.previous_justified_checkpoint.epoch,
    };
    spec_default_scheme_rewards(
        store,
        beacon_of(store),
        spec_casper_rewards(context, store.validators@, store.attestations@),
        (store.epoch - state.finality.finalized_checkpoint.epoch) as u64,
        config,
    )
}

fn check_rewards_ready(store: &RewardStore, config: &DefaultSchemeConfig, beacon: &Vec<(u64, BeaconRewardType)>) -> (r: Result<(), EpochError>)
    requires
        beacon@ == beacon_of(*store),
    ensures
        r is Ok <==> rewards_ready(*store, *config),
        r is Err ==> !rewards_ready(*store, *config),
{
    if config.base_reward_quotient == 0 || config.min_attestation_inclusion_delay == 0 || config.inactivity_penalty_quotient == 0 {
        return Err(EpochError::InvalidConfig);
    }
    let prev = store.previous_epoch();
    let active = active_validator_indices(&store.validators, prev);
    let total = total_balance(&store.balances, &active);
    if integer_sqrt(total) / config.base_reward_quotient == 0 {
        return Err(EpochError::NoActiveBalance);
    }
    let mut k: usize = 0;
    while k < beacon.len()
        invariant
            k <= beacon.len(),
            beacon@ == beacon_of(*store),
            forall|j: int| 0 <= j < k ==> distance_positive(#[trigger] beacon@[j].1),
        decreases beacon.len() - k,
    {
        if let BeaconRewardType::InclusionDistance(d) = beacon[k].1 {
            if d == 0 {
                assert(!distance_positive(beacon@[k as int].1));
                assert(beacon_of(*store)[k as int] == beacon@[k as int]);
                return Err(EpochError::ZeroInclusionDistance);
            }
        }
        k += 1;
    }
    Ok(())
}

/// Whether some attestation of `v` targets `epoch` with a canonical target.
pub open spec fn has_canon_target(atts: Seq<BeaconAttestation>, epoch: u64, v: u64) -> bool {
    exists|i: int|
        0 <= i < atts.len() && #[trigger] atts[i].target_epoch == epoch && atts[i].validator_id == v && atts[i].is_casper_canon
}

pub open spec fn attester_entry(atts: Seq<BeaconAttestation>, epoch: u64, v: u64) -> Seq<u64> {
    if has_canon_target(atts, epoch, v) { seq![v] } else { Seq::empty() }
}

/// The validators active at `epoch` that attested to its target on the
/// canonical chain, each once, in index order.
pub open spec fn target_attesters(vals: Seq<Validator>, atts: Seq<BeaconAttestation>, epoch: u64) -> Seq<u64> {
    flat_map(active_ids(vals, epoch), |v: u64| attester_entry(atts, epoch, v))
}

/// Index in the block-root ring of the first slot of `epoch`.
pub open spec fn boundary_index(epoch: u64) -> int {
    (epoch % (SLOTS_PER_HISTORICAL_ROOT / SLOTS_PER_EPOCH)) as int * SLOTS_PER_EPOCH as int
}

/// The justification input of the boundary at `e`, from the registry, the
/// balances, the block-root ring and the attester records: the active
/// balance at `e`, the balances of the target attesters of the previous and
/// the current epoch, and the block roots at the first slots of those epochs.
pub open spec fn spec_justification_input(
    vals: Seq<Validator>,
    bals: Seq<u64>,
    roots: Seq<H256>,
    atts: Seq<BeaconAttestation>,
    e: u64,
) -> JustificationInput {
    let prev = spec_previous_epoch(e);
    JustificationInput {
        total_active_balance: total_balance_of(bals, active_ids(vals, e)) as u64,
        previous_epoch_target_balance: total_balance_of(bals, target_attesters(vals, atts, prev)) as u64,
        current_epoch_target_balance: total_balance_of(bals, target_attesters(vals, atts, e)) as u64,
        previous_epoch_boundary_root: roots[boundary_index(prev)],
        current_epoch_boundary_root: roots[boundary_index(e)],
    }
}

fn has_canon_target_exec(atts: &Vec<BeaconAttestation>, epoch: u64, v: u64) -> (r: bool)
    ensures
        r == has_canon_target(atts@, epoch, v),
{
    let mut j: usize = 0;
    while j < atts.len()
        invariant
            j <= atts.len(),
            forall|k: int| 0 <= k < j ==> !(#[trigger] atts@[k].target_epoch == epoch && atts@[k].validator_id == v
                && atts@[k].is_casper_canon),
        decreases atts.len() - j,
    {
        let a = &atts[j];
        if a.target_epoch == epoch && a.validator_id == v && a.is_casper_canon {
            return true;
        }
        j += 1;
    }
    false
}

fn collect_target_attesters(vals: &Vec<Validator>, atts: &Vec<BeaconAttestation>, epoch: u64) -> (r: Vec<u64>)
    ensures
        r@ == target_attesters(vals@, atts@, epoch),
{
    let active = active_validator_indices(vals, epoch);
    let ghost f = |v: u64| attester_entry(atts@, epoch, v);
    let mut r: Vec<u64> = Vec::new();
    let mut i: usize = 0;
    while i < active.len()
        invariant
            i <= active.len(),
            active@ == active_ids(vals@, epoch),
            r@ == flat_map(active@.take(i as int), f),
            f == |v: u64| attester_entry(atts@, epoch, v),
        decreases active.len() - i,
    {
        proof {
            lemma_flat_map_take(active@, i as int, f);
        }
        let v = active[i];
        if has_canon_target_exec(atts, epoch, v) {
            r.push(v);
        }
        assert(r@ =~= flat_map(active@.take(i + 1), f));
        i += 1;
    }
    proof {
        lemma_flat_map_all(active@, f);
    }
    r
}

fn justification_input(
    vals: &Vec<Validator>,
    bals: &Vec<u64>,
    roots: &Vec<H256>,
    atts: &Vec<BeaconAttestation>,
    e: u64,
) -> (r: JustificationInput)
    requires
        roots@.len() == SLOTS_PER_HISTORICAL_ROOT,
    ensures
        r == spec_justification_input(vals@, bals@, roots@, atts@, e),
{
    let prev = if e == 0 { 0 } else { e - 1 };
    let active = active_validator_indices(vals, e);
    let prev_attesters = collect_target_attesters(vals, atts, prev);
    let cur_attesters = collect_target_attesters(vals, atts, e);
    let ring = SLOTS_PER_HISTORICAL_ROOT / SLOTS_PER_EPOCH;
    JustificationInput {
        total_active_balance: total_balance(bals, &active),
        previous_epoch_target_balance: total_balance(bals, &prev_attesters),
        current_epoch_target_balance: total_balance(bals, &cur_attesters),
        previous_epoch_boundary_root: roots[((prev % ring) * SLOTS_PER_EPOCH) as usize],
        current_epoch_boundary_root: roots[((e % ring) * SLOTS_PER_EPOCH) as usize],
    }
}

/// Run the epoch transition at the last slot of the state's epoch `e`, with
/// the attester records that justification and rewards classify, and
/// `batch_root` for the historical roots. On error the
/// state is unchanged. On success the finality checkpoints may reach `e`
/// itself; the slot that follows moves the state into `e + 1`.
pub fn process_epoch(
    state: &mut BeaconState,
    attestations: Vec<BeaconAttestation>,
    config: &DefaultSchemeConfig,
    batch_root: H256,
) -> (r: Result<(), EpochError>)
    requires
        old(state).wf(),
        spec_epoch_of(old(state).slot) < u64::MAX,
    ensures
        ({
            let e = spec_epoch_of(old(state).slot);
            let store = reward_store(*old(state), attestations, e);
            &&& !rewards_ready(store, *config) ==> r is Err && *final(state) == *old(state)
            &&& rewards_ready(store, *config) ==> {
                &&& r is Ok
                &&& final(state).wf_with(e)
                &&& final(state).slot == old(state).slot
                &&& final(state).finality == spec_process_justification(
                    old(state).finality,
                    e,
                    spec_justification_input(
                        old(state).validator_registry@,
                        old(state).validator_balances@,
                        old(state).latest_block_roots@,
                        attestations@,
                        e,
                    ),
                )
                &&& final(state).finality.finalized_checkpoint.epoch >= old(state).finality.finalized_checkpoint.epoch
                &&& final(state).validator_balances@ == spec_apply_rewards(
                    old(state).validator_balances@,
                    epoch_rewards(*old(state), store, *config),
                )
                &&& final(state).validator_registry@ == spec_registry_updates(old(state).validator_registry@, e)
                &&& final(state).previous_epoch_attestations == old(state).current_epoch_attestations
                &&& final(state).current_epoch_attestations@.len() == 0
                &&& final(state).latest_randao_mixes@ == old(state).latest_randao_mixes@.update(
                    (e as int + 1) % (LATEST_RANDAO_MIXES_LENGTH as int),
                    old(state).latest_randao_mixes@[(e % LATEST_RANDAO_MIXES_LENGTH) as int],
                )
                &&& (e as int + 1) % (EPOCHS_PER_HISTORICAL_BATCH as int) == 0 ==> final(state).historical_roots@
                    == old(state).historical_roots@.push(batch_root)
                &&& (e as int + 1) % (EPOCHS_PER_HISTORICAL_BATCH as int) != 0 ==> final(state).historical_roots@
                    == old(state).historical_roots@
                &&& *final(state) == (BeaconState {
                    finality: final(state).finality,
                    validator_registry: final(state).validator_registry,
                    validator_balances: final(state).validator_balances,
                    previous_epoch_attestations: final(state).previous_epoch_attestations,
                    current_epoch_attestations: final(state).current_epoch_attestations,
                    latest_randao_mixes: final(state).latest_randao_mixes,
                    historical_roots: final(state).historical_roots,
                    ..*old(state)
                })
            }
        }),
{
    let e = state.current_epoch();
    let ghost old_state = *state;
    let mut store = RewardStore { validators: Vec::new(), balances: Vec::new(), attestations, epoch: e };
    std::mem::swap(&mut store.validators, &mut state.validator_registry);
    std::mem::swap(&mut store.balances, &mut state.validator_balances);
    let beacon = beacon_rewards(&store);
    match check_rewards_ready(&store, config, &beacon) {
        Err(err) => {
            std::mem::swap(&mut store.validators, &mut state.validator_registry);
            std::mem::swap(&mut store.balances, &mut state.validator_balances);
            return Err(err);
        },
        Ok(()) => {},
    }
    assert forall|k: int| 0 <= k < beacon@.len() implies distance_positive(#[trigger] beacon@[k].1) by {
        assert(beacon_of(store)[k] == beacon@[k]);
    }
    let context = CasperContext { epoch: e, previous_justified_epoch: state.finality.previous_justified_checkpoint.epoch };
    let casper = casper_rewards(&context, &store);
    let esf = e - state.finality.finalized_checkpoint.epoch;
    let input = justification_input(&store.validators, &store.balances, &state.latest_block_roots, &store.attestations, e);
    let actions = default_scheme_rewards(&store, beacon.as_slice(), casper.as_slice(), esf, config);
    std::mem::swap(&mut store.validators, &mut state.validator_registry);
    std::mem::swap(&mut store.balances, &mut state.validator_balances);
    assert(state.validator_registry == old_state.validator_registry);
    process_justification_and_finalization(&mut state.finality, e, &input);
    apply_rewards(&mut state.validator_balances, actions.as_slice());
    process_registry_updates(&mut state.validator_registry, e);
    process_final_updates(state, e, batch_root);
    Ok(())
}

} // verus!
