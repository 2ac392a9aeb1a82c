//! Beacon and Casper reward classification, and the default reward scheme.

use vstd::prelude::*;
use crate::sequence::{flat_map, lemma_flat_map_take, lemma_flat_map_all};
use crate::state::{Validator, active_ids, active_validator_indices, spec_previous_epoch};

verus! {

/// Rewards for Casper.
#[derive(Clone, Copy, Debug, PartialEq, Eq, Structural)]
pub enum CasperRewardType {
    /// The attestation has an expected source.
    ExpectedSource,
    /// The validator is active, but does not have an attestation with expected source.
    NoExpectedSource,
    /// The attestation has an expected target.
    ExpectedTarget,
    /// The validator is active, but does not have an attestation with expected target.
    NoExpectedTarget,
}

/// Rewards for beacon chain.
#[derive(Clone, Copy, Debug, PartialEq, Eq, Structural)]
pub enum BeaconRewardType {
    /// The validator attested on the expected head.
    ExpectedHead,
    /// The validator is active, but does not attest on the expected head.
    NoExpectedHead,
    /// Inclusion distance for attestations, in slots.
    InclusionDistance(u64),
}

/// A pending attestation of one validator, as the reward computation sees it.
#[derive(Clone, Copy, Debug)]
pub struct BeaconAttestation {
    pub validator_id: u64,
    pub source_epoch: u64,
    pub target_epoch: u64,
    /// Whether the target is on the canonical chain.
    pub is_casper_canon: bool,
    pub slot: u64,
    /// Whether the attested head is on the canonical chain at the attestation slot.
    pub is_slot_canon: bool,
    pub inclusion_distance: u64,
}

/// What the reward computation reads: the registry, its balances (index
/// aligned), the pending attestations, and the current epoch.
pub struct RewardStore {
    pub validators: Vec<Validator>,
    pub balances: Vec<u64>,
    pub attestations: Vec<BeaconAttestation>,
    pub epoch: u64,
}

/// The Casper view of the chain: the epoch and its previous justified epoch.
#[derive(Clone, Copy, Debug)]
pub struct CasperContext {
    pub epoch: u64,
    pub previous_justified_epoch: u64,
}

impl RewardStore {
    /// The epoch before the current one (the genesis epoch is its own predecessor).
    pub fn previous_epoch(&self) -> (r: u64)
        ensures
            r == spec_previous_epoch(self.epoch),
    {
        if self.epoch == 0 { 0 } else { self.epoch - 1 }
    }
}

/// Whether some attestation of `v` has source `source`.
pub open spec fn has_source_att(atts: Seq<BeaconAttestation>, source: u64, v: u64) -> bool {
    exists|i: int| 0 <= i < atts.len() && #[trigger] atts[i].source_epoch == source && atts[i].validator_id == v
}

/// Whether some attestation of `v` has source `source` and a canonical target.
pub open spec fn has_target_att(atts: Seq<BeaconAttestation>, source: u64, v: u64) -> bool {
    exists|i: int|
        0 <= i < atts.len() && #[trigger] atts[i].source_epoch == source && atts[i].validator_id == v
            && atts[i].is_casper_canon
}

/// Whether some attestation of `v` targets `target` with a canonical head.
pub open spec fn has_head_att(atts: Seq<BeaconAttestation>, target: u64, v: u64) -> bool {
    exists|i: int|
        0 <= i < atts.len() && #[trigger] atts[i].target_epoch == target && atts[i].validator_id == v
            && atts[i].is_slot_canon
}

pub open spec fn casper_attestation_entries(a: BeaconAttestation, source: u64) -> Seq<(u64, CasperRewardType)> {
    if a.source_epoch == source {
        if a.is_casper_canon {
            seq![(a.validator_id, CasperRewardType::ExpectedSource), (a.validator_id, CasperRewardType::ExpectedTarget)]
        } else {
            seq![(a.validator_id, CasperRewardType::ExpectedSource)]
        }
    } else {
        Seq::empty()
    }
}

pub open spec fn tag_if(v: u64, cond: bool, t: CasperRewardType) -> Seq<(u64, CasperRewardType)> {
    if cond { seq![(v, t)] } else { Seq::empty() }
}

/// The Casper classification: for each attestation with the expected source,
/// in order, `ExpectedSource` and (if its target is canonical) `ExpectedTarget`;
/// then each active validator without such an attestation as `NoExpectedSource`;
/// then each active validator without one with a canonical target as `NoExpectedTarget`.
pub open spec fn spec_casper_rewards(
    context: CasperContext,
    vals: Seq<Validator>,
    atts: Seq<BeaconAttestation>,
) -> Seq<(u64, CasperRewardType)> {
    let pj = context.previous_justified_epoch;
    let active = active_ids(vals, context.epoch);
    flat_map(atts, |a: BeaconAttestation| casper_attestation_entries(a, pj))
        + flat_map(active, |v: u64| tag_if(v, !has_source_att(atts, pj, v), CasperRewardType::NoExpectedSource))
        + flat_map(active, |v: u64| tag_if(v, !has_target_att(atts, pj, v), CasperRewardType::NoExpectedTarget))
}

fn has_source_or_target(atts: &Vec<BeaconAttestation>, source: u64, v: u64, need_canon: bool) -> (r: bool)
    ensures
        !need_canon ==> r == has_source_att(atts@, source, v),
        need_canon ==> r == has_target_att(atts@, source, v),
{
    let mut j: usize = 0;
    while j < atts.len()
        invariant
            j <= atts.len(),
            forall|k: int| 0 <= k < j ==> !(#[trigger] atts@[k].source_epoch == source && atts@[k].validator_id == v
                && (need_canon ==> atts@[k].is_casper_canon)),
        decreases atts.len() - j,
    {
        let a = &atts[j];
        if a.source_epoch == source && a.validator_id == v && (!need_canon || a.is_casper_canon) {
            return true;
        }
        j += 1;
    }
    false
}

fn push_uncovered(
    rewards: &mut Vec<(u64, CasperRewardType)>,
    active: &Vec<u64>,
    atts: &Vec<BeaconAttestation>,
    source: u64,
    need_canon: bool,
    t: CasperRewardType,
)
    ensures
        !need_canon ==> final(rewards)@ == old(rewards)@ + flat_map(active@, |v: u64| tag_if(v, !has_source_att(atts@, source, v), t)),
        need_canon ==> final(rewards)@ == old(rewards)@ + flat_map(active@, |v: u64| tag_if(v, !has_target_att(atts@, source, v), t)),
{
    let ghost f = if need_canon {
        |v: u64| tag_if(v, !has_target_att(atts@, source, v), t)
    } else {
        |v: u64| tag_if(v, !has_source_att(atts@, source, v), t)
    };
    let ghost base = rewards@;
    let mut i: usize = 0;
    while i < active.len()
        invariant
            i <= active.len(),
            rewards@ == base + flat_map(active@.take(i as int), f),
            f == (if need_canon {
                |v: u64| tag_if(v, !has_target_att(atts@, source, v), t)
            } else {
                |v: u64| tag_if(v, !has_source_att(atts@, source, v), t)
            }),
        decreases active.len() - i,
    {
        proof {
            lemma_flat_map_take(active@, i as int, f);
        }
        let v = active[i];
        if !has_source_or_target(atts, source, v, need_canon) {
            rewards.push((v, t));
        }
        assert(rewards@ =~= base + flat_map(active@.take(i + 1), f));
        i += 1;
    }
    proof {
        lemma_flat_map_all(active@, f);
    }
}

/// Classify validators for Casper rewards. This usually needs to be called
/// before the epoch advances, but after all pending attestations have been pushed.
pub fn casper_rewards(context: &CasperContext, store: &RewardStore) -> (r: Vec<(u64, CasperRewardType)>)
    ensures
        r@ == spec_casper_rewards(*context, store.validators@, store.attestations@),
{
    let pj = context.previous_justified_epoch;
    let active = active_validator_indices(&store.validators, context.epoch);
    let atts = &store.attestations;
    let ghost f = |a: BeaconAttestation| casper_attestation_entries(a, pj);
    let mut rewards: Vec<(u64, CasperRewardType)> = Vec::new();
    let mut i: usize = 0;
    while i < atts.len()
        invariant
            i <= atts.len(),
            rewards@ == flat_map(atts@.take(i as int), f),
            f == |a: BeaconAttestation| casper_attestation_entries(a, pj),
        decreases atts.len() - i,
    {
        proof {
            lemma_flat_map_take(atts@, i as int, f);
        }
        let a = &atts[i];
        if a.source_epoch == pj {
            rewards.push((a.validator_id, CasperRewardType::ExpectedSource));
            if a.is_casper_canon {
                rewards.push((a.validator_id, CasperRewardType::ExpectedTarget));
            }
        }
        assert(rewards@ =~= flat_map(atts@.take(i + 1), f));
        i += 1;
    }
    proof {
        lemma_flat_map_all(atts@, f);
    }
    push_uncovered(&mut rewards, &active, atts, pj, false, CasperRewardType::NoExpectedSource);
    push_uncovered(&mut rewards, &active, atts, pj, true, CasperRewardType::NoExpectedTarget);
    rewards
}

pub open spec fn beacon_attestation_entries(a: BeaconAttestation, target: u64) -> Seq<(u64, BeaconRewardType)> {
    if a.target_epoch == target {
        if a.is_slot_canon {
            seq![
                (a.validator_id, BeaconRewardType::InclusionDistance(a.inclusion_distance)),
                (a.validator_id, BeaconRewardType::ExpectedHead),
            ]
        } else {
            seq![(a.validator_id, BeaconRewardType::InclusionDistance(a.inclusion_distance))]
        }
    } else {
        Seq::empty()
    }
}

pub open spec fn no_head_entry(atts: Seq<BeaconAttestation>, target: u64, v: u64) -> Seq<(u64, BeaconRewardType)> {
    if has_head_att(atts, target, v) { Seq::empty() } else { seq![(v, BeaconRewardType::NoExpectedHead)] }
}

/// The beacon classification: for each attestation targeting the previous
/// epoch, in order, its `InclusionDistance` and (if its head is canonical)
/// `ExpectedHead`; then each validator active at the current epoch without
/// such a canonical-head attestation as `NoExpectedHead`.
pub open spec fn spec_beacon_rewards(
    epoch: u64,
    vals: Seq<Validator>,
    atts: Seq<BeaconAttestation>,
) -> Seq<(u64, BeaconRewardType)> {
    let prev = spec_previous_epoch(epoch);
    flat_map(atts, |a: BeaconAttestation| beacon_attestation_entries(a, prev))
        + flat_map(active_ids(vals, epoch), |v: u64| no_head_entry(atts, prev, v))
}

fn has_head(atts: &Vec<BeaconAttestation>, target: u64, v: u64) -> (r: bool)
    ensures
        r == has_head_att(atts@, target, v),
{
    let mut j: usize = 0;
    while j < atts.len()
        invariant
            j <= atts.len(),
            forall|k: int| 0 <= k < j ==> !(#[trigger] atts@[k].target_epoch == target && atts@[k].validator_id == v
                && atts@[k].is_slot_canon),
        decreases atts.len() - j,
    {
        let a = &atts[j];
        if a.target_epoch == target && a.validator_id == v && a.is_slot_canon {
            return true;
        }
        j += 1;
    }
    false
}

/// Classify validators for beacon chain rewards.
pub fn beacon_rewards(store: &RewardStore) -> (r: Vec<(u64, BeaconRewardType)>)
    ensures
        r@ == spec_beacon_rewards(store.epoch, store.validators@, store.attestations@),
{
    let prev = store.previous_epoch();
    let active = active_validator_indices(&store.validators, store.epoch);
    let atts = &store.attestations;
    let ghost f = |a: BeaconAttestation| beacon_attestation_entries(a, prev);
    let ghost g = |v: u64| no_head_entry(atts@, prev, v);
    let mut rewards: Vec<(u64, BeaconRewardType)> = Vec::new();
    let mut i: usize = 0;
    while i < atts.len()
        invariant
            i <= atts.len(),
            rewards@ == flat_map(atts@.take(i as int), f),
            f == |a: BeaconAttestation| beacon_attestation_entries(a, prev),
        decreases atts.len() - i,
    {
        proof {
            lemma_flat_map_take(atts@, i as int, f);
        }
        let a = &atts[i];
        if a.target_epoch == prev {
            rewards.push((a.validator_id, BeaconRewardType::InclusionDistance(a.inclusion_distance)));
            if a.is_slot_canon {
                rewards.push((a.validator_id, BeaconRewardType::ExpectedHead));
            }
        }
        assert(rewards@ =~= flat_map(atts@.take(i + 1), f));
        i += 1;
    }
    proof {
        lemma_flat_map_all(atts@, f);
    }
    let ghost base = rewards@;
    let mut i: usize = 0;
    while i < active.len()
        invariant
            i <= active.len(),
            rewards@ == base + flat_map(active@.take(i as int), g),
            g == |v: u64| no_head_entry(atts@, prev, v),
        decreases active.len() - i,
    {
        proof {
            lemma_flat_map_take(active@, i as int, g);
        }
        let v = active[i];
        if !has_head(atts, prev, v) {
            rewards.push((v, BeaconRewardType::NoExpectedHead));
        }
        assert(rewards@ =~= base + flat_map(active@.take(i + 1), g));
        i += 1;
    }
    proof {
        lemma_flat_map_all(active@, g);
    }
    rewards
}

/// Config for default reward scheme.
#[derive(Clone, Copy, Debug)]
pub struct DefaultSchemeConfig {
    /// Base reward quotient.
    pub base_reward_quotient: u64,
    /// Inactivity penalty quotient.
    pub inactivity_penalty_quotient: u64,
    /// Includer reward quotient.
    pub includer_reward_quotient: u64,
    /// Min attestation inclusion delay.
    pub min_attestation_inclusion_delay: u64,
    /// In leak mode, the target-class inactivity penalty falls on validators
    /// classified `NoExpectedSource` when set, and on those classified
    /// `NoExpectedTarget` when clear.
    pub leak_target_penalty_on_source: bool,
}

/// Reward action.
#[derive(Clone, Copy, Debug, PartialEq, Eq, Structural)]
pub enum RewardAction {
    /// Add to the balance.
    Add(u64),
    /// Subtract from the balance, clamping at zero.
    Sub(u64),
}

/// Clamp into the range of `u64`.
pub open spec fn sat(x: int) -> int {
    if x > u64::MAX { u64::MAX as int } else if x < 0 { 0 } else { x }
}

/// `a - b`, or zero where `b` exceeds `a`.
pub open spec fn sat_sub(a: int, b: int) -> int {
    if b >= a { 0 } else { a - b }
}

/// The balance of validator `v`, zero for an unknown id.
pub open spec fn bal(balances: Seq<u64>, v: u64) -> int {
    if v < balances.len() { balances[v as int] as int } else { 0 }
}

pub open spec fn sum_balances(balances: Seq<u64>, ids: Seq<u64>) -> int
    decreases ids.len(),
{
    if ids.len() == 0 { 0 } else { sum_balances(balances, ids.drop_last()) + bal(balances, ids.last()) }
}

/// The total balance of `ids`, saturating at `u64::MAX`.
pub open spec fn total_balance_of(balances: Seq<u64>, ids: Seq<u64>) -> int {
    sat(sum_balances(balances, ids))
}

/// Total balance of the validators active in the previous epoch.
pub open spec fn previous_total_balance(store: RewardStore) -> int {
    total_balance_of(store.balances@, active_ids(store.validators@, spec_previous_epoch(store.epoch)))
}

/// The divisor of the base reward: `isqrt(B_tot) / base_reward_quotient`.
pub open spec fn base_divisor(store: RewardStore, config: DefaultSchemeConfig) -> int {
    isqrt(previous_total_balance(store) as nat) as int / config.base_reward_quotient as int
}

pub open spec fn base_reward(balances: Seq<u64>, divisor: int, v: u64) -> int {
    bal(balances, v) / divisor / 5
}

pub open spec fn inactivity_penalty(balances: Seq<u64>, divisor: int, esf: u64, ipq: u64, v: u64) -> int {
    sat(base_reward(balances, divisor, v) + bal(balances, v) * esf / ipq as int / 2)
}

/// `b * num / den`, saturating.
pub open spec fn scaled(b: int, num: int, den: int) -> int {
    sat(b * num / den)
}

pub open spec fn one(v: u64, a: RewardAction) -> Seq<(u64, RewardAction)> {
    seq![(v, a)]
}

/// The validators classified `ExpectedHead`, in order.
pub open spec fn head_ids(beacon: Seq<(u64, BeaconRewardType)>) -> Seq<u64> {
    flat_map(beacon, |e: (u64, BeaconRewardType)|
        if e.1 == BeaconRewardType::ExpectedHead { seq![e.0] } else { Seq::empty() })
}

/// The validators classified `pos`, in order.
pub open spec fn class_ids(casper: Seq<(u64, CasperRewardType)>, pos: CasperRewardType) -> Seq<u64> {
    flat_map(casper, |e: (u64, CasperRewardType)| class_id_entry(pos, e))
}

pub open spec fn class_id_entry(pos: CasperRewardType, e: (u64, CasperRewardType)) -> Seq<u64> {
    if e.1 == pos { seq![e.0] } else { Seq::empty() }
}

pub open spec fn head_entry(balances: Seq<u64>, divisor: int, b_head: int, b_tot: int, e: (u64, BeaconRewardType)) -> Seq<(u64, RewardAction)> {
    let b = base_reward(balances, divisor, e.0);
    match e.1 {
        BeaconRewardType::ExpectedHead => one(e.0, RewardAction::Add(scaled(b, b_head, b_tot) as u64)),
        BeaconRewardType::NoExpectedHead => one(e.0, RewardAction::Sub(b as u64)),
        BeaconRewardType::InclusionDistance(_) => Seq::empty(),
    }
}

pub open spec fn inclusion_entry(balances: Seq<u64>, divisor: int, delay: u64, e: (u64, BeaconRewardType)) -> Seq<(u64, RewardAction)> {
    match e.1 {
        BeaconRewardType::InclusionDistance(d) => one(e.0, RewardAction::Add((base_reward(balances, divisor, e.0) / delay as int / d as int) as u64)),
        _ => Seq::empty(),
    }
}

pub open spec fn class_entry(
    balances: Seq<u64>,
    divisor: int,
    pos: CasperRewardType,
    neg: CasperRewardType,
    b_class: int,
    b_tot: int,
    e: (u64, CasperRewardType),
) -> Seq<(u64, RewardAction)> {
    let b = base_reward(balances, divisor, e.0);
    if e.1 == pos {
        one(e.0, RewardAction::Add(scaled(b, b_class, b_tot) as u64))
    } else if e.1 == neg {
        one(e.0, RewardAction::Sub(b as u64))
    } else {
        Seq::empty()
    }
}

pub open spec fn leak_head_entry(balances: Seq<u64>, divisor: int, esf: u64, ipq: u64, e: (u64, BeaconRewardType)) -> Seq<(u64, RewardAction)> {
    if e.1 == BeaconRewardType::NoExpectedHead {
        one(e.0, RewardAction::Sub(inactivity_penalty(balances, divisor, esf, ipq, e.0) as u64))
    } else {
        Seq::empty()
    }
}

pub open spec fn leak_inclusion_entry(balances: Seq<u64>, divisor: int, delay: u64, e: (u64, BeaconRewardType)) -> Seq<(u64, RewardAction)> {
    let b = base_reward(balances, divisor, e.0);
    match e.1 {
        BeaconRewardType::InclusionDistance(d) => one(e.0, RewardAction::Sub(sat_sub(b, b * delay / d as int) as u64)),
        _ => Seq::empty(),
    }
}

pub open spec fn leak_casper_entry(balances: Seq<u64>, divisor: int, esf: u64, config: DefaultSchemeConfig, e: (u64, CasperRewardType)) -> Seq<(u64, RewardAction)> {
    let target_class = if config.leak_target_penalty_on_source {
        CasperRewardType::NoExpectedSource
    } else {
        CasperRewardType::NoExpectedTarget
    };
    let p = inactivity_penalty(balances, divisor, esf, config.inactivity_penalty_quotient, e.0);
    (if e.1 == CasperRewardType::NoExpectedSource {
        one(e.0, RewardAction::Sub(base_reward(balances, divisor, e.0) as u64))
    } else {
        Seq::empty()
    }) + (if e.1 == target_class { one(e.0, RewardAction::Sub(p as u64)) } else { Seq::empty() })
}

pub open spec fn leak_active_entry(balances: Seq<u64>, divisor: int, esf: u64, ipq: u64, v: u64) -> Seq<(u64, RewardAction)> {
    let p = inactivity_penalty(balances, divisor, esf, ipq, v);
    one(v, RewardAction::Sub(sat(2 * p + base_reward(balances, divisor, v)) as u64))
}

/// Every inclusion distance is positive.
pub open spec fn distance_positive(t: BeaconRewardType) -> bool {
    match t {
        BeaconRewardType::InclusionDistance(d) => d > 0,
        _ => true,
    }
}

/// The default scheme. With `b(v)` the base reward, `B_tot` the previous
/// epoch's active balance, `B_X` the balance of the validators classified
/// correct in class `X`, and `p(v)` the inactivity penalty:
/// in normal mode (`epochs_since_finality <= 4`) the head class, then the
/// inclusion distances, then the source class, then the target class; in leak
/// mode the head penalties, the inverted inclusion rewards, the source and
/// target penalties, then the punishment of every previously active validator.
pub open spec fn spec_default_scheme_rewards(
    store: RewardStore,
    beacon: Seq<(u64, BeaconRewardType)>,
    casper: Seq<(u64, CasperRewardType)>,
    esf: u64,
    config: DefaultSchemeConfig,
) -> Seq<(u64, RewardAction)> {
    let balances = store.balances@;
    let b_tot = previous_total_balance(store);
    let divisor = base_divisor(store, config);
    let delay = config.min_attestation_inclusion_delay;
    let ipq = config.inactivity_penalty_quotient;
    if esf <= 4 {
        let b_head = total_balance_of(balances, head_ids(beacon));
        let b_source = total_balance_of(balances, class_ids(casper, CasperRewardType::ExpectedSource));
        let b_target = total_balance_of(balances, class_ids(casper, CasperRewardType::ExpectedTarget));
        flat_map(beacon, |e: (u64, BeaconRewardType)| head_entry(balances, divisor, b_head, b_tot, e))
            + flat_map(beacon, |e: (u64, BeaconRewardType)| inclusion_entry(balances, divisor, delay, e))
            + flat_map(casper, |e: (u64, CasperRewardType)|
                class_entry(balances, divisor, CasperRewardType::ExpectedSource, CasperRewardType::NoExpectedSource, b_source, b_tot, e))
            + flat_map(casper, |e: (u64, CasperRewardType)|
                class_entry(balances, divisor, CasperRewardType::ExpectedTarget, CasperRewardType::NoExpectedTarget, b_target, b_tot, e))
    } else {
        flat_map(beacon, |e: (u64, BeaconRewardType)| leak_head_entry(balances, divisor, esf, ipq, e))
            + flat_map(beacon, |e: (u64, BeaconRewardType)| leak_inclusion_entry(balances, divisor, delay, e))
            + flat_map(casper, |e: (u64, CasperRewardType)| leak_casper_entry(balances, divisor, esf, config, e))
            + flat_map(active_ids(store.validators@, spec_previous_epoch(store.epoch)), |v: u64|
                leak_active_entry(balances, divisor, esf, ipq, v))
    }
}

fn balance_of(balances: &Vec<u64>, v: u64) -> (r: u64)
    ensures
        r == bal(balances@, v),
{
    if v < balances.len() as u64 { balances[v as usize] } else { 0 }
}

/// The total balance of `ids`, saturating.
pub fn total_balance(balances: &Vec<u64>, ids: &Vec<u64>) -> (r: u64)
    ensures
        r == total_balance_of(balances@, ids@),
{
    let mut acc: u64 = 0;
    let mut i: usize = 0;
    while i < ids.len()
        invariant
            i <= ids.len(),
            acc == sat(sum_balances(balances@, ids@.take(i as int))),
            sum_balances(balances@, ids@.take(i as int)) >= 0,
        decreases ids.len() - i,
    {
        proof {
            assert(ids@.take(i + 1).drop_last() =~= ids@.take(i as int));
        }
        acc = acc.saturating_add(balance_of(balances, ids[i]));
        i += 1;
    }
    proof {
        assert(ids@.take(ids@.len() as int) =~= ids@);
    }
    acc
}

fn base_reward_of(balances: &Vec<u64>, divisor: u64, v: u64) -> (r: u64)
    requires
        divisor > 0,
    ensures
        r == base_reward(balances@, divisor as int, v),
{
    balance_of(balances, v) / divisor / 5
}

fn scale(b: u64, num: u64, den: u64) -> (r: u64)
    requires
        den > 0,
    ensures
        r == scaled(b as int, num as int, den as int),
{
    assert(b as int * num as int <= u64::MAX as int * u64::MAX as int) by (nonlinear_arith);
    let x: u128 = (b as u128 * num as u128) / den as u128;
    if x > u64::MAX as u128 { u64::MAX } else { x as u64 }
}

fn inactivity_penalty_of(balances: &Vec<u64>, divisor: u64, esf: u64, ipq: u64, v: u64) -> (r: u64)
    requires
        divisor > 0,
        ipq > 0,
    ensures
        r == inactivity_penalty(balances@, divisor as int, esf, ipq, v),
{
    let b = base_reward_of(balances, divisor, v);
    let balance = balance_of(balances, v);
    assert(balance as int * esf as int <= u64::MAX as int * u64::MAX as int) by (nonlinear_arith);
    let x: u128 = (balance as u128 * esf as u128) / ipq as u128 / 2;
    assert(x <= u64::MAX as int * u64::MAX as int / 2) by (nonlinear_arith)
        requires
            x == (balance as int * esf as int) / ipq as int / 2,
            balance as int * esf as int <= u64::MAX as int * u64::MAX as int,
            ipq > 0,
    ;
    let y: u128 = x + b as u128;
    if y > u64::MAX as u128 { u64::MAX } else { y as u64 }
}

fn collect_head_ids(beacon: &[(u64, BeaconRewardType)]) -> (r: Vec<u64>)
    ensures
        r@ == head_ids(beacon@),
{
    let ghost f = |e: (u64, BeaconRewardType)|
        if e.1 == BeaconRewardType::ExpectedHead { seq![e.0] } else { Seq::<u64>::empty() };
    let mut r: Vec<u64> = Vec::new();
    let mut i: usize = 0;
    while i < beacon.len()
        invariant
            i <= beacon.len(),
            r@ == flat_map(beacon@.take(i as int), f),
            f == |e: (u64, BeaconRewardType)|
                if e.1 == BeaconRewardType::ExpectedHead { seq![e.0] } else { Seq::<u64>::empty() },
        decreases beacon.len() - i,
    {
        proof {
            lemma_flat_map_take(beacon@, i as int, f);
        }
        let (v, t) = beacon[i];
        if t == BeaconRewardType::ExpectedHead {
            r.push(v);
        }
        assert(r@ =~= flat_map(beacon@.take(i + 1), f));
        i += 1;
    }
    proof {
        lemma_flat_map_all(beacon@, f);
    }
    r
}

fn collect_class_ids(casper: &[(u64, CasperRewardType)], pos: CasperRewardType) -> (r: Vec<u64>)
    ensures
        r@ == class_ids(casper@, pos),
{
    let ghost f = |e: (u64, CasperRewardType)| class_id_entry(pos, e);
    let mut r: Vec<u64> = Vec::new();
    let mut i: usize = 0;
    while i < casper.len()
        invariant
            i <= casper.len(),
            r@ == flat_map(casper@.take(i as int), f),
            f == |e: (u64, CasperRewardType)| class_id_entry(pos, e),
        decreases casper.len() - i,
    {
        proof {
            lemma_flat_map_take(casper@, i as int, f);
        }
        let (v, t) = casper[i];
        if t == pos {
            r.push(v);
        }
        assert(r@ =~= flat_map(casper@.take(i + 1), f));
        i += 1;
    }
    proof {
        lemma_flat_map_all(casper@, f);
    }
    r
}

fn push_head_section(
    rewards: &mut Vec<(u64, RewardAction)>,
    balances: &Vec<u64>,
    divisor: u64,
    b_head: u64,
    b_tot: u64,
    beacon: &[(u64, BeaconRewardType)],
)
    requires
        divisor > 0,
        b_tot > 0,
    ensures
        final(rewards)@ == old(rewards)@ + flat_map(beacon@, |e: (u64, BeaconRewardType)|
            head_entry(balances@, divisor as int, b_head as int, b_tot as int, e)),
{
    let ghost f = |e: (u64, BeaconRewardType)| head_entry(balances@, divisor as int, b_head as int, b_tot as int, e);
    let ghost base = rewards@;
    let mut i: usize = 0;
    while i < beacon.len()
        invariant
            i <= beacon.len(),
            divisor > 0,
            b_tot > 0,
            rewards@ == base + flat_map(beacon@.take(i as int), f),
            f == |e: (u64, BeaconRewardType)| head_entry(balances@, divisor as int, b_head as int, b_tot as int, e),
        decreases beacon.len() - i,
    {
        proof {
            lemma_flat_map_take(beacon@, i as int, f);
        }
        let (v, t) = beacon[i];
        match t {
            BeaconRewardType::ExpectedHead => {
                let b = base_reward_of(balances, divisor, v);
                rewards.push((v, RewardAction::Add(scale(b, b_head, b_tot))));
            },
            BeaconRewardType::NoExpectedHead => {
                rewards.push((v, RewardAction::Sub(base_reward_of(balances, divisor, v))));
            },
            BeaconRewardType::InclusionDistance(_) => {},
        }
        assert(rewards@ =~= base + flat_map(beacon@.take(i + 1), f));
        i += 1;
    }
    proof {
        lemma_flat_map_all(beacon@, f);
    }
}

fn push_inclusion_section(
    rewards: &mut Vec<(u64, RewardAction)>,
    balances: &Vec<u64>,
    divisor: u64,
    delay: u64,
    beacon: &[(u64, BeaconRewardType)],
)
    requires
        divisor > 0,
        delay > 0,
        forall|k: int| 0 <= k < beacon@.len() ==> distance_positive(#[trigger] beacon@[k].1),
    ensures
        final(rewards)@ == old(rewards)@ + flat_map(beacon@, |e: (u64, BeaconRewardType)|
            inclusion_entry(balances@, divisor as int, delay, e)),
{
    let ghost f = |e: (u64, BeaconRewardType)| inclusion_entry(balances@, divisor as int, delay, e);
    let ghost base = rewards@;
    let mut i: usize = 0;
    while i < beacon.len()
        invariant
            i <= beacon.len(),
            divisor > 0,
            delay > 0,
            forall|k: int| 0 <= k < beacon@.len() ==> distance_positive(#[trigger] beacon@[k].1),
            rewards@ == base + flat_map(beacon@.take(i as int), f),
            f == |e: (u64, BeaconRewardType)| inclusion_entry(balances@, divisor as int, delay, e),
        decreases beacon.len() - i,
    {
        proof {
            lemma_flat_map_take(beacon@, i as int, f);
        }
        let (v, t) = beacon[i];
        assert(distance_positive(beacon@[i as int].1));
        if let BeaconRewardType::InclusionDistance(d) = t {
            rewards.push((v, RewardAction::Add(base_reward_of(balances, divisor, v) / delay / d)));
        }
        assert(rewards@ =~= base + flat_map(beacon@.take(i + 1), f));
        i += 1;
    }
    proof {
        lemma_flat_map_all(beacon@, f);
    }
}

fn push_class_section(
    rewards: &mut Vec<(u64, RewardAction)>,
    balances: &Vec<u64>,
    divisor: u64,
    pos: CasperRewardType,
    neg: CasperRewardType,
    b_class: u64,
    b_tot: u64,
    casper: &[(u64, CasperRewardType)],
)
    requires
        divisor > 0,
        b_tot > 0,
    ensures
        final(rewards)@ == old(rewards)@ + flat_map(casper@, |e: (u64, CasperRewardType)|
            class_entry(balances@, divisor as int, pos, neg, b_class as int, b_tot as int, e)),
{
    let ghost f = |e: (u64, CasperRewardType)| class_entry(balances@, divisor as int, pos, neg, b_class as int, b_tot as int, e);
    let ghost base = rewards@;
    let mut i: usize = 0;
    while i < casper.len()
        invariant
            i <= casper.len(),
            divisor > 0,
            b_tot > 0,
            rewards@ == base + flat_map(casper@.take(i as int), f),
            f == |e: (u64, CasperRewardType)| class_entry(balances@, divisor as int, pos, neg, b_class as int, b_tot as int, e),
        decreases casper.len() - i,
    {
        proof {
            lemma_flat_map_take(casper@, i as int, f);
        }
        let (v, t) = casper[i];
        if t == pos {
            let b = base_reward_of(balances, divisor, v);
            rewards.push((v, RewardAction::Add(scale(b, b_class, b_tot))));
        } else if t == neg {
            rewards.push((v, RewardAction::Sub(base_reward_of(balances, divisor, v))));
        }
        assert(rewards@ =~= base + flat_map(casper@.take(i + 1), f));
        i += 1;
    }
    proof {
        lemma_flat_map_all(casper@, f);
    }
}

fn push_leak_head_section(
    rewards: &mut Vec<(u64, RewardAction)>,
    balances: &Vec<u64>,
    divisor: u64,
    esf: u64,
    ipq: u64,
    beacon: &[(u64, BeaconRewardType)],
)
    requires
        divisor > 0,
        ipq > 0,
    ensures
        final(rewards)@ == old(rewards)@ + flat_map(beacon@, |e: (u64, BeaconRewardType)|
            leak_head_entry(balances@, divisor as int, esf, ipq, e)),
{
    let ghost f = |e: (u64, BeaconRewardType)| leak_head_entry(balances@, divisor as int, esf, ipq, e);
    let ghost base = rewards@;
    let mut i: usize = 0;
    while i < beacon.len()
        invariant
            i <= beacon.len(),
            divisor > 0,
            ipq > 0,
            rewards@ == base + flat_map(beacon@.take(i as int), f),
            f == |e: (u64, BeaconRewardType)| leak_head_entry(balances@, divisor as int, esf, ipq, e),
        decreases beacon.len() - i,
    {
        proof {
            lemma_flat_map_take(beacon@, i as int, f);
        }
        let (v, t) = beacon[i];
        if t == BeaconRewardType::NoExpectedHead {
            rewards.push((v, RewardAction::Sub(inactivity_penalty_of(balances, divisor, esf, ipq, v))));
        }
        assert(rewards@ =~= base + flat_map(beacon@.take(i + 1), f));
        i += 1;
    }
    proof {
        lemma_flat_map_all(beacon@, f);
    }
}

fn push_leak_inclusion_section(
    rewards: &mut Vec<(u64, RewardAction)>,
    balances: &Vec<u64>,
    divisor: u64,
    delay: u64,
    beacon: &[(u64, BeaconRewardType)],
)
    requires
        divisor > 0,
        forall|k: int| 0 <= k < beacon@.len() ==> distance_positive(#[trigger] beacon@[k].1),
    ensures
        final(rewards)@ == old(rewards)@ + flat_map(beacon@, |e: (u64, BeaconRewardType)|
            leak_inclusion_entry(balances@, divisor as int, delay, e)),
{
    let ghost f = |e: (u64, BeaconRewardType)| leak_inclusion_entry(balances@, divisor as int, delay, e);
    let ghost base = rewards@;
    let mut i: usize = 0;
    while i < beacon.len()
        invariant
            i <= beacon.len(),
            divisor > 0,
            forall|k: int| 0 <= k < beacon@.len() ==> distance_positive(#[trigger] beacon@[k].1),
            rewards@ == base + flat_map(beacon@.take(i as int), f),
            f == |e: (u64, BeaconRewardType)| leak_inclusion_entry(balances@, divisor as int, delay, e),
        decreases beacon.len() - i,
    {
        proof {
            lemma_flat_map_take(beacon@, i as int, f);
        }
        let (v, t) = beacon[i];
        assert(distance_positive(beacon@[i as int].1));
        if let BeaconRewardType::InclusionDistance(d) = t {
            let b = base_reward_of(balances, divisor, v);
            assert(b as int * delay as int <= u64::MAX as int * u64::MAX as int) by (nonlinear_arith);
            let x: u128 = (b as u128 * delay as u128) / d as u128;
            let penalty: u64 = if x >= b as u128 { 0 } else { b - x as u64 };
            rewards.push((v, RewardAction::Sub(penalty)));
        }
        assert(rewards@ =~= base + flat_map(beacon@.take(i + 1), f));
        i += 1;
    }
    proof {
        lemma_flat_map_all(beacon@, f);
    }
}

fn push_leak_casper_section(
    rewards: &mut Vec<(u64, RewardAction)>,
    balances: &Vec<u64>,
    divisor: u64,
    esf: u64,
    config: &DefaultSchemeConfig,
    casper: &[(u64, CasperRewardType)],
)
    requires
        divisor > 0,
        config.inactivity_penalty_quotient > 0,
    ensures
        final(rewards)@ == old(rewards)@ + flat_map(casper@, |e: (u64, CasperRewardType)|
            leak_casper_entry(balances@, divisor as int, esf, *config, e)),
{
    let ghost f = |e: (u64, CasperRewardType)| leak_casper_entry(balances@, divisor as int, esf, *config, e);
    let ghost base = rewards@;
    let target_class = if config.leak_target_penalty_on_source {
        CasperRewardType::NoExpectedSource
    } else {
        CasperRewardType::NoExpectedTarget
    };
    let mut i: usize = 0;
    while i < casper.len()
        invariant
            i <= casper.len(),
            divisor > 0,
            config.inactivity_penalty_quotient > 0,
            target_class == (if config.leak_target_penalty_on_source {
                CasperRewardType::NoExpectedSource
            } else {
                CasperRewardType::NoExpectedTarget
            }),
            rewards@ == base + flat_map(casper@.take(i as int), f),
            f == |e: (u64, CasperRewardType)| leak_casper_entry(balances@, divisor as int, esf, *config, e),
        decreases casper.len() - i,
    {
        proof {
            lemma_flat_map_take(casper@, i as int, f);
        }
        let (v, t) = casper[i];
        if t == CasperRewardType::NoExpectedSource {
            rewards.push((v, RewardAction::Sub(base_reward_of(balances, divisor, v))));
        }
        if t == target_class {
            let p = inactivity_penalty_of(balances, divisor, esf, config.inactivity_penalty_quotient, v);
            rewards.push((v, RewardAction::Sub(p)));
        }
        assert(rewards@ =~= base + flat_map(casper@.take(i + 1), f));
        i += 1;
    }
    proof {
        lemma_flat_map_all(casper@, f);
    }
}

fn push_leak_active_section(
    rewards: &mut Vec<(u64, RewardAction)>,
    balances: &Vec<u64>,
    divisor: u64,
    esf: u64,
    ipq: u64,
    active: &Vec<u64>,
)
    requires
        divisor > 0,
        ipq > 0,
    ensures
        final(rewards)@ == old(rewards)@ + flat_map(active@, |v: u64| leak_active_entry(balances@, divisor as int, esf, ipq, v)),
{
    let ghost f = |v: u64| leak_active_entry(balances@, divisor as int, esf, ipq, v);
    let ghost base = rewards@;
    let mut i: usize = 0;
    while i < active.len()
        invariant
            i <= active.len(),
            divisor > 0,
            ipq > 0,
            rewards@ == base + flat_map(active@.take(i as int), f),
            f == |v: u64| leak_active_entry(balances@, divisor as int, esf, ipq, v),
        decreases active.len() - i,
    {
        proof {
            lemma_flat_map_take(active@, i as int, f);
        }
        let v = active[i];
        let p = inactivity_penalty_of(balances, divisor, esf, ipq, v);
        let b = base_reward_of(balances, divisor, v);
        let x: u128 = 2 * p as u128 + b as u128;
        let penalty: u64 = if x > u64::MAX as u128 { u64::MAX } else { x as u64 };
        rewards.push((v, RewardAction::Sub(penalty)));
        assert(rewards@ =~= base + flat_map(active@.take(i + 1), f));
        i += 1;
    }
    proof {
        lemma_flat_map_all(active@, f);
    }
}

/// Use the default scheme for reward calculation. This only contains
/// justification and finalization rewards.
pub fn default_scheme_rewards(
    store: &RewardStore,
    beacon_rewards: &[(u64, BeaconRewardType)],
    casper_rewards: &[(u64, CasperRewardType)],
    epochs_since_finality: u64,
    config: &DefaultSchemeConfig,
) -> (r: Vec<(u64, RewardAction)>)
    requires
        config.base_reward_quotient > 0,
        base_divisor(*store, *config) > 0,
        epochs_since_finality <= 4 ==> config.min_attestation_inclusion_delay > 0,
        epochs_since_finality > 4 ==> config.inactivity_penalty_quotient > 0,
        forall|k: int| 0 <= k < beacon_rewards@.len() ==> distance_positive(#[trigger] beacon_rewards@[k].1),
    ensures
        r@ == spec_default_scheme_rewards(*store, beacon_rewards@, casper_rewards@, epochs_since_finality, *config),
{
    let previous_epoch = store.previous_epoch();
    let previous_active_validators = active_validator_indices(&store.validators, previous_epoch);
    let previous_total_balance = total_balance(&store.balances, &previous_active_validators);
    let root = integer_sqrt(previous_total_balance);
    let divisor = root / config.base_reward_quotient;
    assert(divisor as int == base_divisor(*store, *config));
    assert(root >= config.base_reward_quotient) by (nonlinear_arith)
        requires
            divisor as int == root as int / config.base_reward_quotient as int,
            divisor > 0,
            config.base_reward_quotient > 0,
    ;
    assert(previous_total_balance > 0) by (nonlinear_arith)
        requires
            root as nat * root as nat <= previous_total_balance as nat,
            root >= config.base_reward_quotient,
            config.base_reward_quotient > 0,
    ;
    let balances = &store.balances;
    let mut rewards: Vec<(u64, RewardAction)> = Vec::new();
    if epochs_since_finality <= 4 {
        let head = collect_head_ids(beacon_rewards);
        let b_head = total_balance(balances, &head);
        push_head_section(&mut rewards, balances, divisor, b_head, previous_total_balance, beacon_rewards);
        push_inclusion_section(&mut rewards, balances, divisor, config.min_attestation_inclusion_delay, beacon_rewards);

        let source = collect_class_ids(casper_rewards, CasperRewardType::ExpectedSource);
        let b_source = total_balance(balances, &source);
        push_class_section(
            &mut rewards,
            balances,
            divisor,
            CasperRewardType::ExpectedSource,
            CasperRewardType::NoExpectedSource,
            b_source,
            previous_total_balance,
            casper_rewards,
        );

        let target = collect_class_ids(casper_rewards, CasperRewardType::ExpectedTarget);
        let b_target = total_balance(balances, &target);
        push_class_section(
            &mut rewards,
            balances,
            divisor,
            CasperRewardType::ExpectedTarget,
            CasperRewardType::NoExpectedTarget,
            b_target,
            previous_total_balance,
            casper_rewards,
        );
    } else {
        let ipq = config.inactivity_penalty_quotient;
        push_leak_head_section(&mut rewards, balances, divisor, epochs_since_finality, ipq, beacon_rewards);
        push_leak_inclusion_section(&mut rewards, balances, divisor, config.min_attestation_inclusion_delay, beacon_rewards);
        push_leak_casper_section(&mut rewards, balances, divisor, epochs_since_finality, config, casper_rewards);
        // Punish all active validators.
        push_leak_active_section(&mut rewards, balances, divisor, epochs_since_finality, ipq, &previous_active_validators);
    }
    rewards
}

/// A balance after one reward action: additions saturate, subtractions clamp at zero.
pub open spec fn apply_action(b: u64, a: RewardAction) -> u64 {
    match a {
        RewardAction::Add(x) => sat(b + x) as u64,
        RewardAction::Sub(x) => sat_sub(b as int, x as int) as u64,
    }
}

/// The balances after applying `actions` in order; actions on unknown ids are skipped.
pub open spec fn spec_apply_rewards(balances: Seq<u64>, actions: Seq<(u64, RewardAction)>) -> Seq<u64>
    decreases actions.len(),
{
    if actions.len() == 0 {
        balances
    } else {
        let prev = spec_apply_rewards(balances, actions.drop_last());
        let (v, a) = actions.last();
        if v < prev.len() { prev.update(v as int, apply_action(prev[v as int], a)) } else { prev }
    }
}

proof fn lemma_apply_rewards_len(balances: Seq<u64>, actions: Seq<(u64, RewardAction)>)
    ensures
        spec_apply_rewards(balances, actions).len() == balances.len(),
    decreases actions.len(),
{
    if actions.len() > 0 {
        lemma_apply_rewards_len(balances, actions.drop_last());
    }
}

/// Apply reward actions to the balances.
pub fn apply_rewards(balances: &mut Vec<u64>, actions: &[(u64, RewardAction)])
    ensures
        final(balances)@ == spec_apply_rewards(old(balances)@, actions@),
        final(balances)@.len() == old(balances)@.len(),
{
    let mut i: usize = 0;
    while i < actions.len()
        invariant
            i <= actions.len(),
            balances@ == spec_apply_rewards(old(balances)@, actions@.take(i as int)),
        decreases actions.len() - i,
    {
        proof {
            assert(actions@.take(i + 1).drop_last() =~= actions@.take(i as int));
            lemma_apply_rewards_len(old(balances)@, actions@.take(i as int));
        }
        let (v, a) = actions[i];
        if v < balances.len() as u64 {
            let b = balances[v as usize];
            let nb = match a {
                RewardAction::Add(x) => b.saturating_add(x),
                RewardAction::Sub(x) => if x >= b { 0 } else { b - x },
            };
            balances.set(v as usize, nb);
        }
        i += 1;
    }
    proof {
        assert(actions@.take(actions@.len() as int) =~= actions@);
        lemma_apply_rewards_len(old(balances)@, actions@);
    }
}

/// The integer square root: the largest `r` with `r * r <= n`.
pub open spec fn is_isqrt(n: nat, r: nat) -> bool {
    r * r <= n && n < (r + 1) * (r + 1)
}

pub open spec fn isqrt(n: nat) -> nat {
    choose|r: nat| is_isqrt(n, r)
}

proof fn lemma_square_monotonic(a: nat, b: nat)
    requires
        a <= b,
    ensures
        a * a <= b * b,
{
    assert(a * a <= b * b) by (nonlinear_arith)
        requires
            a <= b,
    ;
}

/// Any witness of `is_isqrt` is the value of `isqrt`.
pub proof fn lemma_isqrt_unique(n: nat, r: nat)
    requires
        is_isqrt(n, r),
    ensures
        isqrt(n) == r,
{
    let s = isqrt(n);
    assert(is_isqrt(n, s));
    if s < r {
        lemma_square_monotonic(s + 1, r);
    } else if r < s {
        lemma_square_monotonic(r + 1, s);
    }
}

/// One Newton step from any positive `x` never lands below the square root.
proof fn lemma_newton_step_above(n: nat, x: nat)
    requires
        x > 0,
    ensures
        n < (((x + n / x) / 2) + 1) * (((x + n / x) / 2) + 1),
{
    let q = n / x;
    let t = (x + q) / 2 + 1;
    assert(n < (q + 1) * x) by (nonlinear_arith)
        requires
            x > 0,
            q == n / x,
    ;
    assert(n < t * t) by (nonlinear_arith)
        requires
            x > 0,
            n < (q + 1) * x,
            t == (x + q) / 2 + 1,
    ;
}

/// Integer square root by Newton iteration, stopping once the next estimate
/// no longer decreases.
pub fn integer_sqrt(n: u64) -> (r: u64)
    ensures
        is_isqrt(n as nat, r as nat),
        r as nat == isqrt(n as nat),
{
    let mut x: u64 = n;
    let mut y: u64 = ((n as u128 + 1) / 2) as u64;
    assert((n as nat) < (n as nat + 1) * (n as nat + 1)) by (nonlinear_arith);
    if n > 0 {
        assert((n as nat + n as nat / n as nat) / 2 == (n as nat + 1) / 2) by (nonlinear_arith)
            requires
                n > 0,
        ;
        proof {
            lemma_newton_step_above(n as nat, n as nat);
        }
    }
    while y < x
        invariant
            (n as nat) < (x as nat + 1) * (x as nat + 1),
            x <= n,
            n > 0 ==> x > 0,
            n > 0 ==> y as nat == (x as nat + n as nat / x as nat) / 2,
            n > 0 ==> (n as nat) < (y as nat + 1) * (y as nat + 1),
            n == 0 ==> y == 0,
        decreases x,
    {
        x = y;
        assert(x > 0) by (nonlinear_arith)
            requires
                n > 0,
                (n as nat) < (x as nat + 1) * (x as nat + 1),
        ;
        let q: u64 = n / x;
        y = ((x as u128 + q as u128) / 2) as u64;
        proof {
            lemma_newton_step_above(n as nat, x as nat);
        }
    }
    if n > 0 {
        assert(x as nat * x as nat <= n as nat) by (nonlinear_arith)
            requires
                x > 0,
                y as nat == (x as nat + n as nat / x as nat) / 2,
                y >= x,
        ;
    } else {
        assert(x == 0);
        assert(0nat * 0nat <= 0nat && 0nat < 1nat * 1nat) by (nonlinear_arith);
    }
    assert(is_isqrt(n as nat, x as nat));
    proof {
        lemma_isqrt_unique(n as nat, x as nat);
    }
    x
}

} // verus!
