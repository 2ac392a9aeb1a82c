//! Block operations on the validator registry: the exit queue, slashing, and
//! attester slashings.

use vstd::prelude::*;
use crate::state::{BeaconBlockHeader, Validator, Checkpoint, H256, FAR_FUTURE_EPOCH, active_ids, active_validator_indices};
use crate::hash::hash_eq;
use crate::reward::sat;

verus! {

/// Epochs between the current one and the earliest activation or exit, less one.
pub const MAX_SEED_LOOKAHEAD: u64 = 4;
/// Activations or exits allowed per epoch, at the least.
pub const MIN_PER_EPOCH_CHURN_LIMIT: u64 = 4;
/// Active validators per unit of churn above the minimum.
pub const CHURN_LIMIT_QUOTIENT: u64 = 65536;
/// Epochs between exit and withdrawability.
pub const MIN_VALIDATOR_WITHDRAWABILITY_DELAY: u64 = 256;
/// A slashed validator loses this fraction of its effective balance at once.
pub const MIN_SLASHING_PENALTY_QUOTIENT: u64 = 32;
/// The whistleblower gains this fraction of the slashed effective balance.
pub const WHISTLEBLOWING_REWARD_QUOTIENT: u64 = 512;
/// Epochs a slashed validator stays before it can withdraw.
pub const LATEST_SLASHED_EXIT_LENGTH: u64 = 8192;
/// Epochs a validator must have been active before it may exit voluntarily.
pub const PERSISTENT_COMMITTEE_PERIOD: u64 = 2048;

/// Errors of block operations.
#[derive(Clone, Copy, Debug, PartialEq, Eq, Structural)]
pub enum OperationError {
    /// The two attestations are neither a double vote nor a surround vote.
    NotSlashable,
    /// No validator of the intersection could be slashed.
    NoneSlashed,
    /// A validator index is out of range.
    UnknownValidator,
    /// The exiting validator is not active.
    NotActive,
    /// The validator's exit is already queued.
    AlreadyExiting,
    /// The validator has not been active for `PERSISTENT_COMMITTEE_PERIOD` epochs.
    TooYoung,
    /// The deposit's index is not the state's next deposit index.
    WrongDepositIndex,
}

/// What an attestation votes for.
#[derive(Clone, Copy, Debug)]
pub struct AttestationData {
    pub slot: u64,
    pub source: Checkpoint,
    pub target: Checkpoint,
    pub beacon_block_root: H256,
}

/// An attestation with the indices of its attesters.
#[derive(Clone, Debug)]
pub struct IndexedAttestation {
    pub attesting_indices: Vec<u64>,
    pub data: AttestationData,
}

/// The latest exit epoch that has been set, or 0.
pub open spec fn max_exit_epoch(vals: Seq<Validator>) -> u64
    decreases vals.len(),
{
    if vals.len() == 0 {
        0
    } else {
        let m = max_exit_epoch(vals.drop_last());
        let e = vals.last().exit_epoch;
        if e != FAR_FUTURE_EPOCH && e > m { e } else { m }
    }
}

/// How many validators exit at `epoch`.
pub open spec fn exits_at(vals: Seq<Validator>, epoch: u64) -> nat
    decreases vals.len(),
{
    if vals.len() == 0 {
        0
    } else {
        exits_at(vals.drop_last(), epoch) + if vals.last().exit_epoch == epoch { 1nat } else { 0nat }
    }
}

/// `max(MIN_PER_EPOCH_CHURN_LIMIT, active_count / CHURN_LIMIT_QUOTIENT)`.
pub open spec fn churn_limit(vals: Seq<Validator>, epoch: u64) -> int {
    let c = active_ids(vals, epoch).len() as int / CHURN_LIMIT_QUOTIENT as int;
    if c > MIN_PER_EPOCH_CHURN_LIMIT as int { c } else { MIN_PER_EPOCH_CHURN_LIMIT as int }
}

/// The epoch at which a newly queued exit takes effect.
pub open spec fn exit_queue_epoch(vals: Seq<Validator>, epoch: u64) -> u64 {
    let earliest = sat(epoch + 1 + MAX_SEED_LOOKAHEAD) as u64;
    let m = max_exit_epoch(vals);
    let q = if m > earliest { m } else { earliest };
    if exits_at(vals, q) >= churn_limit(vals, epoch) { sat(q + 1) as u64 } else { q }
}

/// The validator after its exit is queued at `epoch` (unchanged if an exit is
/// already set).
pub open spec fn spec_exited(vals: Seq<Validator>, v: Validator, epoch: u64) -> Validator {
    if v.exit_epoch != FAR_FUTURE_EPOCH {
        v
    } else {
        let e = exit_queue_epoch(vals, epoch);
        Validator { exit_epoch: e, withdrawable_epoch: sat(e + MIN_VALIDATOR_WITHDRAWABILITY_DELAY) as u64, ..v }
    }
}

/// Queue the exit of validator `index`.
pub fn initiate_validator_exit(validators: &mut Vec<Validator>, index: usize, epoch: u64)
    requires
        index < old(validators)@.len(),
    ensures
        final(validators)@ == old(validators)@.update(
            index as int,
            spec_exited(old(validators)@, old(validators)@[index as int], epoch),
        ),
{
    if validators[index].exit_epoch != FAR_FUTURE_EPOCH {
        return;
    }
    let mut m: u64 = 0;
    let mut i: usize = 0;
    while i < validators.len()
        invariant
            i <= validators.len(),
            m == max_exit_epoch(validators@.take(i as int)),
        decreases validators.len() - i,
    {
        proof {
            assert(validators@.take(i + 1).drop_last() =~= validators@.take(i as int));
        }
        let e = validators[i].exit_epoch;
        if e != FAR_FUTURE_EPOCH && e > m {
            m = e;
        }
        i += 1;
    }
    proof {
        assert(validators@.take(validators@.len() as int) =~= validators@);
    }
    let earliest = epoch.saturating_add(1 + MAX_SEED_LOOKAHEAD);
    let mut q = if m > earliest { m } else { earliest };
    let mut count: u64 = 0;
    let mut i: usize = 0;
    while i < validators.len()
        invariant
            i <= validators.len(),
            count == exits_at(validators@.take(i as int), q),
            count <= i,
        decreases validators.len() - i,
    {
        proof {
            assert(validators@.take(i + 1).drop_last() =~= validators@.take(i as int));
        }
        if validators[i].exit_epoch == q {
            count += 1;
        }
        i += 1;
    }
    proof {
        assert(validators@.take(validators@.len() as int) =~= validators@);
    }
    let active = active_validator_indices(validators, epoch);
    let c = active.len() as u64 / CHURN_LIMIT_QUOTIENT;
    let limit = if c > MIN_PER_EPOCH_CHURN_LIMIT { c } else { MIN_PER_EPOCH_CHURN_LIMIT };
    if count >= limit {
        q = q.saturating_add(1);
    }
    let mut v = validators[index];
    v.exit_epoch = q;
    v.withdrawable_epoch = q.saturating_add(MIN_VALIDATOR_WITHDRAWABILITY_DELAY);
    validators.set(index, v);
}

/// Whether the validator can be slashed at `epoch`.
pub open spec fn slashable(v: Validator, epoch: u64) -> bool {
    !v.slashed && v.activation_epoch <= epoch && epoch < v.withdrawable_epoch
}

/// `a - b`, or zero.
pub open spec fn sub_floor(a: u64, b: u64) -> u64 {
    if b >= a { 0 } else { (a - b) as u64 }
}

/// The registry and balances after slashing `index` at `epoch`, with the
/// whistleblower reward going to `whistleblower`. A validator that cannot be
/// slashed (among them one already slashed) leaves both unchanged.
pub open spec fn spec_slash(
    vals: Seq<Validator>,
    bals: Seq<u64>,
    index: int,
    whistleblower: int,
    epoch: u64,
) -> (Seq<Validator>, Seq<u64>) {
    let v = vals[index];
    if !slashable(v, epoch) {
        (vals, bals)
    } else {
        let exited = spec_exited(vals, v, epoch);
        let floor = sat(epoch + LATEST_SLASHED_EXIT_LENGTH) as u64;
        let slashed = Validator {
            slashed: true,
            withdrawable_epoch: if exited.withdrawable_epoch > floor { exited.withdrawable_epoch } else { floor },
            ..exited
        };
        let penalty = v.effective_balance / MIN_SLASHING_PENALTY_QUOTIENT;
        let reward = v.effective_balance / WHISTLEBLOWING_REWARD_QUOTIENT;
        let bals1 = bals.update(index, sub_floor(bals[index], penalty));
        let bals2 = bals1.update(whistleblower, sat(bals1[whistleblower] + reward) as u64);
        (vals.update(index, slashed), bals2)
    }
}

/// Slash validator `index`: queue its exit, mark it slashed, push its
/// withdrawable epoch out, burn `effective_balance / MIN_SLASHING_PENALTY_QUOTIENT`
/// and reward the whistleblower. Returns whether it was slashed; slashing a
/// validator that is already slashed changes nothing.
pub fn slash_validator(
    validators: &mut Vec<Validator>,
    balances: &mut Vec<u64>,
    index: usize,
    whistleblower: usize,
    epoch: u64,
) -> (r: bool)
    requires
        old(validators)@.len() == old(balances)@.len(),
        index < old(validators)@.len(),
        whistleblower < old(validators)@.len(),
    ensures
        (final(validators)@, final(balances)@) == spec_slash(old(validators)@, old(balances)@, index as int, whistleblower as int, epoch),
        r == slashable(old(validators)@[index as int], epoch),
        old(validators)@[index as int].slashed ==> final(balances)@ == old(balances)@ && final(validators)@ == old(validators)@,
        final(validators)@.len() == final(balances)@.len(),
        (forall|i: int| 0 <= i < old(validators)@.len() ==> (#[trigger] old(validators)@[i]).wf())
            ==> (forall|i: int| 0 <= i < final(validators)@.len() ==> (#[trigger] final(validators)@[i]).wf()),
{
    let v = validators[index];
    if v.slashed || !(v.activation_epoch <= epoch && epoch < v.withdrawable_epoch) {
        return false;
    }
    initiate_validator_exit(validators, index, epoch);
    let mut s = validators[index];
    s.slashed = true;
    let floor = epoch.saturating_add(LATEST_SLASHED_EXIT_LENGTH);
    if floor > s.withdrawable_epoch {
        s.withdrawable_epoch = floor;
    }
    validators.set(index, s);
    let penalty = v.effective_balance / MIN_SLASHING_PENALTY_QUOTIENT;
    let reward = v.effective_balance / WHISTLEBLOWING_REWARD_QUOTIENT;
    let b = balances[index];
    balances.set(index, if penalty >= b { 0 } else { b - penalty });
    let w = balances[whistleblower];
    balances.set(whistleblower, w.saturating_add(reward));
    proof {
        let ghost vals = old(validators)@;
        let ghost e = exit_queue_epoch(vals, epoch);
        assert(v.exit_epoch == FAR_FUTURE_EPOCH ==> e >= v.activation_epoch);
    }
    true
}

/// Same target epoch, different target roots.
pub open spec fn is_double_vote(a: AttestationData, b: AttestationData) -> bool {
    a.target.epoch == b.target.epoch && a.target.root@ != b.target.root@
}

/// `a` surrounds `b`.
pub open spec fn is_surround_vote(a: AttestationData, b: AttestationData) -> bool {
    a.source.epoch < b.source.epoch && b.target.epoch < a.target.epoch
}

pub fn is_slashable_attestation_data(a: &AttestationData, b: &AttestationData) -> (r: bool)
    ensures
        r == (is_double_vote(*a, *b) || is_surround_vote(*a, *b)),
{
    (a.target.epoch == b.target.epoch && !hash_eq(&a.target.root, &b.target.root))
        || (a.source.epoch < b.source.epoch && b.target.epoch < a.target.epoch)
}

/// Slash, in order, each index of `indices` that also stands in `other` and
/// is in range; the flag tells whether any was slashed.
pub open spec fn slash_many(
    vals: Seq<Validator>,
    bals: Seq<u64>,
    indices: Seq<u64>,
    other: Seq<u64>,
    whistleblower: int,
    epoch: u64,
) -> (Seq<Validator>, Seq<u64>, bool)
    decreases indices.len(),
{
    if indices.len() == 0 {
        (vals, bals, false)
    } else {
        let prev = slash_many(vals, bals, indices.drop_last(), other, whistleblower, epoch);
        let i = indices.last();
        if other.contains(i) && i < prev.0.len() {
            let next = spec_slash(prev.0, prev.1, i as int, whistleblower, epoch);
            (next.0, next.1, prev.2 || slashable(prev.0[i as int], epoch))
        } else {
            prev
        }
    }
}

/// Where nothing was slashed, the registry and balances are as they were.
pub proof fn lemma_slash_many_none_unchanged(
    vals: Seq<Validator>,
    bals: Seq<u64>,
    indices: Seq<u64>,
    other: Seq<u64>,
    whistleblower: int,
    epoch: u64,
)
    ensures
        !slash_many(vals, bals, indices, other, whistleblower, epoch).2 ==> slash_many(
            vals,
            bals,
            indices,
            other,
            whistleblower,
            epoch,
        ).0 == vals && slash_many(vals, bals, indices, other, whistleblower, epoch).1 == bals,
    decreases indices.len(),
{
    if indices.len() > 0 {
        lemma_slash_many_none_unchanged(vals, bals, indices.drop_last(), other, whistleblower, epoch);
    }
}

fn contains_index(s: &Vec<u64>, x: u64) -> (r: bool)
    ensures
        r == s@.contains(x),
{
    let mut i: usize = 0;
    while i < s.len()
        invariant
            i <= s.len(),
            forall|j: int| 0 <= j < i ==> s@[j] != x,
        decreases s.len() - i,
    {
        if s[i] == x {
            assert(s@[i as int] == x);
            return true;
        }
        i += 1;
    }
    false
}

/// Process an attester slashing: the two attestations must be a double vote
/// or a surround vote, and every validator attesting to both is slashed.
pub fn process_attester_slashing(
    validators: &mut Vec<Validator>,
    balances: &mut Vec<u64>,
    a: &IndexedAttestation,
    b: &IndexedAttestation,
    whistleblower: usize,
    epoch: u64,
) -> (r: Result<(), OperationError>)
    requires
        old(validators)@.len() == old(balances)@.len(),
        whistleblower < old(validators)@.len(),
    ensures
        !(is_double_vote(a.data, b.data) || is_surround_vote(a.data, b.data)) ==> r == Err::<(), OperationError>(OperationError::NotSlashable)
            && final(validators)@ == old(validators)@ && final(balances)@ == old(balances)@,
        (is_double_vote(a.data, b.data) || is_surround_vote(a.data, b.data)) ==> ({
            let res = slash_many(old(validators)@, old(balances)@, a.attesting_indices@, b.attesting_indices@, whistleblower as int, epoch);
            &&& final(validators)@ == res.0
            &&& final(balances)@ == res.1
            &&& r == if res.2 { Ok::<(), OperationError>(()) } else { Err(OperationError::NoneSlashed) }
        }),
        final(validators)@.len() == final(balances)@.len(),
        final(validators)@.len() == old(validators)@.len(),
        (forall|i: int| 0 <= i < old(validators)@.len() ==> (#[trigger] old(validators)@[i]).wf())
            ==> (forall|i: int| 0 <= i < final(validators)@.len() ==> (#[trigger] final(validators)@[i]).wf()),
{
    if !is_slashable_attestation_data(&a.data, &b.data) {
        return Err(OperationError::NotSlashable);
    }
    let ghost all_wf = forall|i: int| 0 <= i < old(validators)@.len() ==> (#[trigger] old(validators)@[i]).wf();
    let indices = &a.attesting_indices;
    let mut any = false;
    let mut k: usize = 0;
    while k < indices.len()
        invariant
            k <= indices.len(),
            validators@.len() == balances@.len(),
            validators@.len() == old(validators)@.len(),
            whistleblower < validators@.len(),
            (validators@, balances@, any) == slash_many(old(validators)@, old(balances)@, indices@.take(k as int),
                b.attesting_indices@, whistleblower as int, epoch),
            all_wf ==> forall|i: int| 0 <= i < validators@.len() ==> (#[trigger] validators@[i]).wf(),
        decreases indices.len() - k,
    {
        proof {
            assert(indices@.take(k + 1).drop_last() =~= indices@.take(k as int));
        }
        let i = indices[k];
        if contains_index(&b.attesting_indices, i) && i < validators.len() as u64 {
            let slashed = slash_validator(validators, balances, i as usize, whistleblower, epoch);
            any = any || slashed;
        }
        k += 1;
    }
    proof {
        assert(indices@.take(indices@.len() as int) =~= indices@);
    }
    if any { Ok(()) } else { Err(OperationError::NoneSlashed) }
}

/// A deposit that has passed its Merkle proof.
#[derive(Clone, Copy, Debug)]
pub struct Deposit {
    /// Position of the deposit in the deposit contract.
    pub index: u64,
    pub pubkey: [u8; 48],
    pub withdrawal_credentials: H256,
    pub amount: u64,
}

/// Index of the first validator with `pubkey`, or -1.
pub open spec fn find_pubkey(vals: Seq<Validator>, pubkey: [u8; 48], i: int) -> int
    decreases vals.len() - i,
{
    if i < 0 || i >= vals.len() {
        -1
    } else if vals[i].pubkey@ == pubkey@ {
        i
    } else {
        find_pubkey(vals, pubkey, i + 1)
    }
}

proof fn lemma_find_pubkey_range(vals: Seq<Validator>, pubkey: [u8; 48], i: int)
    ensures
        -1 <= find_pubkey(vals, pubkey, i) < vals.len(),
    decreases vals.len() - i,
{
    if 0 <= i < vals.len() && vals[i].pubkey@ != pubkey@ {
        lemma_find_pubkey_range(vals, pubkey, i + 1);
    }
}

fn pubkey_eq(a: &[u8; 48], b: &[u8; 48]) -> (r: bool)
    ensures
        r == (a@ == b@),
{
    let mut i: usize = 0;
    while i < 48
        invariant
            i <= 48,
            a@.len() == 48,
            b@.len() == 48,
            forall|j: int| 0 <= j < i ==> a@[j] == b@[j],
        decreases 48 - i,
    {
        if a[i] != b[i] {
            return false;
        }
        i += 1;
    }
    assert(a@ =~= b@);
    true
}

/// A validator record for a new deposit: nothing scheduled yet.
pub open spec fn new_validator(d: Deposit) -> Validator {
    Validator {
        pubkey: d.pubkey,
        withdrawal_credentials: d.withdrawal_credentials,
        effective_balance: 0,
        slashed: false,
        activation_eligibility_epoch: FAR_FUTURE_EPOCH,
        activation_epoch: FAR_FUTURE_EPOCH,
        exit_epoch: FAR_FUTURE_EPOCH,
        withdrawable_epoch: FAR_FUTURE_EPOCH,
    }
}

/// Apply a deposit: a new public key appends a validator and a zero balance,
/// then the amount is credited (saturating) to the depositor's balance.
pub fn process_deposit(validators: &mut Vec<Validator>, balances: &mut Vec<u64>, deposit: &Deposit)
    requires
        old(validators)@.len() == old(balances)@.len(),
        old(validators)@.len() < usize::MAX,
    ensures
        find_pubkey(old(validators)@, deposit.pubkey, 0) >= 0 ==> ({
            let i = find_pubkey(old(validators)@, deposit.pubkey, 0);
            &&& final(validators)@ == old(validators)@
            &&& final(balances)@ == old(balances)@.update(i, sat(old(balances)@[i] + deposit.amount) as u64)
        }),
        find_pubkey(old(validators)@, deposit.pubkey, 0) < 0 ==> final(validators)@ == old(validators)@.push(new_validator(*deposit))
            && final(balances)@ == old(balances)@.push(deposit.amount),
        final(validators)@.len() == final(balances)@.len(),
        (forall|i: int| 0 <= i < old(validators)@.len() ==> (#[trigger] old(validators)@[i]).wf())
            ==> (forall|i: int| 0 <= i < final(validators)@.len() ==> (#[trigger] final(validators)@[i]).wf()),
{
    proof {
        lemma_find_pubkey_range(validators@, deposit.pubkey, 0);
    }
    let mut i: usize = 0;
    while i < validators.len()
        invariant
            i <= validators.len(),
            validators@ == old(validators)@,
            balances@ == old(balances)@,
            validators@.len() == balances@.len(),
            find_pubkey(validators@, deposit.pubkey, 0) == find_pubkey(validators@, deposit.pubkey, i as int),
        decreases validators.len() - i,
    {
        proof {
            lemma_find_pubkey_range(validators@, deposit.pubkey, i as int);
        }
        if pubkey_eq(&validators[i].pubkey, &deposit.pubkey) {
            let b = balances[i];
            balances.set(i, b.saturating_add(deposit.amount));
            proof {
                lemma_find_pubkey_range(validators@, deposit.pubkey, i as int);
            }
            return;
        }
        i += 1;
    }
    validators.push(Validator {
        pubkey: deposit.pubkey,
        withdrawal_credentials: deposit.withdrawal_credentials,
        effective_balance: 0,
        slashed: false,
        activation_eligibility_epoch: FAR_FUTURE_EPOCH,
        activation_epoch: FAR_FUTURE_EPOCH,
        exit_epoch: FAR_FUTURE_EPOCH,
        withdrawable_epoch: FAR_FUTURE_EPOCH,
    });
    balances.push(0);
    assert(i == balances.len() - 1);
    let b = balances[i];
    balances.set(i, b.saturating_add(deposit.amount));
    assert(balances@ =~= old(balances)@.push(deposit.amount));
}

/// The outcome of a voluntary exit of `index` at `epoch`.
pub open spec fn exit_check(vals: Seq<Validator>, index: u64, epoch: u64) -> Result<(), OperationError> {
    if index >= vals.len() {
        Err(OperationError::UnknownValidator)
    } else if !vals[index as int].spec_is_active(epoch) {
        Err(OperationError::NotActive)
    } else if vals[index as int].exit_epoch != FAR_FUTURE_EPOCH {
        Err(OperationError::AlreadyExiting)
    } else if (epoch as int) < vals[index as int].activation_epoch as int + PERSISTENT_COMMITTEE_PERIOD as int {
        Err(OperationError::TooYoung)
    } else {
        Ok(())
    }
}

/// A voluntary exit: the validator must be active, not yet exiting, and
/// active for at least `PERSISTENT_COMMITTEE_PERIOD` epochs.
pub fn process_voluntary_exit(validators: &mut Vec<Validator>, index: u64, epoch: u64) -> (r: Result<(), OperationError>)
    ensures
        r == exit_check(old(validators)@, index, epoch),
        r is Ok ==> final(validators)@ == old(validators)@.update(
            index as int,
            spec_exited(old(validators)@, old(validators)@[index as int], epoch),
        ),
        r is Err ==> final(validators)@ == old(validators)@,
        (forall|i: int| 0 <= i < old(validators)@.len() ==> (#[trigger] old(validators)@[i]).wf())
            ==> (forall|i: int| 0 <= i < final(validators)@.len() ==> (#[trigger] final(validators)@[i]).wf()),
{
    if index >= validators.len() as u64 {
        return Err(OperationError::UnknownValidator);
    }
    let v = validators[index as usize];
    if !v.is_active(epoch) {
        return Err(OperationError::NotActive);
    }
    if v.exit_epoch != FAR_FUTURE_EPOCH {
        return Err(OperationError::AlreadyExiting);
    }
    if (epoch as u128) < v.activation_epoch as u128 + PERSISTENT_COMMITTEE_PERIOD as u128 {
        return Err(OperationError::TooYoung);
    }
    initiate_validator_exit(validators, index as usize, epoch);
    Ok(())
}

/// Two signed headers of one proposer.
#[derive(Clone, Copy, Debug)]
pub struct ProposerSlashing {
    pub proposer_index: u64,
    pub header_1: BeaconBlockHeader,
    pub header_2: BeaconBlockHeader,
}

/// Two headers for the same slot that are not the same header.
pub open spec fn is_double_proposal(h1: BeaconBlockHeader, h2: BeaconBlockHeader) -> bool {
    h1.slot == h2.slot && (h1.parent_root@ != h2.parent_root@ || h1.state_root@ != h2.state_root@
        || h1.body_root@ != h2.body_root@)
}

/// The outcome of a proposer slashing against the registry at `epoch`.
pub open spec fn proposer_slashing_check(vals: Seq<Validator>, p: ProposerSlashing, epoch: u64) -> Result<(), OperationError> {
    if p.proposer_index >= vals.len() {
        Err(OperationError::UnknownValidator)
    } else if !is_double_proposal(p.header_1, p.header_2) {
        Err(OperationError::NotSlashable)
    } else if !slashable(vals[p.proposer_index as int], epoch) {
        Err(OperationError::NoneSlashed)
    } else {
        Ok(())
    }
}

/// Process a proposer slashing: two distinct headers for one slot by the
/// same proposer slash it, the reward going to `whistleblower`.
pub fn process_proposer_slashing(
    validators: &mut Vec<Validator>,
    balances: &mut Vec<u64>,
    p: &ProposerSlashing,
    whistleblower: usize,
    epoch: u64,
) -> (r: Result<(), OperationError>)
    requires
        old(validators)@.len() == old(balances)@.len(),
        whistleblower < old(validators)@.len(),
    ensures
        r == proposer_slashing_check(old(validators)@, *p, epoch),
        r is Err ==> final(validators)@ == old(validators)@ && final(balances)@ == old(balances)@,
        r is Ok ==> (final(validators)@, final(balances)@) == spec_slash(
            old(validators)@,
            old(balances)@,
            p.proposer_index as int,
            whistleblower as int,
            epoch,
        ),
        final(validators)@.len() == final(balances)@.len(),
        (forall|i: int| 0 <= i < old(validators)@.len() ==> (#[trigger] old(validators)@[i]).wf())
            ==> (forall|i: int| 0 <= i < final(validators)@.len() ==> (#[trigger] final(validators)@[i]).wf()),
{
    if p.proposer_index >= validators.len() as u64 {
        return Err(OperationError::UnknownValidator);
    }
    let h1 = &p.header_1;
    let h2 = &p.header_2;
    if !(h1.slot == h2.slot && (!hash_eq(&h1.parent_root, &h2.parent_root) || !hash_eq(&h1.state_root, &h2.state_root)
        || !hash_eq(&h1.body_root, &h2.body_root))) {
        return Err(OperationError::NotSlashable);
    }
    if slash_validator(validators, balances, p.proposer_index as usize, whistleblower, epoch) {
        Ok(())
    } else {
        Err(OperationError::NoneSlashed)
    }
}

} // verus!
