//! Registry updates at an epoch boundary: eligibility for activation,
//! ejection of validators whose balance fell too low, and activation of the
//! queue head up to the churn limit.

use vstd::prelude::*;
use crate::state::{Validator, FAR_FUTURE_EPOCH, active_validator_indices};
use crate::operations::{churn_limit, initiate_validator_exit, spec_exited, MAX_SEED_LOOKAHEAD};
use crate::reward::sat;

verus! {

/// A full deposit, in Gwei.
pub const MAX_EFFECTIVE_BALANCE: u64 = 32_000_000_000;
/// Active validators at or below this effective balance are ejected.
pub const EJECTION_BALANCE: u64 = 16_000_000_000;

/// A validator with a full deposit becomes eligible for activation at `epoch`.
pub open spec fn mark_eligible(v: Validator, epoch: u64) -> Validator {
    if v.activation_eligibility_epoch == FAR_FUTURE_EPOCH && v.effective_balance == MAX_EFFECTIVE_BALANCE {
        Validator { activation_eligibility_epoch: epoch, ..v }
    } else {
        v
    }
}

/// Queue the exit of each of the first `k` validators that is active with a
/// balance at or below `EJECTION_BALANCE`, in index order.
pub open spec fn eject(vals: Seq<Validator>, epoch: u64, k: int) -> Seq<Validator>
    decreases k,
{
    if k <= 0 {
        vals
    } else {
        let prev = eject(vals, epoch, k - 1);
        let v = prev[k - 1];
        if v.spec_is_active(epoch) && v.effective_balance <= EJECTION_BALANCE {
            prev.update(k - 1, spec_exited(prev, v, epoch))
        } else {
            prev
        }
    }
}

/// Waiting for activation: eligible by `epoch` and not yet scheduled.
pub open spec fn in_queue(v: Validator, epoch: u64) -> bool {
    v.activation_eligibility_epoch <= epoch && v.activation_epoch == FAR_FUTURE_EPOCH
}

/// The head of the activation queue among the first `k` validators: the
/// earliest eligibility, ties to the lower index.
pub open spec fn queue_head(vals: Seq<Validator>, epoch: u64, k: int) -> Option<int>
    decreases k,
{
    if k <= 0 || k > vals.len() {
        None
    } else {
        let p = queue_head(vals, epoch, k - 1);
        if in_queue(vals[k - 1], epoch) {
            match p {
                None => Some(k - 1),
                Some(j) => if vals[k - 1].activation_eligibility_epoch < vals[j].activation_eligibility_epoch {
                    Some(k - 1)
                } else {
                    p
                },
            }
        } else {
            p
        }
    }
}

/// Activate the queue head, `rounds` times.
pub open spec fn activate(vals: Seq<Validator>, epoch: u64, rounds: nat) -> Seq<Validator>
    decreases rounds,
{
    if rounds == 0 {
        vals
    } else {
        let prev = activate(vals, epoch, (rounds - 1) as nat);
        match queue_head(prev, epoch, prev.len() as int) {
            None => prev,
            Some(h) => prev.update(h, Validator { activation_epoch: sat(epoch + 1 + MAX_SEED_LOOKAHEAD) as u64, ..prev[h] }),
        }
    }
}

/// The registry after the updates at `epoch`.
pub open spec fn spec_registry_updates(vals: Seq<Validator>, epoch: u64) -> Seq<Validator> {
    let marked = Seq::new(vals.len(), |i: int| mark_eligible(vals[i], epoch));
    let ejected = eject(marked, epoch, marked.len() as int);
    activate(ejected, epoch, churn_limit(ejected, epoch) as nat)
}

pub open spec fn all_wf(vals: Seq<Validator>) -> bool {
    forall|i: int| 0 <= i < vals.len() ==> (#[trigger] vals[i]).wf()
}

proof fn lemma_eject(vals: Seq<Validator>, epoch: u64, k: int)
    requires
        0 <= k <= vals.len(),
    ensures
        eject(vals, epoch, k).len() == vals.len(),
        all_wf(vals) ==> all_wf(eject(vals, epoch, k)),
        forall|i: int| k <= i < vals.len() ==> #[trigger] eject(vals, epoch, k)[i] == vals[i],
    decreases k,
{
    if k > 0 {
        lemma_eject(vals, epoch, k - 1);
    }
}

proof fn lemma_queue_head(vals: Seq<Validator>, epoch: u64, k: int)
    ensures
        match queue_head(vals, epoch, k) {
            Some(h) => 0 <= h < k && h < vals.len() && in_queue(vals[h], epoch),
            None => true,
        },
    decreases k,
{
    if k > 0 && k <= vals.len() {
        lemma_queue_head(vals, epoch, k - 1);
    }
}

proof fn lemma_activate(vals: Seq<Validator>, epoch: u64, rounds: nat)
    ensures
        activate(vals, epoch, rounds).len() == vals.len(),
        all_wf(vals) ==> all_wf(activate(vals, epoch, rounds)),
    decreases rounds,
{
    if rounds > 0 {
        lemma_activate(vals, epoch, (rounds - 1) as nat);
        let prev = activate(vals, epoch, (rounds - 1) as nat);
        lemma_queue_head(prev, epoch, prev.len() as int);
    }
}

fn find_queue_head(vals: &Vec<Validator>, epoch: u64) -> (r: Option<usize>)
    ensures
        match r {
            Some(h) => queue_head(vals@, epoch, vals@.len() as int) == Some(h as int),
            None => queue_head(vals@, epoch, vals@.len() as int) is None,
        },
{
    let mut best: Option<usize> = None;
    let mut k: usize = 0;
    while k < vals.len()
        invariant
            k <= vals.len(),
            match best {
                Some(h) => queue_head(vals@, epoch, k as int) == Some(h as int) && h < k,
                None => queue_head(vals@, epoch, k as int) is None,
            },
        decreases vals.len() - k,
    {
        let v = vals[k];
        if v.activation_eligibility_epoch <= epoch && v.activation_epoch == FAR_FUTURE_EPOCH {
            match best {
                None => {
                    best = Some(k);
                },
                Some(j) => {
                    if v.activation_eligibility_epoch < vals[j].activation_eligibility_epoch {
                        best = Some(k);
                    }
                },
            }
        }
        k += 1;
    }
    best
}

/// Apply the registry updates at `epoch`: mark full deposits eligible, eject
/// validators at or below `EJECTION_BALANCE`, then activate the queue head
/// as many times as the churn limit allows. Lifecycle order is kept.
pub fn process_registry_updates(validators: &mut Vec<Validator>, epoch: u64)
    ensures
        final(validators)@ == spec_registry_updates(old(validators)@, epoch),
        final(validators)@.len() == old(validators)@.len(),
        all_wf(old(validators)@) ==> all_wf(final(validators)@),
{
    let ghost orig = validators@;
    let mut i: usize = 0;
    while i < validators.len()
        invariant
            i <= validators.len(),
            validators@.len() == orig.len(),
            forall|k: int| 0 <= k < i ==> #[trigger] validators@[k] == mark_eligible(orig[k], epoch),
            forall|k: int| i <= k < orig.len() ==> #[trigger] validators@[k] == orig[k],
        decreases validators.len() - i,
    {
        let mut v = validators[i];
        if v.activation_eligibility_epoch == FAR_FUTURE_EPOCH && v.effective_balance == MAX_EFFECTIVE_BALANCE {
            v.activation_eligibility_epoch = epoch;
            validators.set(i, v);
        }
        i += 1;
    }
    let ghost marked = Seq::new(orig.len(), |k: int| mark_eligible(orig[k], epoch));
    assert(validators@ =~= marked);
    assert(all_wf(orig) ==> all_wf(marked));
    let mut i: usize = 0;
    while i < validators.len()
        invariant
            i <= validators.len(),
            marked.len() == validators@.len(),
            validators@ == eject(marked, epoch, i as int),
            all_wf(orig) ==> all_wf(marked),
        decreases validators.len() - i,
    {
        proof {
            lemma_eject(marked, epoch, i as int);
            lemma_eject(marked, epoch, i as int + 1);
        }
        let v = validators[i];
        if v.is_active(epoch) && v.effective_balance <= EJECTION_BALANCE {
            initiate_validator_exit(validators, i, epoch);
        }
        i += 1;
    }
    proof {
        lemma_eject(marked, epoch, marked.len() as int);
    }
    let ghost ejected = validators@;
    let active = active_validator_indices(validators, epoch);
    let c = active.len() as u64 / crate::operations::CHURN_LIMIT_QUOTIENT;
    let limit = if c > crate::operations::MIN_PER_EPOCH_CHURN_LIMIT { c } else { crate::operations::MIN_PER_EPOCH_CHURN_LIMIT };
    let activation = epoch.saturating_add(1 + MAX_SEED_LOOKAHEAD);
    let mut round: u64 = 0;
    while round < limit
        invariant
            round <= limit,
            limit as int == churn_limit(ejected, epoch),
            activation == sat(epoch + 1 + MAX_SEED_LOOKAHEAD),
            validators@ == activate(ejected, epoch, round as nat),
        decreases limit - round,
    {
        proof {
            lemma_activate(ejected, epoch, round as nat);
            lemma_queue_head(validators@, epoch, validators@.len() as int);
        }
        if let Some(h) = find_queue_head(validators, epoch) {
            let mut v = validators[h];
            v.activation_epoch = activation;
            validators.set(h, v);
        }
        round += 1;
    }
    proof {
        lemma_activate(ejected, epoch, limit as nat);
    }
}

} // verus!
