//! Casper FFG justification and finalization at an epoch boundary.

use vstd::prelude::*;
use crate::state::{Checkpoint, Finality, H256};
use crate::state::spec_previous_epoch;

verus! {

/// What the epoch boundary computes from the attestations: the total active
/// balance, the balances that attested to the expected targets of the
/// previous and current epochs, and those epochs' boundary roots.
#[derive(Clone, Copy, Debug)]
pub struct JustificationInput {
    pub total_active_balance: u64,
    pub previous_epoch_target_balance: u64,
    pub current_epoch_target_balance: u64,
    pub previous_epoch_boundary_root: H256,
    pub current_epoch_boundary_root: H256,
}

/// At least two thirds of `total` attested.
pub open spec fn supermajority(attesting: u64, total: u64) -> bool {
    3 * (attesting as int) >= 2 * (total as int)
}

/// The checkpoint to finalize, if any, from the new bitfield and the justified
/// checkpoints before the update. The later rule takes precedence.
pub open spec fn spec_finalized(bits: u64, old_prev: Checkpoint, old_cur: Checkpoint, fin: Checkpoint, current_epoch: u64) -> Checkpoint {
    if bits & 3 == 3 && old_cur.epoch + 1 == current_epoch {
        old_cur
    } else if bits & 7 == 7 && old_cur.epoch + 2 == current_epoch {
        old_cur
    } else if (bits >> 1u64) & 3 == 3 && old_prev.epoch + 2 == current_epoch {
        old_prev
    } else if (bits >> 1u64) & 7 == 7 && old_prev.epoch + 3 == current_epoch {
        old_prev
    } else {
        fin
    }
}

/// The finality data after the boundary of `current_epoch`. The first two
/// epochs leave it as it is. Otherwise the bitfield shifts by one, the
/// previous epoch is justified (bit 1) when two thirds attested to its target,
/// then the current epoch likewise (bit 0); the old current justified
/// checkpoint becomes the previous one; finalization follows `spec_finalized`.
pub open spec fn spec_process_justification(f: Finality, current_epoch: u64, input: JustificationInput) -> Finality {
    if current_epoch <= 1 {
        f
    } else {
        let old_prev = f.previous_justified_checkpoint;
        let old_cur = f.current_justified_checkpoint;
        let bits0 = f.justification_bitfield << 1u64;
        let prev_ok = supermajority(input.previous_epoch_target_balance, input.total_active_balance);
        let cur_ok = supermajority(input.current_epoch_target_balance, input.total_active_balance);
        let cur1 = if prev_ok {
            Checkpoint { epoch: (current_epoch - 1) as u64, root: input.previous_epoch_boundary_root }
        } else {
            old_cur
        };
        let bits1 = if prev_ok { bits0 | 2 } else { bits0 };
        let cur2 = if cur_ok { Checkpoint { epoch: current_epoch, root: input.current_epoch_boundary_root } } else { cur1 };
        let bits2 = if cur_ok { bits1 | 1 } else { bits1 };
        Finality {
            previous_justified_checkpoint: old_cur,
            current_justified_checkpoint: cur2,
            justification_bitfield: bits2,
            finalized_checkpoint: spec_finalized(bits2, old_prev, old_cur, f.finalized_checkpoint, current_epoch),
        }
    }
}

fn is_supermajority(attesting: u64, total: u64) -> (r: bool)
    ensures
        r == supermajority(attesting, total),
{
    3 * (attesting as u128) >= 2 * (total as u128)
}

/// Update justification and finalization at the boundary of `current_epoch`.
pub fn process_justification_and_finalization(f: &mut Finality, current_epoch: u64, input: &JustificationInput)
    requires
        old(f).wf(spec_previous_epoch(current_epoch)),
    ensures
        *final(f) == spec_process_justification(*old(f), current_epoch, *input),
        final(f).wf(current_epoch),
        final(f).finalized_checkpoint.epoch >= old(f).finalized_checkpoint.epoch,
{
    if current_epoch <= 1 {
        return;
    }
    let old_prev = f.previous_justified_checkpoint;
    let old_cur = f.current_justified_checkpoint;
    let mut bits = f.justification_bitfield << 1u64;
    f.previous_justified_checkpoint = old_cur;
    if is_supermajority(input.previous_epoch_target_balance, input.total_active_balance) {
        f.current_justified_checkpoint = Checkpoint { epoch: current_epoch - 1, root: input.previous_epoch_boundary_root };
        bits = bits | 2;
    }
    if is_supermajority(input.current_epoch_target_balance, input.total_active_balance) {
        f.current_justified_checkpoint = Checkpoint { epoch: current_epoch, root: input.current_epoch_boundary_root };
        bits = bits | 1;
    }
    f.justification_bitfield = bits;
    if (bits >> 1u64) & 7 == 7 && current_epoch >= 3 && old_prev.epoch == current_epoch - 3 {
        f.finalized_checkpoint = old_prev;
    }
    if (bits >> 1u64) & 3 == 3 && old_prev.epoch == current_epoch - 2 {
        f.finalized_checkpoint = old_prev;
    }
    if bits & 7 == 7 && old_cur.epoch == current_epoch - 2 {
        f.finalized_checkpoint = old_cur;
    }
    if bits & 3 == 3 && old_cur.epoch == current_epoch - 1 {
        f.finalized_checkpoint = old_cur;
    }
}

/// Finality data after the boundaries of `epochs`, in order.
pub open spec fn run_justification(f: Finality, epochs: Seq<u64>, inputs: Seq<JustificationInput>) -> Finality
    decreases epochs.len(),
{
    if epochs.len() == 0 || inputs.len() == 0 {
        f
    } else {
        run_justification(
            spec_process_justification(f, epochs[0], inputs[0]),
            epochs.drop_first(),
            inputs.drop_first(),
        )
    }
}

proof fn lemma_wf_weaken(f: Finality, a: u64, b: u64)
    requires
        f.wf(a),
        a <= b,
    ensures
        f.wf(b),
{
}

proof fn lemma_process_justification(f: Finality, current_epoch: u64, input: JustificationInput)
    requires
        f.wf(spec_previous_epoch(current_epoch)),
    ensures
        spec_process_justification(f, current_epoch, input).wf(current_epoch),
        spec_process_justification(f, current_epoch, input).finalized_checkpoint.epoch >= f.finalized_checkpoint.epoch,
{
}

/// Over any run of epoch boundaries in increasing order, starting from
/// ordered finality data, the checkpoints stay ordered
/// (`finalized <= previous justified <= current justified <= epoch`) and the
/// finalized epoch never decreases.
pub proof fn lemma_finality_monotone(f: Finality, start: u64, epochs: Seq<u64>, inputs: Seq<JustificationInput>)
    requires
        f.wf(start),
        forall|i: int| 0 <= i < epochs.len() ==> start < #[trigger] epochs[i],
        forall|i: int, j: int| 0 <= i < j < epochs.len() ==> epochs[i] < epochs[j],
    ensures
        run_justification(f, epochs, inputs).finalized_checkpoint.epoch >= f.finalized_checkpoint.epoch,
        epochs.len() > 0 && inputs.len() > 0 ==> run_justification(f, epochs, inputs).wf(
            epochs[epochs.len() - 1],
        ),
        epochs.len() == 0 || inputs.len() == 0 ==> run_justification(f, epochs, inputs).wf(start),
    decreases epochs.len(),
{
    if epochs.len() > 0 && inputs.len() > 0 {
        let e = epochs[0];
        lemma_wf_weaken(f, start, spec_previous_epoch(e));
        lemma_process_justification(f, e, inputs[0]);
        let g = spec_process_justification(f, e, inputs[0]);
        let rest = epochs.drop_first();
        assert forall|i: int| 0 <= i < rest.len() implies e < #[trigger] rest[i] by {
            assert(rest[i] == epochs[i + 1]);
        }
        assert forall|i: int, j: int| 0 <= i < j < rest.len() implies rest[i] < rest[j] by {
            assert(rest[i] == epochs[i + 1] && rest[j] == epochs[j + 1]);
        }
        lemma_finality_monotone(g, e, rest, inputs.drop_first());
        if rest.len() > 0 && inputs.drop_first().len() > 0 {
            assert(rest[rest.len() - 1] == epochs[epochs.len() - 1]);
        } else {
            if rest.len() == 0 {
                assert(epochs.len() == 1);
            } else {
                lemma_wf_weaken(run_justification(g, rest, inputs.drop_first()), e, epochs[epochs.len() - 1]);
            }
        }
    }
}

} // verus!
