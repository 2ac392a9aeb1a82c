use shasper::justification::{process_justification_and_finalization, JustificationInput};
use shasper::state::{Checkpoint, Finality};

fn cp(epoch: u64, tag: u8) -> Checkpoint {
    Checkpoint { epoch, root: [tag; 32] }
}

fn genesis() -> Finality {
    Finality {
        previous_justified_checkpoint: cp(0, 0),
        current_justified_checkpoint: cp(0, 0),
        justification_bitfield: 0,
        finalized_checkpoint: cp(0, 0),
    }
}

fn input(epoch: u64, prev: u64, cur: u64, total: u64) -> JustificationInput {
    JustificationInput {
        total_active_balance: total,
        previous_epoch_target_balance: prev,
        current_epoch_target_balance: cur,
        previous_epoch_boundary_root: [(epoch - 1) as u8; 32],
        current_epoch_boundary_root: [epoch as u8; 32],
    }
}

#[test]
fn justification_cascade() {
    let mut f = genesis();
    for e in 2..=4u64 {
        process_justification_and_finalization(&mut f, e, &input(e, 64, 64, 64));
    }
    assert_eq!(f.current_justified_checkpoint.epoch, 4);
    assert_eq!(f.current_justified_checkpoint.root, [4u8; 32]);
    assert_eq!(f.previous_justified_checkpoint.epoch, 3);
    assert_eq!(f.finalized_checkpoint.epoch, 3);
    assert_eq!(f.justification_bitfield & 0xf, 0xf);
}

#[test]
fn justification_cascade_one_epoch_earlier() {
    let mut f = genesis();
    process_justification_and_finalization(&mut f, 2, &input(2, 64, 64, 64));
    assert_eq!(f.current_justified_checkpoint.epoch, 2);
    assert_eq!(f.finalized_checkpoint.epoch, 0);
    process_justification_and_finalization(&mut f, 3, &input(3, 64, 64, 64));
    assert_eq!(f.current_justified_checkpoint.epoch, 3);
    assert_eq!(f.finalized_checkpoint.epoch, 2);
}

#[test]
fn genesis_epochs_leave_finality() {
    let mut f = genesis();
    process_justification_and_finalization(&mut f, 1, &input(1, 64, 64, 64));
    assert_eq!(f.current_justified_checkpoint.epoch, 0);
    assert_eq!(f.justification_bitfield, 0);
}

#[test]
fn two_thirds_threshold() {
    let mut f = genesis();
    process_justification_and_finalization(&mut f, 2, &input(2, 42, 43, 64));
    // 3 * 42 < 2 * 64, 3 * 43 >= 2 * 64
    assert_eq!(f.current_justified_checkpoint.epoch, 2);
    assert_eq!(f.justification_bitfield, 1);
    let mut g = genesis();
    process_justification_and_finalization(&mut g, 2, &input(2, 43, 0, 64));
    assert_eq!(g.current_justified_checkpoint.epoch, 1);
    assert_eq!(g.justification_bitfield, 2);
}

#[test]
fn finalized_epoch_never_decreases() {
    let mut f = genesis();
    let mut last = 0;
    let participation = [64u64, 64, 10, 64, 0, 64, 64, 64];
    for (i, p) in participation.iter().enumerate() {
        let e = i as u64 + 2;
        process_justification_and_finalization(&mut f, e, &input(e, *p, *p, 64));
        assert!(f.finalized_checkpoint.epoch >= last);
        assert!(f.finalized_checkpoint.epoch <= f.previous_justified_checkpoint.epoch);
        assert!(f.previous_justified_checkpoint.epoch <= f.current_justified_checkpoint.epoch);
        assert!(f.current_justified_checkpoint.epoch <= e);
        last = f.finalized_checkpoint.epoch;
    }
    assert!(last > 0);
}

#[test]
fn justification_cascade_counted_at_next_boundary() {
    // attestations to epoch e are counted at the boundary of e + 1, as the previous epoch
    let mut f = genesis();
    for e in 2..=5u64 {
        process_justification_and_finalization(&mut f, e, &input(e, 64, 0, 64));
    }
    assert_eq!(f.current_justified_checkpoint.epoch, 4);
    assert_eq!(f.finalized_checkpoint.epoch, 2);
}
