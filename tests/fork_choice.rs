use shasper::fork_choice::{BlockNode, ForkChoiceError, Store};
use shasper::state::Checkpoint;

fn root(tag: u8) -> [u8; 32] {
    let mut r = [0u8; 32];
    r[0] = tag;
    r
}

fn node(tag: u8, parent: u8, slot: u64) -> BlockNode {
    let zero = Checkpoint { epoch: 0, root: root(0xaa) };
    BlockNode { root: root(tag), parent_root: root(parent), slot, justified_checkpoint: zero, finalized_checkpoint: zero }
}

fn store(n: usize) -> Store {
    Store::new(node(0xaa, 0, 0), vec![32; n])
}

#[test]
fn tie_break_prefers_greater_root() {
    let mut s = store(2);
    s.insert_block(node(0x01, 0xaa, 1)).unwrap();
    s.insert_block(node(0x02, 0xaa, 1)).unwrap();
    assert!(s.record_attestation(0, 1, root(0x01)));
    assert!(s.record_attestation(1, 1, root(0x02)));
    assert_eq!(s.get_head(), root(0x02));
}

#[test]
fn heavier_subtree_wins() {
    let mut s = store(3);
    s.insert_block(node(0x01, 0xaa, 1)).unwrap();
    s.insert_block(node(0x02, 0xaa, 1)).unwrap();
    s.insert_block(node(0x03, 0x01, 2)).unwrap();
    s.record_attestation(0, 1, root(0x03));
    s.record_attestation(1, 1, root(0x01));
    s.record_attestation(2, 1, root(0x02));
    assert_eq!(s.block_weight(&node(0x01, 0xaa, 1)), 64);
    assert_eq!(s.get_head(), root(0x03));
    assert_eq!(s.get_head(), s.get_head());
}

#[test]
fn later_attestation_supersedes() {
    let mut a = store(1);
    a.insert_block(node(0x01, 0xaa, 1)).unwrap();
    a.insert_block(node(0x02, 0xaa, 1)).unwrap();
    let mut b = store(1);
    b.insert_block(node(0x01, 0xaa, 1)).unwrap();
    b.insert_block(node(0x02, 0xaa, 1)).unwrap();
    assert!(a.record_attestation(0, 3, root(0x02)));
    assert!(a.record_attestation(0, 4, root(0x01)));
    assert!(b.record_attestation(0, 4, root(0x01)));
    assert_eq!(a.latest_messages[0].unwrap().epoch, 4);
    assert_eq!(a.latest_messages[0].unwrap().root, b.latest_messages[0].unwrap().root);
    assert_eq!(a.get_head(), root(0x01));
}

#[test]
fn stale_attestation_is_ignored() {
    let mut s = store(1);
    assert!(s.record_attestation(0, 4, root(0x01)));
    assert!(!s.record_attestation(0, 4, root(0x02)));
    assert!(!s.record_attestation(0, 2, root(0x02)));
    assert_eq!(s.latest_messages[0].unwrap().root, root(0x01));
    assert!(!s.record_attestation(5, 9, root(0x02)));
}

#[test]
fn slashed_validator_is_forgotten() {
    let mut s = store(2);
    s.insert_block(node(0x01, 0xaa, 1)).unwrap();
    s.insert_block(node(0x02, 0xaa, 1)).unwrap();
    s.record_attestation(0, 1, root(0x01));
    s.forget_validator(0);
    assert!(s.latest_messages[0].is_none());
    assert!(!s.record_attestation(0, 9, root(0x01)));
    s.record_attestation(1, 1, root(0x01));
    assert_eq!(s.get_head(), root(0x01));
}

#[test]
fn insert_block_errors() {
    let mut s = store(1);
    assert_eq!(s.insert_block(node(0x05, 0x44, 3)), Err(ForkChoiceError::MissingAncestor));
    assert_eq!(s.insert_block(node(0x05, 0xaa, 0)), Err(ForkChoiceError::InvalidSlot));
    assert_eq!(s.blocks.len(), 1);
    let mut b = node(0x05, 0xaa, 2);
    b.justified_checkpoint = Checkpoint { epoch: 3, root: root(0x05) };
    assert_eq!(s.insert_block(b), Ok(()));
    assert_eq!(s.justified_checkpoint.epoch, 3);
    assert_eq!(s.finalized_checkpoint.epoch, 0);
}

#[test]
fn head_without_children_is_justified_root() {
    let s = store(4);
    assert_eq!(s.get_head(), root(0xaa));
    assert_eq!(s.best_child(&root(0xaa)), None);
}
