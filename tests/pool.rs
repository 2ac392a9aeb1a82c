use shasper::pool::{AttestationPool, PoolEntry, MAX_ATTESTATIONS};

fn entry(epoch: u64, tag: u8, bits: Vec<bool>, delay: u64) -> PoolEntry {
    PoolEntry { target_epoch: epoch, data_root: [tag; 32], aggregation_bits: bits, inclusion_delay: delay }
}

#[test]
fn insert_merges_matching_data() {
    let mut p = AttestationPool::new();
    p.insert(entry(3, 1, vec![true, false, false], 2));
    p.insert(entry(3, 1, vec![false, true], 1));
    assert_eq!(p.entries.len(), 1);
    assert_eq!(p.entries[0].aggregation_bits, vec![true, true, false]);
    assert_eq!(p.entries[0].inclusion_delay, 1);
    p.insert(entry(3, 2, vec![true], 1));
    p.insert(entry(4, 1, vec![true], 1));
    assert_eq!(p.entries.len(), 3);
}

#[test]
fn evict_drops_old_targets() {
    let mut p = AttestationPool::new();
    p.insert(entry(2, 1, vec![true], 1));
    p.insert(entry(3, 1, vec![true], 1));
    p.insert(entry(4, 1, vec![true], 1));
    p.insert(entry(5, 1, vec![true], 1));
    p.evict(5);
    let epochs: Vec<u64> = p.entries.iter().map(|e| e.target_epoch).collect();
    assert_eq!(epochs, vec![4, 5]);
    p.evict(0);
    assert_eq!(p.entries.len(), 2);
}

#[test]
fn select_orders_by_attesters_then_delay() {
    let mut p = AttestationPool::new();
    p.insert(entry(3, 1, vec![true, false, false], 1));
    p.insert(entry(3, 2, vec![true, true, true], 4));
    p.insert(entry(3, 3, vec![true, true, false], 3));
    p.insert(entry(3, 4, vec![false, true, true], 2));
    assert_eq!(p.select(MAX_ATTESTATIONS), vec![1, 3, 2, 0]);
    assert_eq!(p.select(2), vec![1, 3]);
    assert_eq!(p.select(0), Vec::<usize>::new());
    assert_eq!(AttestationPool::new().select(5), Vec::<usize>::new());
}
