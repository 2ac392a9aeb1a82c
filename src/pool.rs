//! The attestation pool: attestations buffered by target epoch and data root,
//! their aggregation bitfields merged, handed out best first.

use vstd::prelude::*;
use crate::state::H256;
use crate::hash::hash_eq;
use crate::sequence::{flat_map, lemma_flat_map_take};

verus! {

/// An aggregate in the pool.
#[derive(Clone, Debug)]
pub struct PoolEntry {
    pub target_epoch: u64,
    pub data_root: H256,
    /// Bit `i` is set when committee member `i` attested.
    pub aggregation_bits: Vec<bool>,
    pub inclusion_delay: u64,
}

/// The most attestations a block carries.
pub const MAX_ATTESTATIONS: usize = 128;

/// The pool. Each `(target_epoch, data_root)` key appears at most once.
pub struct AttestationPool {
    pub entries: Vec<PoolEntry>,
}

pub open spec fn same_key(a: PoolEntry, b: PoolEntry) -> bool {
    a.target_epoch == b.target_epoch && a.data_root@ == b.data_root@
}

/// Number of set bits.
pub open spec fn count_set(bits: Seq<bool>) -> nat
    decreases bits.len(),
{
    if bits.len() == 0 {
        0
    } else {
        count_set(bits.drop_last()) + if bits.last() { 1nat } else { 0nat }
    }
}

/// `a` goes before or with `b`: more attesters, then the smaller inclusion delay.
pub open spec fn ranks_before(a: PoolEntry, b: PoolEntry) -> bool {
    count_set(a.aggregation_bits@) > count_set(b.aggregation_bits@) || (count_set(a.aggregation_bits@) == count_set(
        b.aggregation_bits@,
    ) && a.inclusion_delay <= b.inclusion_delay)
}

/// Bitwise or, as long as the longer of the two.
pub open spec fn merged_bits(a: Seq<bool>, b: Seq<bool>) -> Seq<bool> {
    Seq::new(
        if a.len() >= b.len() { a.len() } else { b.len() },
        |i: int| (i < a.len() && a[i]) || (i < b.len() && b[i]),
    )
}

/// `[x]` when `x` stays in the pool at `current_epoch`, else nothing.
pub open spec fn kept(x: PoolEntry, current_epoch: u64) -> Seq<PoolEntry> {
    if x.target_epoch as int + 1 >= current_epoch as int { seq![x] } else { Seq::empty() }
}

/// Index of the first entry with the key of `e` from `i` on, or -1.
pub open spec fn find_key(entries: Seq<PoolEntry>, e: PoolEntry, i: int) -> int
    decreases entries.len() - i,
{
    if i < 0 || i >= entries.len() {
        -1
    } else if same_key(entries[i], e) {
        i
    } else {
        find_key(entries, e, i + 1)
    }
}

proof fn lemma_find_key(entries: Seq<PoolEntry>, e: PoolEntry, i: int)
    requires
        0 <= i,
    ensures
        -1 <= find_key(entries, e, i) < entries.len(),
        find_key(entries, e, i) >= 0 ==> same_key(entries[find_key(entries, e, i)], e) && find_key(entries, e, i) >= i,
        find_key(entries, e, i) < 0 ==> forall|j: int| i <= j < entries.len() ==> !same_key(#[trigger] entries[j], e),
    decreases entries.len() - i,
{
    if i < entries.len() && !same_key(entries[i], e) {
        lemma_find_key(entries, e, i + 1);
    }
}

fn count_bits(bits: &Vec<bool>) -> (r: usize)
    ensures
        r == count_set(bits@),
{
    let mut c: usize = 0;
    let mut i: usize = 0;
    while i < bits.len()
        invariant
            i <= bits.len(),
            c == count_set(bits@.take(i as int)),
            c <= i,
        decreases bits.len() - i,
    {
        proof {
            assert(bits@.take(i + 1).drop_last() =~= bits@.take(i as int));
        }
        if bits[i] {
            c += 1;
        }
        i += 1;
    }
    proof {
        assert(bits@.take(bits@.len() as int) =~= bits@);
    }
    c
}

fn merge_bits(a: &Vec<bool>, b: &Vec<bool>) -> (r: Vec<bool>)
    ensures
        r@ == merged_bits(a@, b@),
{
    let n = if a.len() >= b.len() { a.len() } else { b.len() };
    let mut r: Vec<bool> = Vec::new();
    let mut i: usize = 0;
    while i < n
        invariant
            i <= n,
            n == (if a@.len() >= b@.len() { a@.len() } else { b@.len() }),
            r@.len() == i,
            forall|j: int| 0 <= j < i ==> #[trigger] r@[j] == ((j < a@.len() && a@[j]) || (j < b@.len() && b@[j])),
        decreases n - i,
    {
        let x = (i < a.len() && a[i]) || (i < b.len() && b[i]);
        r.push(x);
        i += 1;
    }
    assert(r@ =~= merged_bits(a@, b@));
    r
}

impl AttestationPool {
    /// No key appears twice.
    pub open spec fn wf(&self) -> bool {
        forall|i: int, j: int|
            0 <= i < j < self.entries@.len() ==> !same_key(#[trigger] self.entries@[i], #[trigger] self.entries@[j])
    }

    pub fn new() -> (r: AttestationPool)
        ensures
            r.wf(),
            r.entries@.len() == 0,
    {
        AttestationPool { entries: Vec::new() }
    }

    /// Add an attestation: merged into the entry with the same key, if any
    /// (bits or-ed, the smaller inclusion delay kept), else appended.
    pub fn insert(&mut self, e: PoolEntry)
        requires
            old(self).wf(),
        ensures
            final(self).wf(),
            find_key(old(self).entries@, e, 0) < 0 ==> final(self).entries@ == old(self).entries@.push(e),
            find_key(old(self).entries@, e, 0) >= 0 ==> ({
                let k = find_key(old(self).entries@, e, 0);
                let o = old(self).entries@[k];
                &&& final(self).entries@.len() == old(self).entries@.len()
                &&& forall|j: int| 0 <= j < old(self).entries@.len() && j != k ==> #[trigger] final(self).entries@[j] == old(self).entries@[j]
                &&& final(self).entries@[k].target_epoch == o.target_epoch
                &&& final(self).entries@[k].data_root == o.data_root
                &&& final(self).entries@[k].aggregation_bits@ == merged_bits(o.aggregation_bits@, e.aggregation_bits@)
                &&& final(self).entries@[k].inclusion_delay == (if e.inclusion_delay < o.inclusion_delay {
                    e.inclusion_delay
                } else {
                    o.inclusion_delay
                })
            }),
    {
        proof {
            lemma_find_key(self.entries@, e, 0);
        }
        let mut i: usize = 0;
        while i < self.entries.len()
            invariant
                i <= self.entries.len(),
                self.entries@ == old(self).entries@,
                old(self).wf(),
                find_key(self.entries@, e, 0) == find_key(self.entries@, e, i as int),
            decreases self.entries.len() - i,
        {
            if self.entries[i].target_epoch == e.target_epoch && hash_eq(&self.entries[i].data_root, &e.data_root) {
                let o = &self.entries[i];
                let bits = merge_bits(&o.aggregation_bits, &e.aggregation_bits);
                let delay = if e.inclusion_delay < o.inclusion_delay { e.inclusion_delay } else { o.inclusion_delay };
                let merged = PoolEntry { target_epoch: o.target_epoch, data_root: o.data_root, aggregation_bits: bits, inclusion_delay: delay };
                self.entries.set(i, merged);
                assert forall|a: int, b: int| 0 <= a < b < self.entries@.len() implies !same_key(
                    #[trigger] self.entries@[a],
                    #[trigger] self.entries@[b],
                ) by {
                    assert(same_key(self.entries@[a], old(self).entries@[a]));
                    assert(same_key(self.entries@[b], old(self).entries@[b]));
                }
                return;
            }
            i += 1;
        }
        proof {
            lemma_find_key(self.entries@, e, 0);
        }
        self.entries.push(e);
        assert forall|a: int, b: int| 0 <= a < b < self.entries@.len() implies !same_key(
            #[trigger] self.entries@[a],
            #[trigger] self.entries@[b],
        ) by {
            if b == self.entries@.len() - 1 {
                assert(!same_key(old(self).entries@[a], e));
            }
        }
    }

    /// Drop the attestations whose target epoch is before `current_epoch - 1`.
    pub fn evict(&mut self, current_epoch: u64)
        requires
            old(self).wf(),
        ensures
            final(self).wf(),
            final(self).entries@ == flat_map(old(self).entries@, |x: PoolEntry| kept(x, current_epoch)),
    {
        let ghost f = |x: PoolEntry| kept(x, current_epoch);
        let ghost orig = self.entries@;
        let ghost mut j: int = 0;
        let ghost mut idx: Seq<int> = Seq::empty();
        let mut i: usize = 0;
        while i < self.entries.len()
            invariant
                0 <= j <= orig.len(),
                i <= self.entries@.len(),
                orig == old(self).entries@,
                old(self).wf(),
                f == |x: PoolEntry| kept(x, current_epoch),
                self.entries@.take(i as int) == flat_map(orig.take(j), f),
                self.entries@.skip(i as int) == orig.skip(j),
                idx.len() == i,
                forall|k: int| 0 <= k < i ==> 0 <= #[trigger] idx[k] < j && self.entries@[k] == orig[idx[k]],
                forall|k1: int, k2: int| 0 <= k1 < k2 < i ==> #[trigger] idx[k1] < #[trigger] idx[k2],
            decreases self.entries.len() - i,
        {
            proof {
                assert(self.entries@.skip(i as int).len() == orig.skip(j).len());
                assert(self.entries@[i as int] == self.entries@.skip(i as int)[0]);
                lemma_flat_map_take(orig, j, f);
            }
            if self.entries[i].target_epoch as u128 + 1 >= current_epoch as u128 {
                proof {
                    assert(self.entries@.take(i + 1) =~= self.entries@.take(i as int).push(self.entries@[i as int]));
                    assert(self.entries@.skip(i + 1) =~= self.entries@.skip(i as int).drop_first());
                    assert(orig.skip(j + 1) =~= orig.skip(j).drop_first());
                    idx = idx.push(j);
                }
                i += 1;
            } else {
                let ghost before = self.entries@;
                let _dropped = self.entries.remove(i);
                proof {
                    assert(self.entries@.take(i as int) =~= before.take(i as int));
                    assert(self.entries@.skip(i as int) =~= before.skip(i as int).drop_first());
                    assert(orig.skip(j + 1) =~= orig.skip(j).drop_first());
                    assert(f(orig[j]) =~= Seq::<PoolEntry>::empty());
                }
            }
            proof {
                j = j + 1;
            }
        }
        proof {
            assert(orig.skip(j).len() == 0);
            assert(orig.take(j) =~= orig);
            assert(self.entries@.take(i as int) =~= self.entries@);
            assert forall|a: int, b: int| 0 <= a < b < self.entries@.len() implies !same_key(
                #[trigger] self.entries@[a],
                #[trigger] self.entries@[b],
            ) by {
                assert(idx[a] < idx[b]);
            }
        }
    }

    /// The indices of up to `max` entries, best first: every chosen entry
    /// ranks before every entry left out, and the chosen ones are in rank order.
    pub fn select(&self, max: usize) -> (r: Vec<usize>)
        ensures
            r@.len() == (if max < self.entries@.len() { max as int } else { self.entries@.len() as int }),
            forall|a: int| 0 <= a < r@.len() ==> #[trigger] r@[a] < self.entries@.len(),
            forall|a: int, b: int| 0 <= a < b < r@.len() ==> #[trigger] r@[a] != #[trigger] r@[b],
            forall|a: int, b: int|
                0 <= a < b < r@.len() ==> ranks_before(self.entries@[#[trigger] r@[a] as int], self.entries@[#[trigger] r@[b] as int]),
            forall|a: int, u: int|
                0 <= a < r@.len() && 0 <= u < self.entries@.len() && !r@.contains(u as usize) ==> ranks_before(
                    self.entries@[#[trigger] r@[a] as int],
                    #[trigger] self.entries@[u],
                ),
    {
        let n = self.entries.len();
        let mut counts: Vec<usize> = Vec::new();
        let mut taken: Vec<bool> = Vec::new();
        while counts.len() < n
            invariant
                counts.len() <= n,
                n == self.entries@.len(),
                taken@.len() == counts@.len(),
                forall|u: int| 0 <= u < counts@.len() ==> #[trigger] counts@[u] == count_set(self.entries@[u].aggregation_bits@),
                forall|u: int| 0 <= u < taken@.len() ==> !#[trigger] taken@[u],
                count_set(taken@) == 0,
            decreases n - counts.len(),
        {
            let c = count_bits(&self.entries[counts.len()].aggregation_bits);
            counts.push(c);
            let ghost before = taken@;
            taken.push(false);
            proof {
                assert(taken@.drop_last() =~= before);
            }
        }
        let mut r: Vec<usize> = Vec::new();
        while r.len() < max && r.len() < n
            invariant
                n == self.entries@.len(),
                counts@.len() == n,
                taken@.len() == n,
                r@.len() <= n,
                r@.len() <= max,
                forall|u: int| 0 <= u < n ==> #[trigger] counts@[u] == count_set(self.entries@[u].aggregation_bits@),
                forall|u: int| 0 <= u < n ==> (#[trigger] taken@[u] <==> r@.contains(u as usize)),
                count_set(taken@) == r@.len(),
                forall|a: int| 0 <= a < r@.len() ==> #[trigger] r@[a] < n,
                forall|a: int, b: int| 0 <= a < b < r@.len() ==> #[trigger] r@[a] != #[trigger] r@[b],
                forall|a: int, b: int|
                    0 <= a < b < r@.len() ==> ranks_before(self.entries@[#[trigger] r@[a] as int], self.entries@[#[trigger] r@[b] as int]),
                forall|a: int, u: int|
                    0 <= a < r@.len() && 0 <= u < n && !taken@[u] ==> ranks_before(
                        self.entries@[#[trigger] r@[a] as int],
                        #[trigger] self.entries@[u],
                    ),
            decreases n - r.len(),
        {
            let mut best: usize = n;
            let mut u: usize = 0;
            while u < n
                invariant
                    n == self.entries@.len(),
                    counts@.len() == n,
                    taken@.len() == n,
                    u <= n,
                    forall|v: int| 0 <= v < n ==> #[trigger] counts@[v] == count_set(self.entries@[v].aggregation_bits@),
                    best == n || (best < u && !taken@[best as int]),
                    best == n ==> forall|v: int| 0 <= v < u ==> #[trigger] taken@[v],
                    best < n ==> forall|v: int| 0 <= v < u && !taken@[v] ==> ranks_before(self.entries@[best as int], #[trigger] self.entries@[v]),
                decreases n - u,
            {
                if !taken[u] {
                    if best == n || counts[u] > counts[best] || (counts[u] == counts[best]
                        && self.entries[u].inclusion_delay < self.entries[best].inclusion_delay) {
                        best = u;
                    }
                }
                u += 1;
            }
            if best == n {
                proof {
                    lemma_count_set_all(taken@);
                }
            }
            let ghost old_r = r@;
            let ghost old_taken = taken@;
            proof {
                lemma_count_set_update(taken@, best as int);
            }
            taken.set(best, true);
            r.push(best);
            proof {
                assert forall|v: int| 0 <= v < n implies (#[trigger] taken@[v] <==> r@.contains(v as usize)) by {
                    if v == best as int {
                        assert(r@[r@.len() - 1] == best);
                    }
                    if old_taken[v] {
                        let w = choose|w: int| 0 <= w < old_r.len() && old_r[w] == v as usize;
                        assert(r@[w] == v as usize);
                    }
                    if r@.contains(v as usize) {
                        let w = choose|w: int| 0 <= w < r@.len() && r@[w] == v as usize;
                        if w < old_r.len() {
                            assert(old_r.contains(v as usize));
                        }
                    }
                }
                assert forall|a: int, b: int| 0 <= a < b < r@.len() implies #[trigger] r@[a] != #[trigger] r@[b] by {
                    if b == old_r.len() {
                        assert(old_r.contains(r@[a]));
                    }
                }
            }
        }
        proof {
            assert forall|a: int, u: int|
                0 <= a < r@.len() && 0 <= u < n && !r@.contains(u as usize) implies ranks_before(
                    self.entries@[#[trigger] r@[a] as int],
                    #[trigger] self.entries@[u],
                ) by {
                assert(!taken@[u]);
            }
        }
        r
    }
}

proof fn lemma_count_set_update(s: Seq<bool>, i: int)
    requires
        0 <= i < s.len(),
        !s[i],
    ensures
        count_set(s.update(i, true)) == count_set(s) + 1,
    decreases s.len(),
{
    if i == s.len() - 1 {
        assert(s.update(i, true).drop_last() =~= s.drop_last());
    } else {
        lemma_count_set_update(s.drop_last(), i);
        assert(s.update(i, true).drop_last() =~= s.drop_last().update(i, true));
    }
}

proof fn lemma_count_set_all(s: Seq<bool>)
    requires
        forall|i: int| 0 <= i < s.len() ==> #[trigger] s[i],
    ensures
        count_set(s) == s.len(),
    decreases s.len(),
{
    if s.len() > 0 {
        let t = s.drop_last();
        assert forall|i: int| 0 <= i < t.len() implies #[trigger] t[i] by {
            assert(t[i] == s[i]);
        }
        lemma_count_set_all(t);
    }
}

} // verus!
