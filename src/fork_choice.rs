//! LMD-GHOST fork choice over a block tree keyed by root, with a
//! latest-message map from validator index to its latest vote.

use vstd::prelude::*;
use crate::state::{Checkpoint, H256};
use crate::hash::{hash_eq, hash_gt, lex_gt};
use crate::reward::sat;

verus! {

/// A block as the fork choice sees it.
#[derive(Clone, Copy, Debug)]
pub struct BlockNode {
    pub root: H256,
    pub parent_root: H256,
    pub slot: u64,
    pub justified_checkpoint: Checkpoint,
    pub finalized_checkpoint: Checkpoint,
}

/// The latest vote of a validator: its target epoch and the attested root.
#[derive(Clone, Copy, Debug)]
pub struct LatestMessage {
    pub epoch: u64,
    pub root: H256,
}

/// Fork-choice errors.
#[derive(Clone, Copy, Debug, PartialEq, Eq, Structural)]
pub enum ForkChoiceError {
    /// The parent of the block is not in the store.
    MissingAncestor,
    /// The block's slot is not after its parent's.
    InvalidSlot,
}

/// The fork-choice store. Validator `v` has `latest_messages[v]`,
/// `slashed[v]` and the effective balance `balances[v]`.
pub struct Store {
    pub blocks: Vec<BlockNode>,
    pub justified_checkpoint: Checkpoint,
    pub finalized_checkpoint: Checkpoint,
    pub latest_messages: Vec<Option<LatestMessage>>,
    pub slashed: Vec<bool>,
    pub balances: Vec<u64>,
}

/// Index of the first block with root `root` at or after `i`, or -1.
pub open spec fn find_from(blocks: Seq<BlockNode>, root: H256, i: int) -> int
    decreases blocks.len() - i,
{
    if i < 0 || i >= blocks.len() {
        -1
    } else if blocks[i].root@ == root@ {
        i
    } else {
        find_from(blocks, root, i + 1)
    }
}

pub open spec fn find_block(blocks: Seq<BlockNode>, root: H256) -> int {
    find_from(blocks, root, 0)
}

/// The root of the block on `root`'s chain at or before `slot`, walking at
/// most `fuel` parent links.
pub open spec fn ancestor(blocks: Seq<BlockNode>, root: H256, slot: u64, fuel: nat) -> Option<H256>
    decreases fuel,
{
    let i = find_block(blocks, root);
    if i < 0 {
        None
    } else if blocks[i].slot <= slot {
        Some(root)
    } else if fuel == 0 {
        None
    } else {
        ancestor(blocks, blocks[i].parent_root, slot, (fuel - 1) as nat)
    }
}

/// Whether a latest message votes for `c` or one of its descendants.
pub open spec fn supports(blocks: Seq<BlockNode>, msg: Option<LatestMessage>, c: BlockNode) -> bool {
    match msg {
        Some(m) => match ancestor(blocks, m.root, c.slot, blocks.len()) {
            Some(a) => a@ == c.root@,
            None => false,
        },
        None => false,
    }
}

/// The balance of validator `v`, zero for an unknown index.
pub open spec fn balance_at(balances: Seq<u64>, v: int) -> int {
    if 0 <= v < balances.len() { balances[v] as int } else { 0 }
}

/// The weight of `c` from the first `n` validators, saturating.
pub open spec fn weight(
    blocks: Seq<BlockNode>,
    msgs: Seq<Option<LatestMessage>>,
    balances: Seq<u64>,
    c: BlockNode,
    n: int,
) -> int
    decreases n,
{
    if n <= 0 {
        0
    } else {
        sat(weight(blocks, msgs, balances, c, n - 1) + if supports(blocks, msgs[n - 1], c) {
            balance_at(balances, n - 1)
        } else {
            0
        })
    }
}

/// The weight of `c`: the effective balance of the validators whose latest
/// message points into the subtree of `c`.
pub open spec fn block_weight(blocks: Seq<BlockNode>, msgs: Seq<Option<LatestMessage>>, balances: Seq<u64>, c: BlockNode) -> int {
    weight(blocks, msgs, balances, c, msgs.len() as int)
}

/// The best child of `parent` among the first `k` blocks: the largest weight,
/// ties going to the lexicographically greater root.
pub open spec fn best_child(
    blocks: Seq<BlockNode>,
    msgs: Seq<Option<LatestMessage>>,
    balances: Seq<u64>,
    parent: H256,
    k: int,
) -> Option<int>
    decreases k,
{
    if k <= 0 || k > blocks.len() {
        None
    } else {
        let prev = best_child(blocks, msgs, balances, parent, k - 1);
        let c = blocks[k - 1];
        if c.parent_root@ == parent@ {
            match prev {
                None => Some(k - 1),
                Some(j) => {
                    let wc = block_weight(blocks, msgs, balances, c);
                    let wj = block_weight(blocks, msgs, balances, blocks[j]);
                    if wc > wj || (wc == wj && lex_gt(c.root, blocks[j].root)) {
                        Some(k - 1)
                    } else {
                        prev
                    }
                },
            }
        } else {
            prev
        }
    }
}

/// Descend from `root` into the best child, at most `fuel` times.
pub open spec fn head_from(
    blocks: Seq<BlockNode>,
    msgs: Seq<Option<LatestMessage>>,
    balances: Seq<u64>,
    root: H256,
    fuel: nat,
) -> H256
    decreases fuel,
{
    match best_child(blocks, msgs, balances, root, blocks.len() as int) {
        None => root,
        Some(i) => if fuel == 0 {
            root
        } else {
            head_from(blocks, msgs, balances, blocks[i].root, (fuel - 1) as nat)
        },
    }
}

/// The head: from the justified root, descend into the heaviest child until
/// a leaf.
pub open spec fn spec_head(
    blocks: Seq<BlockNode>,
    msgs: Seq<Option<LatestMessage>>,
    balances: Seq<u64>,
    justified_root: H256,
) -> H256 {
    head_from(blocks, msgs, balances, justified_root, blocks.len())
}

/// Whether an attestation of `v` at `epoch` is taken.
pub open spec fn accepts(msgs: Seq<Option<LatestMessage>>, slashed: Seq<bool>, v: int, epoch: u64) -> bool {
    0 <= v < msgs.len() && v < slashed.len() && !slashed[v] && (msgs[v] is None || epoch > msgs[v]->Some_0.epoch)
}

/// The latest-message map after an attestation of `v` for `(epoch, root)`:
/// taken only from a known, unslashed validator, and only if it has no
/// message yet or a strictly lower epoch.
pub open spec fn spec_record(
    msgs: Seq<Option<LatestMessage>>,
    slashed: Seq<bool>,
    v: int,
    epoch: u64,
    root: H256,
) -> Seq<Option<LatestMessage>> {
    if accepts(msgs, slashed, v, epoch) {
        msgs.update(v, Some(LatestMessage { epoch, root }))
    } else {
        msgs
    }
}

impl Store {
    pub open spec fn wf(&self) -> bool {
        &&& self.latest_messages@.len() == self.slashed@.len()
        &&& self.latest_messages@.len() == self.balances@.len()
        &&& forall|v: int| 0 <= v < self.slashed@.len() && #[trigger] self.slashed@[v] ==> self.latest_messages@[v] is None
    }

    /// A store rooted at `genesis`, with one validator per effective balance
    /// in `balances`, none slashed and no messages.
    pub fn new(genesis: BlockNode, balances: Vec<u64>) -> (r: Store)
        ensures
            r.wf(),
            r.blocks@ == seq![genesis],
            r.balances@ == balances@,
            r.justified_checkpoint == genesis.justified_checkpoint,
            r.finalized_checkpoint == genesis.finalized_checkpoint,
            forall|v: int| 0 <= v < r.latest_messages@.len() ==> (#[trigger] r.latest_messages@[v]) is None,
            forall|v: int| 0 <= v < r.slashed@.len() ==> !(#[trigger] r.slashed@[v]),
    {
        let mut latest_messages: Vec<Option<LatestMessage>> = Vec::new();
        let mut slashed: Vec<bool> = Vec::new();
        while latest_messages.len() < balances.len()
            invariant
                latest_messages.len() == slashed.len(),
                latest_messages.len() <= balances.len(),
                forall|v: int| 0 <= v < latest_messages@.len() ==> (#[trigger] latest_messages@[v]) is None,
                forall|v: int| 0 <= v < slashed@.len() ==> !(#[trigger] slashed@[v]),
            decreases balances.len() - latest_messages.len(),
        {
            latest_messages.push(None);
            slashed.push(false);
        }
        Store {
            blocks: vec![genesis],
            justified_checkpoint: genesis.justified_checkpoint,
            finalized_checkpoint: genesis.finalized_checkpoint,
            latest_messages,
            slashed,
            balances,
        }
    }

    /// Record an attestation of validator `v` for `(epoch, root)`. Returns
    /// whether it was taken.
    pub fn record_attestation(&mut self, v: usize, epoch: u64, root: H256) -> (r: bool)
        requires
            old(self).wf(),
        ensures
            final(self).wf(),
            final(self).latest_messages@ == spec_record(old(self).latest_messages@, old(self).slashed@, v as int, epoch, root),
            r == accepts(old(self).latest_messages@, old(self).slashed@, v as int, epoch),
            final(self).blocks@ == old(self).blocks@,
            final(self).slashed@ == old(self).slashed@,
            final(self).balances@ == old(self).balances@,
            final(self).justified_checkpoint == old(self).justified_checkpoint,
            final(self).finalized_checkpoint == old(self).finalized_checkpoint,
    {
        if v >= self.latest_messages.len() || self.slashed[v] {
            return false;
        }
        let take = match self.latest_messages[v] {
            None => true,
            Some(m) => epoch > m.epoch,
        };
        if take {
            self.latest_messages.set(v, Some(LatestMessage { epoch, root }));
        }
        take
    }
}

fn find_block_index(blocks: &Vec<BlockNode>, root: &H256) -> (r: Option<usize>)
    ensures
        match r {
            Some(i) => i as int == find_block(blocks@, *root) && i < blocks@.len() && blocks@[i as int].root@ == root@,
            None => find_block(blocks@, *root) == -1,
        },
{
    let mut i: usize = 0;
    while i < blocks.len()
        invariant
            i <= blocks.len(),
            find_block(blocks@, *root) == find_from(blocks@, *root, i as int),
        decreases blocks.len() - i,
    {
        if hash_eq(&blocks[i].root, root) {
            return Some(i);
        }
        i += 1;
    }
    None
}

fn get_ancestor(blocks: &Vec<BlockNode>, root: H256, slot: u64) -> (r: Option<H256>)
    ensures
        r == ancestor(blocks@, root, slot, blocks@.len()),
{
    let mut cur = root;
    let mut fuel: usize = blocks.len();
    loop
        invariant
            fuel <= blocks.len(),
            ancestor(blocks@, root, slot, blocks@.len()) == ancestor(blocks@, cur, slot, fuel as nat),
        decreases fuel,
    {
        match find_block_index(blocks, &cur) {
            None => {
                return None;
            },
            Some(i) => {
                if blocks[i].slot <= slot {
                    return Some(cur);
                }
                if fuel == 0 {
                    return None;
                }
                cur = blocks[i].parent_root;
                fuel -= 1;
            },
        }
    }
}

impl Store {
    /// Delete a slashed validator's message and ignore it from now on.
    pub fn forget_validator(&mut self, v: usize)
        requires
            old(self).wf(),
        ensures
            final(self).wf(),
            v < old(self).slashed@.len() ==> final(self).slashed@ == old(self).slashed@.update(v as int, true)
                && final(self).latest_messages@ == old(self).latest_messages@.update(v as int, None),
            v >= old(self).slashed@.len() ==> final(self).slashed@ == old(self).slashed@
                && final(self).latest_messages@ == old(self).latest_messages@,
            final(self).blocks@ == old(self).blocks@,
            final(self).balances@ == old(self).balances@,
            final(self).justified_checkpoint == old(self).justified_checkpoint,
            final(self).finalized_checkpoint == old(self).finalized_checkpoint,
    {
        if v < self.slashed.len() {
            self.slashed.set(v, true);
            self.latest_messages.set(v, None);
        }
    }

    /// Insert a block whose parent is known and has an earlier slot, and take
    /// its justified and finalized checkpoints where they are strictly higher.
    pub fn insert_block(&mut self, node: BlockNode) -> (r: Result<(), ForkChoiceError>)
        requires
            old(self).wf(),
        ensures
            final(self).wf(),
            find_block(old(self).blocks@, node.parent_root) < 0 ==> r == Err::<(), ForkChoiceError>(ForkChoiceError::MissingAncestor),
            find_block(old(self).blocks@, node.parent_root) >= 0
                && node.slot <= old(self).blocks@[find_block(old(self).blocks@, node.parent_root)].slot
                ==> r == Err::<(), ForkChoiceError>(ForkChoiceError::InvalidSlot),
            find_block(old(self).blocks@, node.parent_root) >= 0
                && node.slot > old(self).blocks@[find_block(old(self).blocks@, node.parent_root)].slot ==> r is Ok,
            r is Err ==> final(self).blocks@ == old(self).blocks@
                && final(self).justified_checkpoint == old(self).justified_checkpoint
                && final(self).finalized_checkpoint == old(self).finalized_checkpoint,
            r is Ok ==> final(self).blocks@ == old(self).blocks@.push(node)
                && final(self).justified_checkpoint == (if node.justified_checkpoint.epoch > old(self).justified_checkpoint.epoch {
                    node.justified_checkpoint
                } else {
                    old(self).justified_checkpoint
                })
                && final(self).finalized_checkpoint == (if node.finalized_checkpoint.epoch > old(self).finalized_checkpoint.epoch {
                    node.finalized_checkpoint
                } else {
                    old(self).finalized_checkpoint
                }),
            final(self).latest_messages@ == old(self).latest_messages@,
            final(self).slashed@ == old(self).slashed@,
            final(self).balances@ == old(self).balances@,
    {
        let p = match find_block_index(&self.blocks, &node.parent_root) {
            None => {
                return Err(ForkChoiceError::MissingAncestor);
            },
            Some(p) => p,
        };
        if node.slot <= self.blocks[p].slot {
            return Err(ForkChoiceError::InvalidSlot);
        }
        self.blocks.push(node);
        if node.justified_checkpoint.epoch > self.justified_checkpoint.epoch {
            self.justified_checkpoint = node.justified_checkpoint;
        }
        if node.finalized_checkpoint.epoch > self.finalized_checkpoint.epoch {
            self.finalized_checkpoint = node.finalized_checkpoint;
        }
        Ok(())
    }

    /// The weight of `c` under the latest messages.
    pub fn block_weight(&self, c: &BlockNode) -> (r: u64)
        requires
            self.wf(),
        ensures
            r == block_weight(self.blocks@, self.latest_messages@, self.balances@, *c),
    {
        let mut acc: u64 = 0;
        let mut v: usize = 0;
        while v < self.latest_messages.len()
            invariant
                self.wf(),
                v <= self.latest_messages.len(),
                acc == weight(self.blocks@, self.latest_messages@, self.balances@, *c, v as int),
            decreases self.latest_messages.len() - v,
        {
            let mut add: u64 = 0;
            if let Some(m) = self.latest_messages[v] {
                if let Some(a) = get_ancestor(&self.blocks, m.root, c.slot) {
                    if hash_eq(&a, &c.root) {
                        add = self.balances[v];
                    }
                }
            }
            acc = acc.saturating_add(add);
            v += 1;
        }
        acc
    }

    /// The best child of `parent`, as an index into `blocks`.
    pub fn best_child(&self, parent: &H256) -> (r: Option<usize>)
        requires
            self.wf(),
        ensures
            match r {
                Some(i) => best_child(self.blocks@, self.latest_messages@, self.balances@, *parent, self.blocks@.len() as int)
                    == Some(i as int) && i < self.blocks@.len(),
                None => best_child(self.blocks@, self.latest_messages@, self.balances@, *parent, self.blocks@.len() as int) is None,
            },
    {
        let ghost blocks = self.blocks@;
        let ghost msgs = self.latest_messages@;
        let ghost balances = self.balances@;
        let mut best: Option<usize> = None;
        let mut best_weight: u64 = 0;
        let mut k: usize = 0;
        while k < self.blocks.len()
            invariant
                self.wf(),
                blocks == self.blocks@,
                msgs == self.latest_messages@,
                balances == self.balances@,
                k <= self.blocks.len(),
                match best {
                    Some(j) => best_child(blocks, msgs, balances, *parent, k as int) == Some(j as int) && j < k
                        && best_weight == block_weight(blocks, msgs, balances, blocks[j as int]),
                    None => best_child(blocks, msgs, balances, *parent, k as int) is None,
                },
            decreases self.blocks.len() - k,
        {
            let c = self.blocks[k];
            if hash_eq(&c.parent_root, parent) {
                let w = self.block_weight(&c);
                match best {
                    None => {
                        best = Some(k);
                        best_weight = w;
                    },
                    Some(j) => {
                        if w > best_weight || (w == best_weight && hash_gt(&c.root, &self.blocks[j].root)) {
                            best = Some(k);
                            best_weight = w;
                        }
                    },
                }
            }
            k += 1;
        }
        best
    }

    /// The head of the chain: from the justified root, descend into the
    /// heaviest child (ties to the greater root) until a leaf.
    pub fn get_head(&self) -> (r: H256)
        requires
            self.wf(),
        ensures
            r == spec_head(self.blocks@, self.latest_messages@, self.balances@, self.justified_checkpoint.root),
    {
        let mut cur = self.justified_checkpoint.root;
        let mut fuel: usize = self.blocks.len();
        loop
            invariant
                self.wf(),
                fuel <= self.blocks.len(),
                spec_head(self.blocks@, self.latest_messages@, self.balances@, self.justified_checkpoint.root)
                    == head_from(self.blocks@, self.latest_messages@, self.balances@, cur, fuel as nat),
            decreases fuel,
        {
            match self.best_child(&cur) {
                None => {
                    return cur;
                },
                Some(i) => {
                    if fuel == 0 {
                        return cur;
                    }
                    cur = self.blocks[i].root;
                    fuel -= 1;
                },
            }
        }
    }
}

/// A later attestation supersedes an earlier one: recording `(e, r)` and then
/// `(e2, r2)` with `e2 > e` is the same as recording only the second.
pub proof fn lemma_record_supersedes(
    msgs: Seq<Option<LatestMessage>>,
    slashed: Seq<bool>,
    v: int,
    e: u64,
    r: H256,
    e2: u64,
    r2: H256,
)
    requires
        e2 > e,
    ensures
        spec_record(spec_record(msgs, slashed, v, e, r), slashed, v, e2, r2) == spec_record(msgs, slashed, v, e2, r2),
{
    if accepts(msgs, slashed, v, e) {
        let m1 = spec_record(msgs, slashed, v, e, r);
        assert(accepts(m1, slashed, v, e2));
        assert(m1.update(v, Some(LatestMessage { epoch: e2, root: r2 })) =~= msgs.update(v, Some(LatestMessage { epoch: e2, root: r2 })));
    }
}

/// An attestation at an epoch not above the recorded one changes nothing.
pub proof fn lemma_record_stale(
    msgs: Seq<Option<LatestMessage>>,
    slashed: Seq<bool>,
    v: int,
    e: u64,
    r: H256,
    e2: u64,
    r2: H256,
)
    requires
        e2 <= e,
    ensures
        spec_record(spec_record(msgs, slashed, v, e, r), slashed, v, e2, r2) == spec_record(msgs, slashed, v, e, r),
{
    let m1 = spec_record(msgs, slashed, v, e, r);
    if 0 <= v < msgs.len() && v < slashed.len() && !slashed[v] {
        assert(m1[v] is Some);
        assert(!accepts(m1, slashed, v, e2));
    }
}

/// Head selection is a function of the store: two stores with the same
/// blocks, messages, balances and justified root have the same head.
pub proof fn lemma_head_deterministic(a: &Store, b: &Store)
    requires
        a.blocks@ == b.blocks@,
        a.latest_messages@ == b.latest_messages@,
        a.balances@ == b.balances@,
        a.justified_checkpoint.root == b.justified_checkpoint.root,
    ensures
        spec_head(a.blocks@, a.latest_messages@, a.balances@, a.justified_checkpoint.root)
            == spec_head(b.blocks@, b.latest_messages@, b.balances@, b.justified_checkpoint.root),
{
}

} // verus!
