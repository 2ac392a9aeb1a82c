//! Comparisons of 32-byte digests.

use vstd::prelude::*;
use crate::state::H256;

verus! {

/// Whether `a` is lexicographically greater than `b`, looking from byte `i` on.
pub open spec fn lex_gt_from(a: Seq<u8>, b: Seq<u8>, i: int) -> bool
    decreases 32 - i,
{
    if i < 0 || i >= 32 {
        false
    } else if a[i] != b[i] {
        a[i] > b[i]
    } else {
        lex_gt_from(a, b, i + 1)
    }
}

/// Whether `a` is lexicographically greater than `b`.
pub open spec fn lex_gt(a: H256, b: H256) -> bool {
    lex_gt_from(a@, b@, 0)
}

/// Whether two digests are equal.
pub fn hash_eq(a: &H256, b: &H256) -> (r: bool)
    ensures
        r == (a@ == b@),
{
    let mut i: usize = 0;
    while i < 32
        invariant
            i <= 32,
            a@.len() == 32,
            b@.len() == 32,
            forall|j: int| 0 <= j < i ==> a@[j] == b@[j],
        decreases 32 - i,
    {
        if a[i] != b[i] {
            return false;
        }
        i += 1;
    }
    assert(a@ =~= b@);
    true
}

/// Whether a digest is all zeros.
pub fn is_zero(a: &H256) -> (r: bool)
    ensures
        r == (a@ == Seq::new(32, |i: int| 0u8)),
{
    let mut i: usize = 0;
    while i < 32
        invariant
            i <= 32,
            a@.len() == 32,
            forall|j: int| 0 <= j < i ==> a@[j] == 0u8,
        decreases 32 - i,
    {
        if a[i] != 0 {
            assert(a@[i as int] != Seq::new(32, |k: int| 0u8)[i as int]);
            return false;
        }
        i += 1;
    }
    assert(a@ =~= Seq::new(32, |i: int| 0u8));
    true
}

/// Whether `a` is lexicographically greater than `b`.
pub fn hash_gt(a: &H256, b: &H256) -> (r: bool)
    ensures
        r == lex_gt(*a, *b),
{
    let mut i: usize = 0;
    while i < 32
        invariant
            i <= 32,
            a@.len() == 32,
            b@.len() == 32,
            forall|j: int| 0 <= j < i ==> a@[j] == b@[j],
            lex_gt_from(a@, b@, 0) == lex_gt_from(a@, b@, i as int),
        decreases 32 - i,
    {
        if a[i] != b[i] {
            return a[i] > b[i];
        }
        i += 1;
    }
    false
}

} // verus!
