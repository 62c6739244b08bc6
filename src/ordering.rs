//! Stable ordering of report rows by a numeric key, and rounded division.

use vstd::prelude::*;

verus! {

/// `n / d` rounded to the nearest integer, halves rounded up.
pub open spec fn round_div(n: int, d: int) -> int {
    (2 * n + d) / (2 * d)
}

pub fn div_round(n: u128, d: u128) -> (r: u128)
    requires
        d > 0,
        n <= u128::MAX / 4,
        d <= u128::MAX / 4,
    ensures
        r == round_div(n as int, d as int),
{
    (2 * n + d) / (2 * d)
}

/// Row `a` goes before row `b`: larger key first, equal keys by position.
pub open spec fn before(keys: Seq<u128>, a: int, b: int) -> bool {
    keys[a] > keys[b] || (keys[a] == keys[b] && a < b)
}

/// Position `p` occurs in `perm`.
pub open spec fn listed(perm: Seq<usize>, p: int) -> bool {
    exists|i: int| 0 <= i < perm.len() && #[trigger] perm[i] == p
}

/// `perm` lists every position of `keys` exactly once, in the order of `before`.
pub open spec fn is_desc_order(keys: Seq<u128>, perm: Seq<usize>) -> bool {
    &&& perm.len() == keys.len()
    &&& forall|i: int| 0 <= i < perm.len() ==> #[trigger] perm[i] < keys.len()
    &&& forall|i: int, j: int|
        0 <= i < j < perm.len() ==> before(keys, #[trigger] perm[i] as int, #[trigger] perm[j] as int)
    &&& forall|p: int| 0 <= p < keys.len() ==> #[trigger] listed(perm, p)
}

/// Positions of `keys` ordered by key, largest first; equal keys keep their order.
pub fn order_desc(keys: &Vec<u128>) -> (perm: Vec<usize>)
    ensures
        is_desc_order(keys@, perm@),
{
    let n = keys.len();
    let mut perm: Vec<usize> = Vec::new();
    let mut k: usize = 0;
    while k < n
        invariant
            n == keys@.len(),
            k <= n,
            perm@.len() == k,
            forall|i: int| 0 <= i < perm@.len() ==> #[trigger] perm@[i] < k,
            forall|i: int, j: int|
                0 <= i < j < perm@.len() ==> before(keys@, #[trigger] perm@[i] as int, #[trigger] perm@[j] as int),
            forall|p: int| 0 <= p < k ==> #[trigger] listed(perm@, p),
        decreases n - k,
    {
        let key = keys[k];
        let mut pos: usize = 0;
        while pos < perm.len() && keys[perm[pos]] >= key
            invariant
                n == keys@.len(),
                k < n,
                key == keys@[k as int],
                perm@.len() == k,
                pos <= perm@.len(),
                forall|i: int| 0 <= i < perm@.len() ==> #[trigger] perm@[i] < k,
                forall|i: int| 0 <= i < pos ==> keys@[#[trigger] perm@[i] as int] >= key,
            decreases perm@.len() - pos,
        {
            pos = pos + 1;
        }
        let ghost old_perm = perm@;
        perm.insert(pos, k);
        assert(perm@ == old_perm.insert(pos as int, k));
        assert forall|i: int, j: int| 0 <= i < j < perm@.len() implies before(
            keys@,
            #[trigger] perm@[i] as int,
            #[trigger] perm@[j] as int,
        ) by {
            if i < pos && j < pos {
                assert(perm@[i] == old_perm[i] && perm@[j] == old_perm[j]);
            } else if i < pos && j == pos {
                assert(perm@[i] == old_perm[i]);
                assert(keys@[old_perm[i] as int] >= key);
            } else if i < pos {
                assert(perm@[i] == old_perm[i] && perm@[j] == old_perm[j - 1]);
            } else if i == pos {
                assert(perm@[j] == old_perm[j - 1]);
                assert(pos < old_perm.len());
                if j - 1 > pos {
                    assert(before(keys@, old_perm[pos as int] as int, old_perm[j - 1] as int));
                }
                assert(keys@[old_perm[pos as int] as int] < key);
            } else {
                assert(perm@[i] == old_perm[i - 1] && perm@[j] == old_perm[j - 1]);
            }
        }
        assert forall|p: int| 0 <= p < k + 1 implies #[trigger] listed(perm@, p) by {
            if p == k {
                assert(perm@[pos as int] == p);
            } else {
                assert(listed(old_perm, p));
                let i0 = choose|i: int| 0 <= i < old_perm.len() && old_perm[i] == p;
                if i0 < pos {
                    assert(perm@[i0] == p);
                } else {
                    assert(perm@[i0 + 1] == p);
                }
            }
        }
        k = k + 1;
    }
    perm
}

} // verus!
