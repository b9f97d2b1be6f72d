//! Stable ordering of items by an integer key.
use vstd::prelude::*;

verus! {

/// `order` lists `0..n` once each, by descending key; equal keys keep their
/// their relative order in the input.
pub open spec fn is_stable_desc(keys: Seq<i64>, order: Seq<usize>) -> bool {
    &&& order.len() == keys.len()
    &&& forall|i: int| 0 <= i < order.len() ==> #[trigger] order[i] < keys.len()
    &&& forall|i: int, j: int| 0 <= i < j < order.len() ==> order[i] != order[j]
    &&& forall|i: int, j: int|
        0 <= i < j < order.len() ==> keys[#[trigger] order[i] as int] > keys[#[trigger] order[j] as int] || (
        keys[order[i] as int] == keys[order[j] as int] && order[i] < order[j])
}

/// Positions of `keys` sorted by descending key, stable on ties.
pub fn sort_desc_by_key(keys: &Vec<i64>) -> (order: Vec<usize>)
    ensures
        is_stable_desc(keys@, order@),
{
    let mut order: Vec<usize> = Vec::new();
    let mut n: usize = 0;
    while n < keys.len()
        invariant
            n <= keys.len(),
            order@.len() == n,
            forall|i: int| 0 <= i < order@.len() ==> #[trigger] order@[i] < n,
            forall|i: int, j: int| 0 <= i < j < order@.len() ==> order@[i] != order@[j],
            forall|i: int, j: int|
                0 <= i < j < order@.len() ==> keys@[#[trigger] order@[i] as int] > keys@[#[trigger] order@[j] as int] || (
                keys@[order@[i] as int] == keys@[order@[j] as int] && order@[i] < order@[j]),
        decreases keys.len() - n,
    {
        let kx = keys[n];
        let mut p: usize = 0;
        while p < order.len() && keys[order[p]] >= kx
            invariant
                p <= order@.len(),
                order@.len() == n,
                n < keys.len(),
                kx == keys@[n as int],
                forall|i: int| 0 <= i < order@.len() ==> #[trigger] order@[i] < n,
                forall|i: int| 0 <= i < p ==> keys@[#[trigger] order@[i] as int] >= kx,
            decreases order@.len() - p,
        {
            p = p + 1;
        }
        let ghost old_order = order@;
        proof {
            assert forall|i: int| p <= i < old_order.len() implies keys@[#[trigger] old_order[i] as int] < kx by {
                if i > p {
                    assert(keys@[old_order[p as int] as int] >= keys@[old_order[i] as int]);
                }
            }
        }
        order.insert(p, n);
        proof {
            assert forall|i: int, j: int|
                0 <= i < j < order@.len() implies keys@[#[trigger] order@[i] as int] > keys@[#[trigger] order@[j] as int] || (
                keys@[order@[i] as int] == keys@[order@[j] as int] && order@[i] < order@[j]) by {
                if j < p {
                    assert(order@[i] == old_order[i] && order@[j] == old_order[j]);
                } else if j == p {
                    assert(order@[i] == old_order[i]);
                } else if i == p {
                    assert(order@[j] == old_order[j - 1]);
                } else if i < p {
                    assert(order@[i] == old_order[i] && order@[j] == old_order[j - 1]);
                } else {
                    assert(order@[i] == old_order[i - 1] && order@[j] == old_order[j - 1]);
                }
            }
            assert forall|i: int, j: int| 0 <= i < j < order@.len() implies order@[i] != order@[j] by {
                if j < p {
                    assert(order@[i] == old_order[i] && order@[j] == old_order[j]);
                } else if j == p {
                    assert(order@[i] == old_order[i]);
                } else if i == p {
                    assert(order@[j] == old_order[j - 1]);
                } else if i < p {
                    assert(order@[i] == old_order[i] && order@[j] == old_order[j - 1]);
                } else {
                    assert(order@[i] == old_order[i - 1] && order@[j] == old_order[j - 1]);
                }
            }
            assert forall|i: int| 0 <= i < order@.len() implies #[trigger] order@[i] < n + 1 by {
                if i < p {
                    assert(order@[i] == old_order[i]);
                } else if i > p {
                    assert(order@[i] == old_order[i - 1]);
                }
            }
        }
        n = n + 1;
    }
    order
}

/// Lexicographic "greater than" on pairs.
pub open spec fn pair_gt(a: (u64, u64), b: (u64, u64)) -> bool {
    a.0 > b.0 || (a.0 == b.0 && a.1 > b.1)
}

fn pair_ge(a: (u64, u64), b: (u64, u64)) -> (r: bool)
    ensures
        r == (pair_gt(a, b) || a == b),
{
    a.0 > b.0 || (a.0 == b.0 && a.1 >= b.1)
}

/// `order` lists `0..n` once each, by descending pair; equal pairs keep their
/// their relative order in the input.
pub open spec fn is_stable_desc_pairs(keys: Seq<(u64, u64)>, order: Seq<usize>) -> bool {
    &&& order.len() == keys.len()
    &&& forall|i: int| 0 <= i < order.len() ==> #[trigger] order[i] < keys.len()
    &&& forall|i: int, j: int| 0 <= i < j < order.len() ==> order[i] != order[j]
    &&& forall|i: int, j: int|
        0 <= i < j < order.len() ==> pair_gt(keys[#[trigger] order[i] as int], keys[#[trigger] order[j] as int]) || (
        keys[order[i] as int] == keys[order[j] as int] && order[i] < order[j])
}

/// Positions of `keys` sorted by descending pair (first component first),
/// stable on ties.
pub fn sort_desc_by_pair(keys: &Vec<(u64, u64)>) -> (order: Vec<usize>)
    ensures
        is_stable_desc_pairs(keys@, order@),
{
    let mut order: Vec<usize> = Vec::new();
    let mut n: usize = 0;
    while n < keys.len()
        invariant
            n <= keys.len(),
            order@.len() == n,
            forall|i: int| 0 <= i < order@.len() ==> #[trigger] order@[i] < n,
            forall|i: int, j: int| 0 <= i < j < order@.len() ==> order@[i] != order@[j],
            forall|i: int, j: int|
                0 <= i < j < order@.len() ==> pair_gt(keys@[#[trigger] order@[i] as int], keys@[#[trigger] order@[j] as int]) || (
                keys@[order@[i] as int] == keys@[order@[j] as int] && order@[i] < order@[j]),
        decreases keys.len() - n,
    {
        let kx = keys[n];
        let mut p: usize = 0;
        while p < order.len() && pair_ge(keys[order[p]], kx)
            invariant
                p <= order@.len(),
                order@.len() == n,
                n < keys.len(),
                kx == keys@[n as int],
                forall|i: int| 0 <= i < order@.len() ==> #[trigger] order@[i] < n,
                forall|i: int| 0 <= i < p ==> pair_gt(keys@[#[trigger] order@[i] as int], kx) || keys@[order@[i] as int] == kx,
            decreases order@.len() - p,
        {
            p = p + 1;
        }
        let ghost old_order = order@;
        proof {
            assert forall|i: int| p <= i < old_order.len() implies pair_gt(kx, keys@[#[trigger] old_order[i] as int]) by {
                if i > p {
                    assert(pair_gt(keys@[old_order[p as int] as int], keys@[old_order[i] as int]) || keys@[old_order[p as int] as int] == keys@[old_order[i] as int]);
                }
            }
        }
        order.insert(p, n);
        proof {
            assert forall|i: int, j: int|
                0 <= i < j < order@.len() implies pair_gt(keys@[#[trigger] order@[i] as int], keys@[#[trigger] order@[j] as int]) || (
                keys@[order@[i] as int] == keys@[order@[j] as int] && order@[i] < order@[j]) by {
                if j < p {
                    assert(order@[i] == old_order[i] && order@[j] == old_order[j]);
                } else if j == p {
                    assert(order@[i] == old_order[i]);
                } else if i == p {
                    assert(order@[j] == old_order[j - 1]);
                } else if i < p {
                    assert(order@[i] == old_order[i] && order@[j] == old_order[j - 1]);
                } else {
                    assert(order@[i] == old_order[i - 1] && order@[j] == old_order[j - 1]);
                }
            }
            assert forall|i: int, j: int| 0 <= i < j < order@.len() implies order@[i] != order@[j] by {
                if j < p {
                    assert(order@[i] == old_order[i] && order@[j] == old_order[j]);
                } else if j == p {
                    assert(order@[i] == old_order[i]);
                } else if i == p {
                    assert(order@[j] == old_order[j - 1]);
                } else if i < p {
                    assert(order@[i] == old_order[i] && order@[j] == old_order[j - 1]);
                } else {
                    assert(order@[i] == old_order[i - 1] && order@[j] == old_order[j - 1]);
                }
            }
            assert forall|i: int| 0 <= i < order@.len() implies #[trigger] order@[i] < n + 1 by {
                if i < p {
                    assert(order@[i] == old_order[i]);
                } else if i > p {
                    assert(order@[i] == old_order[i - 1]);
                }
            }
        }
        n = n + 1;
    }
    order
}

} // verus!
