//! Agency statistics that need no scores: which role and motivation pairings
//! have been evaluated too rarely.
use vstd::prelude::*;
use vstd::string::*;
use crate::agency::{AgentIdentity, Motivation, Role};

verus! {

/// Lexicographic order of texts, character by character, a proper prefix
/// coming first.
pub open spec fn text_lt(a: Seq<char>, b: Seq<char>) -> bool
    decreases a.len(),
{
    if b.len() == 0 {
        false
    } else if a.len() == 0 {
        true
    } else if a[0] != b[0] {
        (a[0] as u32) < (b[0] as u32)
    } else {
        text_lt(a.drop_first(), b.drop_first())
    }
}

/// The order of texts is transitive.
pub proof fn lemma_text_lt_transitive(a: Seq<char>, b: Seq<char>, c: Seq<char>)
    requires
        text_lt(a, b),
        text_lt(b, c),
    ensures
        text_lt(a, c),
    decreases a.len(),
{
    if a.len() > 0 && a[0] == b[0] && b[0] == c[0] {
        lemma_text_lt_transitive(a.drop_first(), b.drop_first(), c.drop_first());
    }
}

/// No text comes before itself.
pub proof fn lemma_text_lt_irreflexive(a: Seq<char>)
    ensures
        !text_lt(a, a),
    decreases a.len(),
{
    if a.len() > 0 {
        lemma_text_lt_irreflexive(a.drop_first());
    }
}

proof fn lemma_text_lt_step(a: Seq<char>, b: Seq<char>, i: int)
    requires
        0 <= i < a.len(),
        i < b.len(),
        a[i] == b[i],
    ensures
        text_lt(a.skip(i), b.skip(i)) == text_lt(a.skip(i + 1), b.skip(i + 1)),
{
    assert(a.skip(i).drop_first() =~= a.skip(i + 1));
    assert(b.skip(i).drop_first() =~= b.skip(i + 1));
}

/// Whether `a` comes before `b`.
pub fn str_lt(a: &str, b: &str) -> (r: bool)
    ensures
        r == text_lt(a@, b@),
{
    let n = a.unicode_len();
    let m = b.unicode_len();
    let mut i: usize = 0;
    assert(a@.skip(0) =~= a@ && b@.skip(0) =~= b@);
    while i < n && i < m
        invariant
            n == a@.len(),
            m == b@.len(),
            i <= n,
            i <= m,
            text_lt(a@, b@) == text_lt(a@.skip(i as int), b@.skip(i as int)),
        decreases n - i,
    {
        let x = a.get_char(i);
        let y = b.get_char(i);
        if x != y {
            return (x as u32) < (y as u32);
        }
        proof {
            lemma_text_lt_step(a@, b@, i as int);
        }
        i = i + 1;
    }
    i < m
}


/// A pairing with its number of evaluations.
pub type PairCount = (Seq<char>, Seq<char>, nat);

/// The order of pairings: fewest evaluations first, then by role id, then
/// by motivation id.
pub open spec fn pair_count_lt(x: PairCount, y: PairCount) -> bool {
    x.2 < y.2 || (x.2 == y.2 && (text_lt(x.0, y.0) || (x.0 == y.0 && text_lt(x.1, y.1))))
}

proof fn lemma_pair_count_lt_transitive(x: PairCount, y: PairCount, z: PairCount)
    requires
        pair_count_lt(x, y),
        pair_count_lt(y, z),
    ensures
        pair_count_lt(x, z),
{
    if x.2 == y.2 && y.2 == z.2 {
        if text_lt(x.0, y.0) && text_lt(y.0, z.0) {
            lemma_text_lt_transitive(x.0, y.0, z.0);
        } else if text_lt(x.0, y.0) || text_lt(y.0, z.0) {
        } else {
            lemma_text_lt_transitive(x.1, y.1, z.1);
        }
    }
}

/// Number of evaluations of the pairing of role `r` with motivation `m`.
pub open spec fn eval_count(evals: Seq<AgentIdentity>, r: Seq<char>, m: Seq<char>) -> nat
    decreases evals.len(),
{
    if evals.len() == 0 {
        0
    } else {
        eval_count(evals.drop_last(), r, m) + if evals.last().role_id@ == r
            && evals.last().motivation_id@ == m {
            1nat
        } else {
            0nat
        }
    }
}

proof fn lemma_eval_count_bound(evals: Seq<AgentIdentity>, r: Seq<char>, m: Seq<char>)
    ensures
        eval_count(evals, r, m) <= evals.len(),
    decreases evals.len(),
{
    if evals.len() > 0 {
        lemma_eval_count_bound(evals.drop_last(), r, m);
    }
}

/// The pairings of role `r` with the motivations `mots`, in their order,
/// that have fewer than `min` evaluations.
pub open spec fn sparse_row(r: Seq<char>, mots: Seq<Seq<char>>, evals: Seq<AgentIdentity>, min: nat) -> Seq<
    PairCount,
>
    decreases mots.len(),
{
    if mots.len() == 0 {
        Seq::empty()
    } else {
        let prev = sparse_row(r, mots.drop_last(), evals, min);
        let c = eval_count(evals, r, mots.last());
        if c < min {
            prev.push((r, mots.last(), c))
        } else {
            prev
        }
    }
}

/// Every pairing of a role with a motivation, roles outermost, that has
/// fewer than `min` evaluations.
pub open spec fn sparse_pairs(
    roles: Seq<Seq<char>>,
    mots: Seq<Seq<char>>,
    evals: Seq<AgentIdentity>,
    min: nat,
) -> Seq<PairCount>
    decreases roles.len(),
{
    if roles.len() == 0 {
        Seq::empty()
    } else {
        sparse_pairs(roles.drop_last(), mots, evals, min) + sparse_row(roles.last(), mots, evals, min)
    }
}

pub open spec fn role_ids(roles: Seq<Role>) -> Seq<Seq<char>> {
    roles.map_values(|r: Role| r.id@)
}

pub open spec fn motivation_ids(mots: Seq<Motivation>) -> Seq<Seq<char>> {
    mots.map_values(|m: Motivation| m.id@)
}

pub open spec fn pair_count_view(t: (String, String, u32)) -> PairCount {
    (t.0@, t.1@, t.2 as nat)
}

/// `o` lists each of `0..n` once.
pub open spec fn is_permutation(o: Seq<int>, n: int) -> bool {
    &&& o.len() == n
    &&& forall|i: int| 0 <= i < n ==> 0 <= #[trigger] o[i] < n
    &&& forall|i: int, j: int| 0 <= i < j < n ==> o[i] != o[j]
}

/// Number of evaluations of the pairing of `role_id` with `motivation_id`.
fn count_evals(evals: &Vec<AgentIdentity>, role_id: &str, motivation_id: &str) -> (r: u32)
    requires
        evals@.len() <= u32::MAX,
    ensures
        r == eval_count(evals@, role_id@, motivation_id@),
{
    let mut c: u32 = 0;
    let mut i: usize = 0;
    while i < evals.len()
        invariant
            i <= evals@.len(),
            evals@.len() <= u32::MAX,
            c == eval_count(evals@.take(i as int), role_id@, motivation_id@),
        decreases evals.len() - i,
    {
        proof {
            assert(evals@.take(i as int + 1).drop_last() =~= evals@.take(i as int));
            lemma_eval_count_bound(evals@.take(i as int), role_id@, motivation_id@);
        }
        if crate::text::str_eq(evals[i].role_id.as_str(), role_id) && crate::text::str_eq(
            evals[i].motivation_id.as_str(),
            motivation_id,
        ) {
            c = c + 1;
        }
        i = i + 1;
    }
    assert(evals@.take(i as int) =~= evals@);
    c
}


fn pair_count_before(x: &(String, String, u32), y: &(String, String, u32)) -> (r: bool)
    ensures
        r == pair_count_lt(pair_count_view(*x), pair_count_view(*y)),
{
    if x.2 != y.2 {
        return x.2 < y.2;
    }
    if str_lt(x.0.as_str(), y.0.as_str()) {
        return true;
    }
    crate::text::str_eq(x.0.as_str(), y.0.as_str()) && str_lt(x.1.as_str(), y.1.as_str())
}

/// Positions of `items` in ascending order of pairing.
fn sort_pair_counts(items: &Vec<(String, String, u32)>) -> (order: Vec<usize>)
    ensures
        is_permutation(order@.map_values(|k: usize| k as int), items@.len() as int),
        forall|i: int, j: int|
            0 <= i < j < order@.len() ==> !pair_count_lt(
                pair_count_view(items@[#[trigger] order@[j] as int]),
                pair_count_view(items@[#[trigger] order@[i] as int]),
            ),
{
    let ghost key = items@.map_values(|t: (String, String, u32)| pair_count_view(t));
    let mut order: Vec<usize> = Vec::new();
    let mut n: usize = 0;
    while n < items.len()
        invariant
            n <= items@.len(),
            key == items@.map_values(|t: (String, String, u32)| pair_count_view(t)),
            order@.len() == n,
            forall|i: int| 0 <= i < order@.len() ==> #[trigger] order@[i] < n,
            forall|i: int, j: int| 0 <= i < j < order@.len() ==> order@[i] != order@[j],
            forall|i: int, j: int|
                0 <= i < j < order@.len() ==> !pair_count_lt(
                    key[#[trigger] order@[j] as int],
                    key[#[trigger] order@[i] as int],
                ),
        decreases items@.len() - n,
    {
        let mut p: usize = 0;
        while p < order.len() && !pair_count_before(&items[n], &items[order[p]])
            invariant
                p <= order@.len(),
                order@.len() == n,
                n < items@.len(),
                key == items@.map_values(|t: (String, String, u32)| pair_count_view(t)),
                forall|i: int| 0 <= i < order@.len() ==> #[trigger] order@[i] < n,
                forall|i: int| 0 <= i < p ==> !pair_count_lt(key[n as int], key[#[trigger] order@[i] as int]),
            decreases order@.len() - p,
        {
            p = p + 1;
        }
        let ghost old_order = order@;
        proof {
            assert forall|i: int| p <= i < old_order.len() implies !pair_count_lt(
                key[#[trigger] old_order[i] as int],
                key[n as int],
            ) by {
                assert(pair_count_lt(key[n as int], key[old_order[p as int] as int]));
                if pair_count_lt(key[old_order[i] as int], key[n as int]) {
                    lemma_pair_count_lt_transitive(
                        key[old_order[i] as int],
                        key[n as int],
                        key[old_order[p as int] as int],
                    );
                    if i > p {
                        assert(!pair_count_lt(key[old_order[i] as int], key[old_order[p as int] as int]));
                    } else {
                        lemma_text_lt_irreflexive(key[old_order[i] as int].0);
                        lemma_text_lt_irreflexive(key[old_order[i] as int].1);
                    }
                }
            }
        }
        order.insert(p, n);
        proof {
            assert forall|i: int, j: int| 0 <= i < j < order@.len() implies !pair_count_lt(
                key[#[trigger] order@[j] as int],
                key[#[trigger] order@[i] as int],
            ) by {
                if j < p {
                    assert(order@[i] == old_order[i] && order@[j] == old_order[j]);
                } else if j == p {
                    assert(order@[i] == old_order[i]);
                } else if i == p {
                    assert(order@[j] == old_order[j - 1]);
                } else if i < p {
                    assert(order@[i] == old_order[i] && order@[j] == old_order[j - 1]);
                } else {
                    assert(order@[i] == old_order[i - 1] && order@[j] == old_order[j - 1]);
                }
            }
            assert forall|i: int, j: int| 0 <= i < j < order@.len() implies order@[i] != order@[j] by {
                if j < p {
                    assert(order@[i] == old_order[i] && order@[j] == old_order[j]);
                } else if j == p {
                    assert(order@[i] == old_order[i]);
                } else if i == p {
                    assert(order@[j] == old_order[j - 1]);
                } else if i < p {
                    assert(order@[i] == old_order[i] && order@[j] == old_order[j - 1]);
                } else {
                    assert(order@[i] == old_order[i - 1] && order@[j] == old_order[j - 1]);
                }
            }
            assert forall|i: int| 0 <= i < order@.len() implies #[trigger] order@[i] < n + 1 by {
                if i < p {
                    assert(order@[i] == old_order[i]);
                } else if i > p {
                    assert(order@[i] == old_order[i - 1]);
                }
            }
        }
        n = n + 1;
    }
    proof {
        let o = order@.map_values(|k: usize| k as int);
        assert forall|i: int| 0 <= i < n implies 0 <= #[trigger] o[i] < n by {
            assert(o[i] == order@[i] as int);
        }
        assert forall|i: int, j: int| 0 <= i < j < n implies o[i] != o[j] by {
            assert(o[i] == order@[i] as int && o[j] == order@[j] as int);
        }
    }
    order
}


/// The pairings of every role with every motivation that have fewer than
/// `min_evals` evaluations, with their counts: fewest first, ties by role id
/// and then by motivation id.
pub fn find_underexplored(
    roles: &Vec<Role>,
    motivations: &Vec<Motivation>,
    evaluations: &Vec<AgentIdentity>,
    min_evals: u32,
) -> (r: Vec<(String, String, u32)>)
    requires
        evaluations@.len() <= u32::MAX,
    ensures
        ({
            let want = sparse_pairs(role_ids(roles@), motivation_ids(motivations@), evaluations@, min_evals as nat);
            &&& r@.len() == want.len()
            &&& exists|o: Seq<int>|
                is_permutation(o, want.len() as int) && forall|k: int|
                    0 <= k < want.len() ==> pair_count_view(#[trigger] r@[k]) == want[o[k]]
            &&& forall|i: int, j: int|
                0 <= i < j < r@.len() ==> !pair_count_lt(
                    pair_count_view(#[trigger] r@[j]),
                    pair_count_view(#[trigger] r@[i]),
                )
        }),
{
    let ghost rids = role_ids(roles@);
    let ghost mids = motivation_ids(motivations@);
    let ghost min = min_evals as nat;
    let mut cands: Vec<(String, String, u32)> = Vec::new();
    let mut i: usize = 0;
    while i < roles.len()
        invariant
            i <= roles@.len(),
            rids == role_ids(roles@),
            mids == motivation_ids(motivations@),
            min == min_evals as nat,
            evaluations@.len() <= u32::MAX,
            cands@.map_values(|t: (String, String, u32)| pair_count_view(t)) == sparse_pairs(
                rids.take(i as int),
                mids,
                evaluations@,
                min,
            ),
        decreases roles.len() - i,
    {
        let ghost before = cands@.map_values(|t: (String, String, u32)| pair_count_view(t));
        let mut j: usize = 0;
        while j < motivations.len()
            invariant
                i < roles@.len(),
                j <= motivations@.len(),
                rids == role_ids(roles@),
                mids == motivation_ids(motivations@),
                min == min_evals as nat,
                evaluations@.len() <= u32::MAX,
                cands@.map_values(|t: (String, String, u32)| pair_count_view(t)) == before + sparse_row(
                    rids[i as int],
                    mids.take(j as int),
                    evaluations@,
                    min,
                ),
            decreases motivations.len() - j,
        {
            let ghost prev = cands@;
            let c = count_evals(evaluations, roles[i].id.as_str(), motivations[j].id.as_str());
            proof {
                assert(mids.take(j as int + 1).drop_last() =~= mids.take(j as int));
                assert(mids.take(j as int + 1).last() == motivations@[j as int].id@);
                assert(rids[i as int] == roles@[i as int].id@);
            }
            if c < min_evals {
                let rid = roles[i].id.clone();
                let mid = motivations[j].id.clone();
                cands.push((rid, mid, c));
                proof {
                    assert(cands@.map_values(|t: (String, String, u32)| pair_count_view(t)) =~= prev.map_values(
                        |t: (String, String, u32)| pair_count_view(t),
                    ).push(pair_count_view(cands@[prev.len() as int])));
                }
            }
            j = j + 1;
        }
        proof {
            assert(rids.take(i as int + 1).drop_last() =~= rids.take(i as int));
            assert(mids.take(motivations@.len() as int) =~= mids);
        }
        i = i + 1;
    }
    proof {
        assert(rids.take(roles@.len() as int) =~= rids);
    }
    let order = sort_pair_counts(&cands);
    proof {
        assert forall|q: int| 0 <= q < order@.len() implies #[trigger] order@[q] < cands@.len() by {
            assert(order@.map_values(|x: usize| x as int)[q] == order@[q] as int);
        }
    }
    let mut out: Vec<(String, String, u32)> = Vec::new();
    let mut k: usize = 0;
    while k < order.len()
        invariant
            k <= order@.len(),
            order@.len() == cands@.len(),
            forall|q: int| 0 <= q < order@.len() ==> #[trigger] order@[q] < cands@.len(),
            out@.len() == k,
            forall|q: int| 0 <= q < k ==> pair_count_view(#[trigger] out@[q]) == pair_count_view(cands@[order@[q] as int]),
        decreases order.len() - k,
    {
        let t = &cands[order[k]];
        let item = (t.0.clone(), t.1.clone(), t.2);
        out.push(item);
        k = k + 1;
    }
    proof {
        let want = sparse_pairs(rids, mids, evaluations@, min);
        let cv = cands@.map_values(|t: (String, String, u32)| pair_count_view(t));
        let o = order@.map_values(|q: usize| q as int);
        assert forall|q: int| 0 <= q < want.len() implies pair_count_view(#[trigger] out@[q]) == want[o[q]] by {
            assert(o[q] == order@[q] as int);
            assert(cv[order@[q] as int] == pair_count_view(cands@[order@[q] as int]));
        }
        assert forall|a: int, b: int| 0 <= a < b < out@.len() implies !pair_count_lt(
            pair_count_view(#[trigger] out@[b]),
            pair_count_view(#[trigger] out@[a]),
        ) by {
            assert(pair_count_view(out@[a]) == pair_count_view(cands@[order@[a] as int]));
            assert(pair_count_view(out@[b]) == pair_count_view(cands@[order@[b] as int]));
        }
    }
    out
}

} // verus!
