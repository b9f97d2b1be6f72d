//! Lists of names used as sets: adding without repeats, removing the first
//! occurrence.
use vstd::prelude::*;
use crate::graph::strs;
use crate::text::{contains_str, position_str};

verus! {

/// `v` with `x` appended unless it is already there.
pub open spec fn added(v: Seq<Seq<char>>, x: Seq<char>) -> Seq<Seq<char>> {
    if v.contains(x) {
        v
    } else {
        v.push(x)
    }
}

/// Each of `items` added in turn.
pub open spec fn add_all(v: Seq<Seq<char>>, items: Seq<Seq<char>>) -> Seq<Seq<char>>
    decreases items.len(),
{
    if items.len() == 0 {
        v
    } else {
        added(add_all(v, items.drop_last()), items.last())
    }
}

/// The position of the first `x` in `v` (meaningful when `v` contains `x`).
pub open spec fn first_pos(v: Seq<Seq<char>>, x: Seq<char>) -> int {
    choose|k: int| 0 <= k < v.len() && v[k] == x && forall|j: int| 0 <= j < k ==> v[j] != x
}

/// `v` without its first `x`, if any.
pub open spec fn removed(v: Seq<Seq<char>>, x: Seq<char>) -> Seq<Seq<char>> {
    if v.contains(x) {
        v.remove(first_pos(v, x))
    } else {
        v
    }
}

/// Each of `items` removed in turn (one occurrence each).
pub open spec fn remove_all(v: Seq<Seq<char>>, items: Seq<Seq<char>>) -> Seq<Seq<char>>
    decreases items.len(),
{
    if items.len() == 0 {
        v
    } else {
        removed(remove_all(v, items.drop_last()), items.last())
    }
}

/// Whether each addition changed the list, in turn.
pub open spec fn add_effects(v: Seq<Seq<char>>, items: Seq<Seq<char>>) -> Seq<bool>
    decreases items.len(),
{
    if items.len() == 0 {
        Seq::empty()
    } else {
        add_effects(v, items.drop_last()).push(!add_all(v, items.drop_last()).contains(items.last()))
    }
}

/// Whether each removal changed the list, in turn.
pub open spec fn remove_effects(v: Seq<Seq<char>>, items: Seq<Seq<char>>) -> Seq<bool>
    decreases items.len(),
{
    if items.len() == 0 {
        Seq::empty()
    } else {
        remove_effects(v, items.drop_last()).push(remove_all(v, items.drop_last()).contains(items.last()))
    }
}

/// Add `x` unless present; whether it was added.
pub fn add_unique(v: &mut Vec<String>, x: &String) -> (r: bool)
    ensures
        strs(*final(v)) == added(strs(*old(v)), x@),
        r == !strs(*old(v)).contains(x@),
{
    let present = contains_str(v, x.as_str());
    assert(strs(*v) =~= v@.map_values(|s: String| s@));
    if present {
        false
    } else {
        let ghost before = strs(*v);
        v.push(x.clone());
        assert(strs(*v) =~= before.push(x@));
        true
    }
}

/// Remove the first `x`, if any; whether one was removed.
pub fn remove_first(v: &mut Vec<String>, x: &str) -> (r: bool)
    ensures
        strs(*final(v)) == removed(strs(*old(v)), x@),
        r == strs(*old(v)).contains(x@),
{
    let ghost sv = strs(*v);
    match position_str(v, x) {
        Some(i) => {
            proof {
                assert(sv[i as int] == x@);
                let c = first_pos(sv, x@);
                assert(0 <= c < sv.len() && sv[c] == x@ && forall|j: int| 0 <= j < c ==> sv[j] != x@);
                if c < i {
                    assert(v@[c]@ == x@);
                } else if c > i {
                    assert(sv[i as int] == x@);
                }
            }
            v.remove(i);
            assert(strs(*v) =~= sv.remove(i as int));
            true
        },
        None => {
            proof {
                if sv.contains(x@) {
                    let k = choose|k: int| 0 <= k < sv.len() && sv[k] == x@;
                    assert(v@[k]@ == x@);
                }
            }
            false
        },
    }
}

/// Add each of `items` in turn; whether each was added.
pub fn add_each(v: &mut Vec<String>, items: &Vec<String>) -> (r: Vec<bool>)
    ensures
        strs(*final(v)) == add_all(strs(*old(v)), strs(*items)),
        r@ == add_effects(strs(*old(v)), strs(*items)),
{
    let ghost start = strs(*v);
    let ghost its = strs(*items);
    let mut effects: Vec<bool> = Vec::new();
    let mut k: usize = 0;
    while k < items.len()
        invariant
            k <= items@.len(),
            its == strs(*items),
            strs(*v) == add_all(start, its.take(k as int)),
            effects@ == add_effects(start, its.take(k as int)),
        decreases items@.len() - k,
    {
        assert(its.take(k + 1).drop_last() =~= its.take(k as int));
        assert(its.take(k + 1).last() == items@[k as int]@);
        let e = add_unique(v, &items[k]);
        effects.push(e);
        k = k + 1;
    }
    assert(its.take(items@.len() as int) =~= its);
    effects
}

/// Remove each of `items` in turn (one occurrence each); whether each was removed.
pub fn remove_each(v: &mut Vec<String>, items: &Vec<String>) -> (r: Vec<bool>)
    ensures
        strs(*final(v)) == remove_all(strs(*old(v)), strs(*items)),
        r@ == remove_effects(strs(*old(v)), strs(*items)),
{
    let ghost start = strs(*v);
    let ghost its = strs(*items);
    let mut effects: Vec<bool> = Vec::new();
    let mut k: usize = 0;
    while k < items.len()
        invariant
            k <= items@.len(),
            its == strs(*items),
            strs(*v) == remove_all(start, its.take(k as int)),
            effects@ == remove_effects(start, its.take(k as int)),
        decreases items@.len() - k,
    {
        assert(its.take(k + 1).drop_last() =~= its.take(k as int));
        assert(its.take(k + 1).last() == items@[k as int]@);
        let e = remove_first(v, items[k].as_str());
        effects.push(e);
        k = k + 1;
    }
    assert(its.take(items@.len() as int) =~= its);
    effects
}

/// Adding a name that was not there and then removing it gives the list back.
pub proof fn law_add_then_remove(v: Seq<Seq<char>>, x: Seq<char>)
    requires
        !v.contains(x),
    ensures
        removed(added(v, x), x) == v,
{
    let w = v.push(x);
    assert(w[v.len() as int] == x);
    assert(w.contains(x));
    let c = first_pos(w, x);
    assert(0 <= c < w.len() && w[c] == x);
    if c < v.len() {
        assert(v[c] == x);
    }
    assert(w.remove(c) =~= v);
}

/// After an addition the name is in the list.
pub proof fn law_added_contains(v: Seq<Seq<char>>, x: Seq<char>)
    ensures
        added(v, x).contains(x),
{
    if !v.contains(x) {
        assert(v.push(x)[v.len() as int] == x);
    }
}

} // verus!
