//! Stable orderings of positions by an integer key.
use vstd::prelude::*;

verus! {

/// Position `a` comes before position `b`: a smaller key, or the same key and an
/// earlier position.
pub open spec fn precedes(keys: Seq<int>, a: int, b: int) -> bool {
    keys[a] < keys[b] || (keys[a] == keys[b] && a < b)
}

/// `order` lists every position of `keys` once, by key, keeping the given order
/// among positions of equal key (a stable sort by key).
pub open spec fn is_stable_order(keys: Seq<int>, order: Seq<usize>) -> bool {
    &&& order.len() == keys.len()
    &&& forall|k: int| 0 <= k < order.len() ==> #[trigger] order[k] < keys.len()
    &&& forall|i: usize| i < keys.len() ==> #[trigger] order.contains(i)
    &&& forall|k: int, m: int|
        0 <= k < m < order.len() ==> precedes(keys, #[trigger] order[k] as int, #[trigger] order[m] as int)
}

/// Positions before `p` agree, so the entries at `p` agree as well.
proof fn lemma_stable_order_step(keys: Seq<int>, o1: Seq<usize>, o2: Seq<usize>, p: int)
    requires
        is_stable_order(keys, o1),
        is_stable_order(keys, o2),
        0 <= p < o1.len(),
        forall|q: int| 0 <= q < p ==> o1[q] == o2[q],
    ensures
        o1[p] == o2[p],
{
    let a = o1[p];
    let b = o2[p];
    if a != b {
        assert(o2.contains(a));
        assert(o1.contains(b));
        let qa = choose|q: int| 0 <= q < o2.len() && o2[q] == a;
        let qb = choose|q: int| 0 <= q < o1.len() && o1[q] == b;
        if qa < p {
            assert(o1[qa] == a);
            assert(precedes(keys, o1[qa] as int, o1[p] as int));
        } else if qb < p {
            assert(o2[qb] == b);
            assert(precedes(keys, o2[qb] as int, o2[p] as int));
        } else {
            assert(qa != p);
            assert(qb != p);
            assert(precedes(keys, o1[p] as int, o1[qb] as int));
            assert(precedes(keys, o2[p] as int, o2[qa] as int));
        }
    }
}

/// Positions before `p` agree in two stable orders of the same keys.
proof fn lemma_stable_order_prefix(keys: Seq<int>, o1: Seq<usize>, o2: Seq<usize>, p: int)
    requires
        is_stable_order(keys, o1),
        is_stable_order(keys, o2),
        0 <= p <= o1.len(),
    ensures
        forall|q: int| 0 <= q < p ==> o1[q] == o2[q],
    decreases p,
{
    if p > 0 {
        lemma_stable_order_prefix(keys, o1, o2, p - 1);
        lemma_stable_order_step(keys, o1, o2, p - 1);
    }
}

/// Law: a stable order is determined by the keys alone: any two orders that list
/// every position once, by key and keeping the given order among equal keys,
/// are the same.
pub proof fn lemma_stable_order_unique(keys: Seq<int>, o1: Seq<usize>, o2: Seq<usize>)
    requires
        is_stable_order(keys, o1),
        is_stable_order(keys, o2),
    ensures
        o1 == o2,
{
    lemma_stable_order_prefix(keys, o1, o2, o1.len() as int);
    assert(o1 =~= o2);
}

/// The keys that order values from largest to smallest.
pub open spec fn descending_keys(v: Seq<u64>) -> Seq<int> {
    v.map_values(|x: u64| -(x as int))
}

/// The positions of `v` from the largest value to the smallest, keeping the
/// given order among equal values (`sort_by_key` with `Reverse`).
pub fn descending_order(v: &Vec<u64>) -> (order: Vec<usize>)
    ensures
        is_stable_order(descending_keys(v@), order@),
{
    let ghost keys = descending_keys(v@);
    let mut out: Vec<usize> = Vec::new();
    let mut i: usize = 0;
    while i < v.len()
        invariant
            i <= v.len(),
            keys == descending_keys(v@),
            keys.len() == v.len(),
            out.len() == i,
            forall|k: int| 0 <= k < out.len() ==> #[trigger] out@[k] < i,
            forall|j: usize| j < i ==> #[trigger] out@.contains(j),
            forall|k: int, m: int|
                0 <= k < m < out.len() ==> precedes(keys, #[trigger] out@[k] as int, #[trigger] out@[m] as int),
        decreases v.len() - i,
    {
        let x = v[i];
        let mut p: usize = 0;
        while p < out.len() && v[out[p]] >= x
            invariant
                p <= out.len(),
                i < v.len(),
                forall|k: int| 0 <= k < out.len() ==> #[trigger] out@[k] < i,
                forall|k: int| 0 <= k < p ==> v@[#[trigger] out@[k] as int] >= x,
            decreases out.len() - p,
        {
            p = p + 1;
        }
        let ghost before = out@;
        assert(forall|j: usize| j < i ==> #[trigger] before.contains(j));
        proof {
            assert forall|m: int| p <= m < before.len() implies v@[#[trigger] before[m] as int] < x by {
                if p < m {
                    assert(precedes(keys, before[p as int] as int, before[m] as int));
                }
            }
        }
        out.insert(p, i);
        proof {
            assert forall|k: int| 0 <= k < out.len() implies #[trigger] out@[k] < i + 1 by {
                if k < p {
                    assert(out@[k] == before[k]);
                } else if k > p {
                    assert(out@[k] == before[k - 1]);
                }
            }
            assert forall|j: usize| j < i + 1 implies #[trigger] out@.contains(j) by {
                if j < i {
                    assert(before.contains(j));
                    let k = choose|k: int| 0 <= k < before.len() && before[k] == j;
                    if k < p {
                        assert(out@[k] == j);
                    } else {
                        assert(out@[k + 1] == j);
                    }
                } else {
                    assert(out@[p as int] == i);
                }
            }
            assert forall|k: int, m: int| 0 <= k < m < out.len() implies precedes(
                keys,
                #[trigger] out@[k] as int,
                #[trigger] out@[m] as int,
            ) by {
                if m < p {
                    assert(out@[k] == before[k] && out@[m] == before[m]);
                } else if m == p {
                    assert(out@[k] == before[k]);
                    assert(v@[before[k] as int] >= x);
                } else if k < p {
                    assert(out@[k] == before[k] && out@[m] == before[m - 1]);
                } else if k == p {
                    assert(out@[m] == before[m - 1]);
                    assert(v@[before[m - 1] as int] < x);
                } else {
                    assert(out@[k] == before[k - 1] && out@[m] == before[m - 1]);
                }
            }
        }
        i = i + 1;
    }
    out
}

} // verus!
