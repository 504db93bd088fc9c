//! Sorting by keys: the order in which the entries of a list are to be taken so
//! that their keys ascend, entries with equal keys staying as they are.
use vstd::prelude::*;

verus! {

/// What an entry is sorted by, the first number first.
#[derive(Clone, Copy, Debug)]
pub struct SortKey {
    pub first: i64,
    pub second: i64,
    pub third: i64,
}

/// Whether a key comes before another.
pub open spec fn precedes(a: SortKey, b: SortKey) -> bool {
    ||| a.first < b.first
    ||| a.first == b.first && a.second < b.second
    ||| a.first == b.first && a.second == b.second && a.third < b.third
}

/// Whether a key comes before another.
pub fn comes_before(a: SortKey, b: SortKey) -> (r: bool)
    ensures
        r == precedes(a, b),
{
    a.first < b.first || (a.first == b.first && a.second < b.second) || (a.first == b.first
        && a.second == b.second && a.third < b.third)
}

/// The position in `order`, from `i` on, at which an entry with this key
/// belongs: before the first entry whose key it precedes.
pub open spec fn place(order: Seq<int>, keys: Seq<SortKey>, key: SortKey, i: int) -> int
    decreases order.len() - i,
{
    if i >= order.len() {
        order.len() as int
    } else if precedes(key, keys[order[i]]) {
        i
    } else {
        place(order, keys, key, i + 1)
    }
}

/// The order of the first `n` entries.
pub open spec fn order_of(keys: Seq<SortKey>, n: nat) -> Seq<int>
    decreases n,
{
    if n == 0 {
        Seq::empty()
    } else {
        let before = order_of(keys, (n - 1) as nat);
        let x = n - 1;
        before.insert(place(before, keys, keys[x], 0), x)
    }
}

/// The order of all entries.
pub open spec fn sorted_order(keys: Seq<SortKey>) -> Seq<int> {
    order_of(keys, keys.len())
}

/// Whether an order takes each of the first `n` entries once.
pub open spec fn takes_each_once(order: Seq<int>, n: nat) -> bool {
    &&& order.len() == n
    &&& forall|i: int| 0 <= i < n ==> 0 <= (#[trigger] order[i]) < n
    &&& forall|i: int, j: int| 0 <= i < j < n ==> #[trigger] order[i] != #[trigger] order[j]
}

/// Whether the keys ascend in an order, and entries with equal keys stay in the
/// order in which they were.
pub open spec fn ascends(order: Seq<int>, keys: Seq<SortKey>) -> bool {
    forall|i: int, j: int|
        0 <= i < j < order.len() ==> {
            let a = #[trigger] order[i];
            let b = #[trigger] order[j];
            precedes(keys[a], keys[b]) || (!precedes(keys[b], keys[a]) && a < b)
        }
}

proof fn lemma_place(order: Seq<int>, keys: Seq<SortKey>, key: SortKey, i: int)
    requires
        0 <= i <= order.len(),
    ensures
        i <= place(order, keys, key, i) <= order.len(),
        forall|k: int|
            i <= k < place(order, keys, key, i) ==> !precedes(key, keys[#[trigger] order[k]]),
        place(order, keys, key, i) < order.len() ==> precedes(
            key,
            keys[order[place(order, keys, key, i)]],
        ),
    decreases order.len() - i,
{
    if i < order.len() && !precedes(key, keys[order[i]]) {
        lemma_place(order, keys, key, i + 1);
    }
}

proof fn lemma_order_of(keys: Seq<SortKey>, n: nat)
    requires
        n <= keys.len(),
    ensures
        takes_each_once(order_of(keys, n), n),
        ascends(order_of(keys, n), keys),
    decreases n,
{
    if n > 0 {
        let before = order_of(keys, (n - 1) as nat);
        let x = n - 1;
        lemma_order_of(keys, (n - 1) as nat);
        lemma_place(before, keys, keys[x], 0);
        let p = place(before, keys, keys[x], 0);
        let order = before.insert(p, x);
        assert forall|i: int, j: int| 0 <= i < j < n implies #[trigger] order[i]
            != #[trigger] order[j] by {
            let i0 = if i < p {
                i
            } else {
                i - 1
            };
            let j0 = if j < p {
                j
            } else {
                j - 1
            };
            if i != p {
                assert(order[i] == before[i0]);
            }
            if j != p {
                assert(order[j] == before[j0]);
            }
        }
        assert forall|i: int, j: int| 0 <= i < j < order.len() implies {
            let a = #[trigger] order[i];
            let b = #[trigger] order[j];
            precedes(keys[a], keys[b]) || (!precedes(keys[b], keys[a]) && a < b)
        } by {
            if j == p {
                assert(order[i] == before[i]);
            } else if i == p {
                assert(order[j] == before[j - 1]);
                if p < before.len() {
                    assert(precedes(keys[x], keys[before[p]]));
                    if j - 1 > p {
                        assert(before[p] != before[j - 1]);
                    }
                }
            } else {
                let i0 = if i < p {
                    i
                } else {
                    i - 1
                };
                let j0 = if j < p {
                    j
                } else {
                    j - 1
                };
                assert(order[i] == before[i0]);
                assert(order[j] == before[j0]);
            }
        }
    }
}

/// The order takes each entry once, its keys ascend, and entries with equal keys
/// stay as they are.
pub proof fn law_sorted_order(keys: Seq<SortKey>)
    ensures
        takes_each_once(sorted_order(keys), keys.len()),
        ascends(sorted_order(keys), keys),
{
    lemma_order_of(keys, keys.len());
}

/// Where an entry stands in the order of the first `n`.
proof fn lemma_order_holds(keys: Seq<SortKey>, n: nat, x: int) -> (i: int)
    requires
        n <= keys.len(),
        0 <= x < n,
    ensures
        0 <= i < order_of(keys, n).len(),
        order_of(keys, n)[i] == x,
    decreases n,
{
    let before = order_of(keys, (n - 1) as nat);
    lemma_order_of(keys, (n - 1) as nat);
    lemma_place(before, keys, keys[n - 1], 0);
    let p = place(before, keys, keys[n - 1], 0);
    if x == n - 1 {
        p
    } else {
        let i = lemma_order_holds(keys, (n - 1) as nat, x);
        if i < p {
            i
        } else {
            i + 1
        }
    }
}

/// Every entry has a place in the order.
pub proof fn law_sorted_order_leaves_none_out(keys: Seq<SortKey>, x: int) -> (i: int)
    requires
        0 <= x < keys.len(),
    ensures
        0 <= i < sorted_order(keys).len(),
        sorted_order(keys)[i] == x,
{
    lemma_order_holds(keys, keys.len(), x)
}

/// The positions of a list as integers.
pub open spec fn positions(order: Seq<usize>) -> Seq<int> {
    Seq::new(order.len(), |i: int| order[i] as int)
}

/// The order in which the keys ascend.
pub fn sort_order(keys: &Vec<SortKey>) -> (r: Vec<usize>)
    ensures
        positions(r@) == sorted_order(keys@),
        r@.len() == keys@.len(),
        forall|i: int| 0 <= i < r@.len() ==> (#[trigger] r@[i]) < keys@.len(),
{
    let mut order: Vec<usize> = Vec::new();
    assert(positions(order@) =~= order_of(keys@, 0));
    let mut x: usize = 0;
    while x < keys.len()
        invariant
            x <= keys@.len(),
            positions(order@) == order_of(keys@, x as nat),
            order@.len() == x,
        decreases keys@.len() - x,
    {
        proof {
            lemma_order_of(keys@, x as nat);
        }
        let ghost before = positions(order@);
        let key = keys[x];
        let mut p: usize = 0;
        assert forall|k: int| 0 <= k < order@.len() implies (#[trigger] order@[k]) < x by {
            assert(before[k] == order@[k]);
        }
        while p < order.len() && !comes_before(key, keys[order[p]])
            invariant
                p <= order@.len(),
                x < keys@.len(),
                key == keys@[x as int],
                before == positions(order@),
                forall|k: int| 0 <= k < order@.len() ==> (#[trigger] order@[k]) < x,
                place(before, keys@, key, 0) == place(before, keys@, key, p as int),
            decreases order@.len() - p,
        {
            p += 1;
        }
        order.insert(p, x);
        assert(positions(order@) =~= before.insert(p as int, x as int));
        x += 1;
    }
    proof {
        law_sorted_order(keys@);
        assert forall|i: int| 0 <= i < order@.len() implies (#[trigger] order@[i])
            < keys@.len() by {
            assert(positions(order@)[i] == order@[i]);
        }
    }
    order
}

} // verus!
