//! Stable arrangement of a list by an optional whole-number key.
//!
//! An entry without a key goes after every entry that has one. Entries with
//! equal keys keep the order they came in.

use vstd::prelude::*;

verus! {

/// Key `a` goes strictly before key `b`: a key before none, and two keys by
/// size, the greater first when `descending`, else the smaller.
pub open spec fn ranks_before(a: Option<int>, b: Option<int>, descending: bool) -> bool {
    match (a, b) {
        (Some(x), Some(y)) => if descending {
            x > y
        } else {
            x < y
        },
        (Some(_), None) => true,
        _ => false,
    }
}

/// Entry `i` goes before entry `j`: by key, and by position where the keys
/// are equal.
pub open spec fn goes_before(keys: Seq<Option<int>>, i: int, j: int, descending: bool) -> bool {
    ranks_before(keys[i], keys[j], descending) || (keys[i] == keys[j] && i < j)
}

/// `order` lists the positions of `keys`, each once, so that every entry goes
/// before all that follow it.
pub open spec fn is_stable_order(order: Seq<int>, keys: Seq<Option<int>>, descending: bool) -> bool {
    &&& order.len() == keys.len()
    &&& forall|a: int| 0 <= a < order.len() ==> 0 <= #[trigger] order[a] < keys.len()
    &&& forall|k: int| 0 <= k < keys.len() ==> #[trigger] order.contains(k)
    &&& forall|a: int, b: int|
        0 <= a < b < order.len() ==> goes_before(keys, #[trigger] order[a], #[trigger] order[b], descending)
}

/// The entries of `items` in the order that `order` lists their positions.
pub open spec fn arranged<T>(items: Seq<T>, order: Seq<int>) -> Seq<T> {
    Seq::new(order.len(), |a: int| items[order[a]])
}

/// `after` is `before` sorted stably by `keys`.
pub open spec fn is_stable_sort<T>(
    before: Seq<T>,
    after: Seq<T>,
    keys: Seq<Option<int>>,
    descending: bool,
) -> bool {
    &&& keys.len() == before.len()
    &&& exists|order: Seq<int>| #[trigger]
        is_stable_order(order, keys, descending) && after == arranged(before, order)
}

/// A key as a mathematical integer.
pub open spec fn key_int(key: Option<i128>) -> Option<int> {
    match key {
        Some(x) => Some(x as int),
        None => None,
    }
}

/// The keys as mathematical integers.
pub open spec fn key_ints(keys: Seq<Option<i128>>) -> Seq<Option<int>> {
    keys.map_values(|k: Option<i128>| key_int(k))
}

/// The positions as mathematical integers.
pub open spec fn position_ints(order: Seq<usize>) -> Seq<int> {
    order.map_values(|p: usize| p as int)
}

/// Two stable orders of the same keys agree on their first `upto` places.
proof fn lemma_orders_agree(
    first: Seq<int>,
    second: Seq<int>,
    keys: Seq<Option<int>>,
    descending: bool,
    upto: int,
)
    requires
        is_stable_order(first, keys, descending),
        is_stable_order(second, keys, descending),
        0 <= upto <= keys.len(),
    ensures
        forall|a: int| 0 <= a < upto ==> first[a] == second[a],
    decreases upto,
{
    if upto > 0 {
        lemma_orders_agree(first, second, keys, descending, upto - 1);
        let i = upto - 1;
        let x = first[i];
        let y = second[i];
        if x != y {
            assert(second.contains(x));
            let jx = choose|j: int| 0 <= j < second.len() && second[j] == x;
            assert(first.contains(y));
            let jy = choose|j: int| 0 <= j < first.len() && first[j] == y;
            if jx < i {
                assert(first[jx] == x);
                assert(goes_before(keys, first[jx], first[i], descending));
            } else if jy < i {
                assert(second[jy] == y);
                assert(goes_before(keys, second[jy], second[i], descending));
            } else {
                assert(goes_before(keys, second[i], second[jx], descending));
                assert(goes_before(keys, first[i], first[jy], descending));
            }
        }
    }
}

/// There is one stable order of given keys, and so one stable sort of a list.
pub proof fn lemma_stable_sort_unique<T>(
    before: Seq<T>,
    first: Seq<T>,
    second: Seq<T>,
    keys: Seq<Option<int>>,
    descending: bool,
)
    requires
        is_stable_sort(before, first, keys, descending),
        is_stable_sort(before, second, keys, descending),
    ensures
        first == second,
{
    let o1 = choose|order: Seq<int>| #[trigger]
        is_stable_order(order, keys, descending) && first == arranged(before, order);
    let o2 = choose|order: Seq<int>| #[trigger]
        is_stable_order(order, keys, descending) && second == arranged(before, order);
    lemma_orders_agree(o1, o2, keys, descending, keys.len() as int);
    assert(o1 =~= o2);
}

/// A stable sort moves entries and neither drops nor adds one.
pub proof fn lemma_stable_sort_properties<T>(
    before: Seq<T>,
    after: Seq<T>,
    keys: Seq<Option<int>>,
    descending: bool,
)
    requires
        is_stable_sort(before, after, keys, descending),
    ensures
        after.len() == before.len(),
        forall|i: int| 0 <= i < before.len() ==> after.contains(#[trigger] before[i]),
        forall|a: int| 0 <= a < after.len() ==> before.contains(#[trigger] after[a]),
{
    let order = choose|order: Seq<int>| #[trigger]
        is_stable_order(order, keys, descending) && after == arranged(before, order);
    assert forall|i: int| 0 <= i < before.len() implies after.contains(#[trigger] before[i]) by {
        assert(order.contains(i));
        let a = choose|a: int| 0 <= a < order.len() && order[a] == i;
        assert(after[a] == before[i]);
    }
    assert forall|a: int| 0 <= a < after.len() implies before.contains(#[trigger] after[a]) by {
        assert(before[order[a]] == after[a]);
    }
}

/// A stable sort leaves the entries in the order of their keys: no entry
/// stands behind one whose key goes strictly after its own.
pub proof fn lemma_stable_sort_in_key_order<T>(
    before: Seq<T>,
    after: Seq<T>,
    key_of: spec_fn(T) -> Option<int>,
    descending: bool,
)
    requires
        is_stable_sort(before, after, before.map_values(key_of), descending),
    ensures
        forall|a: int, b: int|
            0 <= a < b < after.len() ==> !ranks_before(
                key_of(#[trigger] after[b]),
                key_of(#[trigger] after[a]),
                descending,
            ),
{
    let keys = before.map_values(key_of);
    let order = choose|order: Seq<int>| #[trigger]
        is_stable_order(order, keys, descending) && after == arranged(before, order);
    assert forall|a: int, b: int| 0 <= a < b < after.len() implies !ranks_before(
        key_of(#[trigger] after[b]),
        key_of(#[trigger] after[a]),
        descending,
    ) by {
        assert(goes_before(keys, order[a], order[b], descending));
        assert(keys[order[a]] == key_of(after[a]));
        assert(keys[order[b]] == key_of(after[b]));
    }
}

fn key_before(a: Option<i128>, b: Option<i128>, descending: bool) -> (r: bool)
    ensures
        r == ranks_before(key_int(a), key_int(b), descending),
{
    match (a, b) {
        (Some(x), Some(y)) => if descending {
            x > y
        } else {
            x < y
        },
        (Some(_), None) => true,
        _ => false,
    }
}

/// The stable order of `keys`: the positions of the entries, those with a key
/// first, by key, the greatest first when `descending`, else the smallest.
pub fn stable_order(keys: &Vec<Option<i128>>, descending: bool) -> (order: Vec<usize>)
    ensures
        is_stable_order(position_ints(order@), key_ints(keys@), descending),
        order.len() == keys.len(),
        forall|a: int| 0 <= a < order.len() ==> #[trigger] order[a] < keys.len(),
{
    let ghost ks = key_ints(keys@);
    let mut order: Vec<usize> = Vec::new();
    let mut i: usize = 0;
    while i < keys.len()
        invariant
            i <= keys.len(),
            ks == key_ints(keys@),
            order.len() == i,
            forall|a: int| 0 <= a < i ==> 0 <= #[trigger] order[a] < i,
            forall|k: int| 0 <= k < i ==> #[trigger] position_ints(order@).contains(k),
            forall|a: int, b: int|
                0 <= a < b < i ==> goes_before(
                    ks,
                    #[trigger] order[a] as int,
                    #[trigger] order[b] as int,
                    descending,
                ),
        decreases keys.len() - i,
    {
        let key = keys[i];
        let mut p: usize = 0;
        while p < order.len() && !key_before(key, keys[order[p]], descending)
            invariant
                p <= order.len(),
                order.len() == i,
                i < keys.len(),
                key == keys[i as int],
                ks == key_ints(keys@),
                forall|a: int| 0 <= a < i ==> 0 <= #[trigger] order[a] < i,
                forall|a: int| 0 <= a < p ==> !ranks_before(ks[i as int], ks[order[a] as int], descending),
            decreases order.len() - p,
        {
            p += 1;
        }
        let ghost old_order = order@;
        order.insert(p, i);
        proof {
            let new_order = order@;
            assert forall|a: int| 0 <= a < i + 1 implies 0 <= #[trigger] new_order[a] < i + 1 by {
                if a < p {
                    assert(new_order[a] == old_order[a]);
                } else if a > p {
                    assert(new_order[a] == old_order[a - 1]);
                }
            }
            assert forall|k: int| 0 <= k < i + 1 implies #[trigger] position_ints(
                new_order,
            ).contains(k) by {
                if k == i {
                    assert(position_ints(new_order)[p as int] == k);
                } else {
                    assert(position_ints(old_order).contains(k));
                    let a = choose|a: int|
                        0 <= a < position_ints(old_order).len() && position_ints(old_order)[a]
                            == k;
                    if a < p {
                        assert(position_ints(new_order)[a] == k);
                    } else {
                        assert(position_ints(new_order)[a + 1] == k);
                    }
                }
            }
            assert forall|a: int, b: int| 0 <= a < b < i + 1 implies goes_before(
                ks,
                #[trigger] new_order[a] as int,
                #[trigger] new_order[b] as int,
                descending,
            ) by {
                let ia: int = if a < p {
                    a
                } else {
                    a - 1
                };
                let ib: int = if b < p {
                    b
                } else {
                    b - 1
                };
                if a != p {
                    assert(new_order[a] == old_order[ia]);
                }
                if b != p {
                    assert(new_order[b] == old_order[ib]);
                }
                if a == p {
                    // the new entry before a later one
                    if ib > p {
                        assert(goes_before(
                            ks,
                            old_order[p as int] as int,
                            old_order[ib] as int,
                            descending,
                        ));
                    }
                } else if b == p {
                    // an earlier entry before the new one
                } else {
                    assert(goes_before(ks, old_order[ia] as int, old_order[ib] as int, descending));
                }
            }
        }
        i += 1;
    }
    proof {
        let ints = position_ints(order@);
        assert forall|a: int, b: int| 0 <= a < b < ints.len() implies goes_before(
            ks,
            #[trigger] ints[a],
            #[trigger] ints[b],
            descending,
        ) by {
            assert(goes_before(ks, order[a] as int, order[b] as int, descending));
        }
    }
    order
}

} // verus!
