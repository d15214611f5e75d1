//! Painter's-algorithm ordering: a stable sort of items by a two-part key.
//!
//! Items are named by their index in the caller's list. The order lists the
//! indices so that keys never decrease, and items with equal keys keep the
//! order in which the caller gave them.

use vstd::prelude::*;

verus! {

/// A depth key: the major part decides, the minor part breaks ties.
pub type DepthKey = (i64, i64);

/// `a` is strictly in front of `b` in key order.
pub open spec fn key_before(a: DepthKey, b: DepthKey) -> bool {
    a.0 < b.0 || (a.0 == b.0 && a.1 < b.1)
}

/// Item `i` is drawn before item `j`: its key is smaller, or the keys are
/// equal and it came first in the list.
pub open spec fn drawn_before(keys: Seq<DepthKey>, i: int, j: int) -> bool {
    key_before(keys[i], keys[j]) || (keys[i] == keys[j] && i < j)
}

/// `order` lists each of the first `n` items once, in drawing order.
pub open spec fn is_depth_order_of(keys: Seq<DepthKey>, n: int, order: Seq<usize>) -> bool {
    &&& order.len() == n
    &&& forall|k: int| 0 <= k < n ==> (#[trigger] order[k]) < n
    &&& forall|a: int, b: int|
        0 <= a < b < n ==> drawn_before(keys, #[trigger] order[a] as int, #[trigger] order[b] as int)
    &&& forall|i: usize| i < n ==> #[trigger] order.contains(i)
}

/// `order` lists every item once, in drawing order.
pub open spec fn is_depth_order(keys: Seq<DepthKey>, order: Seq<usize>) -> bool {
    is_depth_order_of(keys, keys.len() as int, order)
}

/// Where item `i` goes into `order`: behind the last item whose key is not
/// greater than its own.
pub open spec fn insert_pos(keys: Seq<DepthKey>, order: Seq<usize>, i: int) -> int
    decreases order.len(),
{
    if order.len() == 0 {
        0
    } else if key_before(keys[i], keys[order.last() as int]) {
        insert_pos(keys, order.drop_last(), i)
    } else {
        order.len() as int
    }
}

/// The drawing order of the first `n` items.
pub open spec fn depth_order_of(keys: Seq<DepthKey>, n: nat) -> Seq<usize>
    decreases n,
{
    if n == 0 {
        Seq::empty()
    } else {
        let rest = depth_order_of(keys, (n - 1) as nat);
        rest.insert(insert_pos(keys, rest, n - 1), (n - 1) as usize)
    }
}

/// The drawing order of all items.
pub open spec fn depth_order(keys: Seq<DepthKey>) -> Seq<usize> {
    depth_order_of(keys, keys.len())
}

proof fn lemma_insert_pos(keys: Seq<DepthKey>, order: Seq<usize>, i: int)
    ensures
        0 <= insert_pos(keys, order, i) <= order.len(),
        forall|j: int|
            insert_pos(keys, order, i) <= j < order.len() ==> key_before(
                keys[i],
                keys[#[trigger] order[j] as int],
            ),
        insert_pos(keys, order, i) > 0 ==> !key_before(
            keys[i],
            keys[order[insert_pos(keys, order, i) - 1] as int],
        ),
    decreases order.len(),
{
    if order.len() > 0 && key_before(keys[i], keys[order.last() as int]) {
        lemma_insert_pos(keys, order.drop_last(), i);
        let p = insert_pos(keys, order.drop_last(), i);
        assert forall|j: int| p <= j < order.len() implies key_before(
            keys[i],
            keys[#[trigger] order[j] as int],
        ) by {
            if j < order.len() - 1 {
                assert(order.drop_last()[j] == order[j]);
            }
        }
        if p > 0 {
            assert(order.drop_last()[p - 1] == order[p - 1]);
        }
    }
}

/// The order built by insertion is the drawing order: every item once, keys
/// never decreasing, equal keys in list order.
pub proof fn lemma_depth_order_of(keys: Seq<DepthKey>, n: nat)
    requires
        n <= keys.len(),
        n <= usize::MAX,
    ensures
        is_depth_order_of(keys, n as int, depth_order_of(keys, n)),
    decreases n,
{
    if n > 0 {
        let m = (n - 1) as nat;
        lemma_depth_order_of(keys, m);
        let rest = depth_order_of(keys, m);
        let p = insert_pos(keys, rest, m as int);
        lemma_insert_pos(keys, rest, m as int);
        let order = rest.insert(p, m as usize);
        assert(order == depth_order_of(keys, n));
        assert forall|j: int| 0 <= j < p implies !key_before(
            keys[m as int],
            keys[#[trigger] rest[j] as int],
        ) by {
            if j < p - 1 {
                assert(drawn_before(keys, rest[j] as int, rest[p - 1] as int));
            }
        }
        assert forall|a: int, b: int| 0 <= a < b < n implies drawn_before(
            keys,
            #[trigger] order[a] as int,
            #[trigger] order[b] as int,
        ) by {
            if b < p {
                assert(order[a] == rest[a] && order[b] == rest[b]);
            } else if b == p {
                assert(order[a] == rest[a]);
                assert(rest[a] < m);
            } else if a < p {
                assert(order[a] == rest[a] && order[b] == rest[b - 1]);
            } else if a == p {
                assert(order[b] == rest[b - 1]);
            } else {
                assert(order[a] == rest[a - 1] && order[b] == rest[b - 1]);
            }
        }
        assert forall|k: int| 0 <= k < n implies (#[trigger] order[k]) < n by {
            if k < p {
                assert(order[k] == rest[k]);
            } else if k > p {
                assert(order[k] == rest[k - 1]);
            }
        }
        assert forall|i: usize| i < n implies #[trigger] order.contains(i) by {
            if i == m {
                assert(order[p] == i);
            } else {
                assert(rest.contains(i));
                let k0 = choose|k: int| 0 <= k < rest.len() && rest[k] == i;
                if k0 < p {
                    assert(order[k0] == i);
                } else {
                    assert(order[k0 + 1] == i);
                }
            }
        }
    }
}

/// A depth order names every item once, draws a smaller key before a greater
/// one, and draws equal keys in the order of the list.
pub proof fn lemma_depth_order(keys: Seq<DepthKey>)
    requires
        keys.len() <= usize::MAX,
    ensures
        is_depth_order(keys, depth_order(keys)),
        forall|a: int, b: int|
            #![trigger depth_order(keys)[a], depth_order(keys)[b]]
            0 <= a < keys.len() && 0 <= b < keys.len() && key_before(
                keys[depth_order(keys)[a] as int],
                keys[depth_order(keys)[b] as int],
            ) ==> a < b,
        forall|a: int, b: int|
            #![trigger depth_order(keys)[a], depth_order(keys)[b]]
            0 <= a < keys.len() && 0 <= b < keys.len() && keys[depth_order(keys)[a] as int]
                == keys[depth_order(keys)[b] as int] && depth_order(keys)[a] < depth_order(
                keys,
            )[b] ==> a < b,
{
    lemma_depth_order_of(keys, keys.len());
    let order = depth_order(keys);
    assert forall|a: int, b: int|
        #![trigger order[a], order[b]]
        0 <= a < keys.len() && 0 <= b < keys.len() && a >= b implies !key_before(
        keys[order[a] as int],
        keys[order[b] as int],
    ) && !(keys[order[a] as int] == keys[order[b] as int] && order[a] < order[b]) by {
        if a > b {
            assert(drawn_before(keys, order[b] as int, order[a] as int));
        }
    }
}

proof fn lemma_orders_agree(keys: Seq<DepthKey>, a: Seq<usize>, b: Seq<usize>, k: int)
    requires
        is_depth_order(keys, a),
        is_depth_order(keys, b),
        0 <= k <= keys.len(),
    ensures
        forall|j: int| 0 <= j < k ==> a[j] == b[j],
    decreases k,
{
    if k > 0 {
        lemma_orders_agree(keys, a, b, k - 1);
        let i = k - 1;
        assert(a[i] < keys.len() && b[i] < keys.len());
        assert(b.contains(a[i]));
        assert(a.contains(b[i]));
        let m = choose|m: int| 0 <= m < b.len() && b[m] == a[i];
        let n = choose|n: int| 0 <= n < a.len() && a[n] == b[i];
        if m < i {
            assert(drawn_before(keys, a[m] as int, a[i] as int));
        }
        if n < i {
            assert(drawn_before(keys, b[n] as int, b[i] as int));
        }
        if m > i {
            assert(drawn_before(keys, b[i] as int, b[m] as int));
        }
        if n > i {
            assert(drawn_before(keys, a[i] as int, a[n] as int));
        }
    }
}

/// There is one drawing order only: whatever lists every item once, smaller
/// keys first and equal keys in list order, is `depth_order`.
pub proof fn lemma_depth_order_unique(keys: Seq<DepthKey>, order: Seq<usize>)
    requires
        keys.len() <= usize::MAX,
        is_depth_order(keys, order),
    ensures
        order == depth_order(keys),
{
    lemma_depth_order(keys);
    lemma_orders_agree(keys, order, depth_order(keys), keys.len() as int);
    assert(order =~= depth_order(keys));
}

/// Computes the drawing order of `keys`.
pub fn depth_sorted(keys: &Vec<DepthKey>) -> (order: Vec<usize>)
    ensures
        order@ == depth_order(keys@),
        is_depth_order(keys@, order@),
{
    let mut order: Vec<usize> = Vec::new();
    let mut i: usize = 0;
    while i < keys.len()
        invariant
            i <= keys@.len(),
            order@ == depth_order_of(keys@, i as nat),
            is_depth_order_of(keys@, i as int, order@),
        decreases keys@.len() - i,
    {
        let key = keys[i];
        let mut p: usize = order.len();
        assert(order@.take(p as int) =~= order@);
        while p > 0 && (key.0 < keys[order[p - 1]].0 || (key.0 == keys[order[p - 1]].0 && key.1
            < keys[order[p - 1]].1))
            invariant
                p <= order@.len(),
                i < keys@.len(),
                key == keys@[i as int],
                is_depth_order_of(keys@, i as int, order@),
                insert_pos(keys@, order@, i as int) == insert_pos(
                    keys@,
                    order@.take(p as int),
                    i as int,
                ),
            decreases p,
        {
            assert(order@.take(p as int).drop_last() =~= order@.take(p - 1));
            p -= 1;
        }
        proof {
            if p > 0 {
                assert(order@.take(p as int).last() == order@[p - 1]);
            }
            assert(insert_pos(keys@, order@, i as int) == p);
            lemma_depth_order_of(keys@, (i + 1) as nat);
        }
        order.insert(p, i);
        i += 1;
    }
    order
}

} // verus!
