use vstd::prelude::*;

verus! {

/// Where index `i` goes in `order`, which runs from the largest key to the smallest:
/// after every entry whose key is at least `keys[i]`.
pub open spec fn insert_pos(order: Seq<usize>, keys: Seq<i128>, i: int) -> int
    decreases order.len(),
{
    if order.len() == 0 {
        0
    } else if keys[order.last() as int] >= keys[i] {
        order.len() as int
    } else {
        insert_pos(order.drop_last(), keys, i)
    }
}

/// The indices `0..n`, from the largest key to the smallest; equal keys keep their
/// order of index.
pub open spec fn draw_order(keys: Seq<i128>, n: nat) -> Seq<usize>
    decreases n,
{
    if n == 0 {
        Seq::empty()
    } else {
        let prev = draw_order(keys, (n - 1) as nat);
        prev.insert(insert_pos(prev, keys, n - 1), (n - 1) as usize)
    }
}

proof fn lemma_insert_pos_bound(order: Seq<usize>, keys: Seq<i128>, i: int)
    ensures
        0 <= insert_pos(order, keys, i) <= order.len(),
    decreases order.len(),
{
    if order.len() > 0 {
        lemma_insert_pos_bound(order.drop_last(), keys, i);
    }
}

/// Every entry of the order is one of the indices it sorts.
pub proof fn lemma_draw_order_indices(keys: Seq<i128>, n: nat)
    ensures
        draw_order(keys, n).len() == n,
        forall|k: int| 0 <= k < n ==> (#[trigger] draw_order(keys, n)[k]) < n,
    decreases n,
{
    if n > 0 {
        lemma_draw_order_indices(keys, (n - 1) as nat);
        let prev = draw_order(keys, (n - 1) as nat);
        lemma_insert_pos_bound(prev, keys, n - 1);
        let r = draw_order(keys, n);
        assert forall|k: int| 0 <= k < n implies (#[trigger] r[k]) < n by {
            let p = insert_pos(prev, keys, n - 1);
            if k < p {
                assert(r[k] == prev[k]);
            } else if k > p {
                assert(r[k] == prev[k - 1]);
            }
        }
    }
}

/// The indices of `keys` from the largest key to the smallest, equal keys in order of index.
pub fn far_to_near(keys: &Vec<i128>) -> (r: Vec<usize>)
    ensures
        r@ == draw_order(keys@, keys@.len()),
        forall|k: int| 0 <= k < r@.len() ==> (#[trigger] r@[k]) < keys@.len(),
{
    let n = keys.len();
    let mut order: Vec<usize> = Vec::new();
    let mut i: usize = 0;
    while i < n
        invariant
            n == keys@.len(),
            i <= n,
            order@ == draw_order(keys@, i as nat),
        decreases n - i,
    {
        proof {
            lemma_draw_order_indices(keys@, i as nat);
        }
        let mut j: usize = order.len();
        assert(order@.take(j as int) == order@);
        while j > 0 && keys[order[j - 1]] < keys[i]
            invariant
                n == keys@.len(),
                i < n,
                order@ == draw_order(keys@, i as nat),
                order@.len() == i,
                forall|k: int| 0 <= k < i ==> (#[trigger] order@[k]) < i,
                j <= order@.len(),
                insert_pos(order@, keys@, i as int) == insert_pos(order@.take(j as int), keys@, i as int),
            decreases j,
        {
            assert(order@.take(j as int).drop_last() == order@.take(j - 1));
            j = j - 1;
        }
        proof {
            assert(order@.take(order@.len() as int) == order@);
            if j > 0 {
                assert(order@.take(j as int).last() == order@[j - 1]);
            }
        }
        order.insert(j, i);
        i = i + 1;
    }
    proof {
        lemma_draw_order_indices(keys@, n as nat);
    }
    order
}

} // verus!
