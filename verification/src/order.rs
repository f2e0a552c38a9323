use crate::css::stylesheet::{rank_lt, specificity_lt, Specificity};
use vstd::prelude::*;

verus! {

/// Whether rank `a` comes strictly before rank `b` in the chosen direction.
pub open spec fn precedes(a: Specificity, b: Specificity, descending: bool) -> bool {
    if descending {
        rank_lt(b, a)
    } else {
        rank_lt(a, b)
    }
}

/// Whether rank `a` comes strictly before rank `b` in the chosen direction.
pub fn goes_before(a: Specificity, b: Specificity, descending: bool) -> (r: bool)
    ensures
        r == precedes(a, b, descending),
{
    if descending {
        specificity_lt(b, a)
    } else {
        specificity_lt(a, b)
    }
}

/// The place at which item `x` enters the order `order` of earlier items: behind
/// every item that it does not strictly precede, found from the back.
pub open spec fn insert_point(
    ranks: Seq<Specificity>,
    order: Seq<usize>,
    x: int,
    descending: bool,
) -> int
    decreases order.len(),
{
    if order.len() == 0 {
        0
    } else if precedes(ranks[x], ranks[order.last() as int], descending) {
        insert_point(ranks, order.drop_last(), x, descending)
    } else {
        order.len() as int
    }
}

/// The first `n` places of `ranks` in stable order: by rank in the chosen
/// direction, and places of equal rank in their own order. It is built as a
/// stable sort builds it, each place entering the order of those before it.
pub open spec fn stable_order(ranks: Seq<Specificity>, n: nat, descending: bool) -> Seq<usize>
    decreases n,
{
    if n == 0 {
        Seq::empty()
    } else {
        let before = stable_order(ranks, (n - 1) as nat, descending);
        before.insert(insert_point(ranks, before, n - 1, descending), (n - 1) as usize)
    }
}

/// The places of `ranks` in stable order: by rank, ascending or descending,
/// and places of equal rank in their own order.
pub fn sort_places(ranks: &Vec<Specificity>, descending: bool) -> (order: Vec<usize>)
    ensures
        order@ == stable_order(ranks@, ranks@.len(), descending),
{
    let mut order: Vec<usize> = Vec::new();
    let mut n: usize = 0;
    while n < ranks.len()
        invariant
            n <= ranks@.len(),
            order@ == stable_order(ranks@, n as nat, descending),
            order@.len() == n,
            forall|j: int| 0 <= j < order@.len() ==> #[trigger] order@[j] < n,
        decreases ranks@.len() - n,
    {
        let mut k: usize = order.len();
        assert(order@.subrange(0, k as int) =~= order@);
        while k > 0 && goes_before(ranks[n], ranks[order[k - 1]], descending)
            invariant
                k <= order@.len(),
                n < ranks@.len(),
                forall|j: int| 0 <= j < order@.len() ==> #[trigger] order@[j] < n,
                insert_point(ranks@, order@, n as int, descending) == insert_point(
                    ranks@,
                    order@.subrange(0, k as int),
                    n as int,
                    descending,
                ),
            decreases k,
        {
            assert(order@.subrange(0, k as int).drop_last() =~= order@.subrange(0, k - 1));
            k -= 1;
        }
        proof {
            let prefix = order@.subrange(0, k as int);
            if k > 0 {
                assert(prefix.last() == order@[k - 1]);
            }
            assert(insert_point(ranks@, prefix, n as int, descending) == k);
        }
        order.insert(k, n);
        n += 1;
    }
    order
}

/// Whether place `u` stands before place `v` in stable order: its rank comes
/// first, or the ranks are equal and `u` is the earlier place.
pub open spec fn in_order(ranks: Seq<Specificity>, u: int, v: int, descending: bool) -> bool {
    precedes(ranks[u], ranks[v], descending) || (ranks[u] == ranks[v] && u < v)
}

/// Whether place `i` is an entry of `order`.
pub open spec fn listed(order: Seq<usize>, i: int) -> bool {
    exists|j: int| 0 <= j < order.len() && #[trigger] order[j] == i
}

/// Where item `x` enters: it strictly precedes every item behind that place
/// and not the item just before it.
proof fn lemma_insert_point(ranks: Seq<Specificity>, order: Seq<usize>, x: int, descending: bool)
    ensures
        0 <= insert_point(ranks, order, x, descending) <= order.len(),
        forall|j: int|
            insert_point(ranks, order, x, descending) <= j < order.len() ==> precedes(
                ranks[x],
                ranks[#[trigger] order[j] as int],
                descending,
            ),
        insert_point(ranks, order, x, descending) > 0 ==> !precedes(
            ranks[x],
            ranks[order[insert_point(ranks, order, x, descending) - 1] as int],
            descending,
        ),
    decreases order.len(),
{
    if order.len() > 0 && precedes(ranks[x], ranks[order.last() as int], descending) {
        let shorter = order.drop_last();
        lemma_insert_point(ranks, shorter, x, descending);
        let k = insert_point(ranks, order, x, descending);
        assert forall|j: int| k <= j < order.len() implies precedes(
            ranks[x],
            ranks[#[trigger] order[j] as int],
            descending,
        ) by {
            if j < shorter.len() {
                assert(shorter[j] == order[j]);
            }
        }
        if k > 0 {
            assert(shorter[k - 1] == order[k - 1]);
        }
    }
}

/// The stable order of the first `n` places holds each of them once, and any
/// two of its entries stand in order.
pub proof fn lemma_stable_order(ranks: Seq<Specificity>, n: nat, descending: bool)
    requires
        n <= ranks.len() <= usize::MAX,
    ensures
        stable_order(ranks, n, descending).len() == n,
        forall|j: int| 0 <= j < n ==> #[trigger] stable_order(ranks, n, descending)[j] < n,
        forall|i: int| 0 <= i < n ==> #[trigger] listed(stable_order(ranks, n, descending), i),
        forall|a: int, b: int|
            0 <= a < b < n ==> in_order(
                ranks,
                #[trigger] stable_order(ranks, n, descending)[a] as int,
                #[trigger] stable_order(ranks, n, descending)[b] as int,
                descending,
            ),
    decreases n,
{
    if n > 0 {
        let m = (n - 1) as nat;
        let before = stable_order(ranks, m, descending);
        let k = insert_point(ranks, before, m as int, descending);
        let after = stable_order(ranks, n, descending);
        lemma_stable_order(ranks, m, descending);
        lemma_insert_point(ranks, before, m as int, descending);
        assert(after == before.insert(k, m as usize));
        assert forall|i: int| 0 <= i < n implies #[trigger] listed(after, i) by {
            if i == m {
                assert(after[k] == i);
            } else {
                assert(listed(before, i));
                let j0 = choose|j: int| 0 <= j < before.len() && #[trigger] before[j] == i;
                if j0 < k {
                    assert(after[j0] == i);
                } else {
                    assert(after[j0 + 1] == i);
                }
            }
        }
        assert forall|a: int, b: int| 0 <= a < b < n implies in_order(
            ranks,
            #[trigger] after[a] as int,
            #[trigger] after[b] as int,
            descending,
        ) by {
            if a == k {
                assert(after[b] == before[b - 1]);
            } else if b == k {
                assert(after[a] == before[a]);
                if a < k - 1 {
                    assert(in_order(ranks, before[a] as int, before[k - 1] as int, descending));
                }
            } else {
                let a0 = if a < k { a } else { a - 1 };
                let b0 = if b < k { b } else { b - 1 };
                assert(after[a] == before[a0]);
                assert(after[b] == before[b0]);
            }
        }
    }
}

} // verus!
