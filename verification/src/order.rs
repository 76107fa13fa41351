//! Ordering texts, and sorting by them.

use crate::text::{chars_of, views};
use vstd::prelude::*;

verus! {

/// Whether `a` comes before `b` in the order of character codes, a prefix
/// before what continues it.
pub open spec fn less(a: Seq<char>, b: Seq<char>) -> bool
    decreases a.len(),
{
    if b.len() == 0 {
        false
    } else if a.len() == 0 {
        true
    } else if a[0] != b[0] {
        a[0] < b[0]
    } else {
        less(a.drop_first(), b.drop_first())
    }
}

/// Whether the item at `i` comes before the item at `j`: by key, and by position
/// where the keys are equal.
pub open spec fn before(keys: Seq<Seq<char>>, i: int, j: int) -> bool {
    less(keys[i], keys[j]) || (keys[i] == keys[j] && i < j)
}

/// Whether `order` lists every position once, in stable order of the keys.
pub open spec fn is_stable_order(order: Seq<usize>, keys: Seq<Seq<char>>) -> bool {
    &&& order.len() == keys.len()
    &&& forall|i: int| 0 <= i < order.len() ==> (#[trigger] order[i]) < keys.len()
    &&& forall|i: int, j: int|
        0 <= i < j < order.len() ==> before(
            keys,
            #[trigger] order[i] as int,
            #[trigger] order[j] as int,
        )
}

pub proof fn lemma_less_irreflexive(a: Seq<char>)
    ensures
        !less(a, a),
    decreases a.len(),
{
    if a.len() > 0 {
        lemma_less_irreflexive(a.drop_first());
    }
}

pub proof fn lemma_less_transitive(a: Seq<char>, b: Seq<char>, c: Seq<char>)
    requires
        less(a, b),
        less(b, c),
    ensures
        less(a, c),
    decreases a.len(),
{
    if a.len() > 0 && b.len() > 0 && c.len() > 0 && a[0] == b[0] && b[0] == c[0] {
        lemma_less_transitive(a.drop_first(), b.drop_first(), c.drop_first());
    }
}

pub proof fn lemma_less_total(a: Seq<char>, b: Seq<char>)
    ensures
        less(a, b) || less(b, a) || a == b,
    decreases a.len(),
{
    if a.len() == 0 || b.len() == 0 {
        if a.len() == b.len() {
            assert(a =~= b);
        }
    } else if a[0] == b[0] {
        lemma_less_total(a.drop_first(), b.drop_first());
        if a.drop_first() == b.drop_first() {
            assert(a =~= seq![a[0]] + a.drop_first());
            assert(b =~= seq![b[0]] + b.drop_first());
        }
    }
}

/// `before` is a strict total order of the positions.
pub proof fn lemma_before(keys: Seq<Seq<char>>, i: int, j: int, k: int)
    ensures
        !before(keys, i, i),
        before(keys, i, j) || before(keys, j, i) || i == j,
        before(keys, i, j) && before(keys, j, k) ==> before(keys, i, k),
{
    lemma_less_irreflexive(keys[i]);
    lemma_less_total(keys[i], keys[j]);
    if less(keys[i], keys[j]) && less(keys[j], keys[k]) {
        lemma_less_transitive(keys[i], keys[j], keys[k]);
    }
}

/// Whether `a` comes before `b`.
pub fn is_less(a: &[char], b: &[char]) -> (r: bool)
    ensures
        r == less(a@, b@),
{
    let mut i: usize = 0;
    proof {
        assert(a@.skip(0) =~= a@);
        assert(b@.skip(0) =~= b@);
    }
    while i < a.len() && i < b.len() && a[i] == b[i]
        invariant
            i <= a@.len(),
            i <= b@.len(),
            less(a@, b@) == less(a@.skip(i as int), b@.skip(i as int)),
        decreases a@.len() - i,
    {
        i = i + 1;
        proof {
            assert(a@.skip(i - 1).drop_first() =~= a@.skip(i as int));
            assert(b@.skip(i - 1).drop_first() =~= b@.skip(i as int));
        }
    }
    if i == b.len() {
        false
    } else if i == a.len() {
        true
    } else {
        a[i] < b[i]
    }
}

/// The positions of the keys in stable order.
pub fn stable_order(keys: &Vec<Vec<char>>) -> (order: Vec<usize>)
    ensures
        is_stable_order(order@, key_views(keys@)),
        order@ == stable_order_of(key_views(keys@)),
{
    let mut order: Vec<usize> = Vec::new();
    let ghost ks = key_views(keys@);
    let mut n: usize = 0;
    while n < keys.len()
        invariant
            n <= keys@.len(),
            ks == key_views(keys@),
            order@.len() == n,
            forall|i: int| 0 <= i < n ==> (#[trigger] order@[i]) < n,
            forall|i: int, j: int|
                0 <= i < j < n ==> before(
                    ks,
                    #[trigger] order@[i] as int,
                    #[trigger] order@[j] as int,
                ),
        decreases keys@.len() - n,
    {
        // Insert position `n` behind the last one with a key that is not greater.
        let mut p: usize = n;
        while p > 0 && is_less(keys[n].as_slice(), keys[order[p - 1]].as_slice())
            invariant
                p <= n,
                n < keys@.len(),
                ks == key_views(keys@),
                order@.len() == n,
                forall|i: int| 0 <= i < n ==> (#[trigger] order@[i]) < n,
                forall|i: int| p <= i < n ==> before(ks, n as int, #[trigger] order@[i] as int),
            decreases p,
        {
            p = p - 1;
        }
        let ghost old_order = order@;
        order.insert(p, n);
        proof {
            if p > 0 {
                let q = old_order[p - 1] as int;
                lemma_less_total(ks[q], ks[n as int]);
                assert(before(ks, q, n as int));
            }
            assert forall|i: int| 0 <= i < n + 1 implies (#[trigger] order@[i]) < n + 1 by {
                if i < p {
                    assert(order@[i] == old_order[i]);
                } else if i > p {
                    assert(order@[i] == old_order[i - 1]);
                }
            }
            assert forall|i: int, j: int| 0 <= i < j < n + 1 implies before(
                ks,
                #[trigger] order@[i] as int,
                #[trigger] order@[j] as int,
            ) by {
                if i < p && j == p {
                    assert(order@[i] == old_order[i]);
                    if i < p - 1 {
                        lemma_before(ks, old_order[i] as int, old_order[p - 1] as int, n as int);
                    }
                } else if i == p {
                    assert(order@[j] == old_order[j - 1]);
                } else if j < p {
                    assert(order@[i] == old_order[i] && order@[j] == old_order[j]);
                } else if i < p {
                    assert(order@[i] == old_order[i] && order@[j] == old_order[j - 1]);
                } else {
                    assert(order@[i] == old_order[i - 1] && order@[j] == old_order[j - 1]);
                }
            }
        }
        n = n + 1;
    }
    proof {
        assert(is_stable_order(order@, ks));
        law_stable_order_is_unique(order@, stable_order_of(ks), ks);
    }
    order
}

/// The characters of each key.
pub open spec fn key_views(v: Seq<Vec<char>>) -> Seq<Seq<char>> {
    Seq::new(v.len(), |i: int| v[i]@)
}

/// The stable order of the keys.
pub open spec fn stable_order_of(keys: Seq<Seq<char>>) -> Seq<usize> {
    choose|order: Seq<usize>| is_stable_order(order, keys)
}

/// The items at the listed positions.
pub open spec fn arranged(order: Seq<usize>, items: Seq<Seq<char>>) -> Seq<Seq<char>> {
    Seq::new(order.len(), |i: int| items[order[i] as int])
}

/// The texts in ascending order.
pub open spec fn sorted(items: Seq<Seq<char>>) -> Seq<Seq<char>> {
    arranged(stable_order_of(items), items)
}

/// A list of distinct numbers below its length holds each of them.
pub proof fn lemma_all_positions(order: Seq<usize>, keys: Seq<Seq<char>>, p: usize)
    requires
        is_stable_order(order, keys),
        p < keys.len(),
    ensures
        order.contains(p),
{
    lemma_no_position_twice(order, keys);
    let ints = order.map_values(|x: usize| x as int);
    assert(ints.no_duplicates());
    ints.unique_seq_to_set();
    let all = vstd::set_lib::set_int_range(0, keys.len() as int);
    vstd::set_lib::lemma_int_range(0, keys.len() as int);
    assert(ints.to_set().subset_of(all));
    vstd::set_lib::lemma_subset_equality(ints.to_set(), all);
    assert(all.contains(p as int));
    let i = choose|i: int| 0 <= i < ints.len() && ints[i] == p as int;
    assert(order[i] == p);
}

/// The keys have one stable order only.
pub proof fn law_stable_order_is_unique(a: Seq<usize>, b: Seq<usize>, keys: Seq<Seq<char>>)
    requires
        is_stable_order(a, keys),
        is_stable_order(b, keys),
    ensures
        a == b,
{
    lemma_same_prefix(a, b, keys, keys.len() as int);
    assert(a.take(keys.len() as int) =~= a);
    assert(b.take(keys.len() as int) =~= b);
}

proof fn lemma_same_prefix(a: Seq<usize>, b: Seq<usize>, keys: Seq<Seq<char>>, n: int)
    requires
        is_stable_order(a, keys),
        is_stable_order(b, keys),
        0 <= n <= keys.len(),
    ensures
        a.take(n) == b.take(n),
    decreases n,
{
    if n > 0 {
        let k = n - 1;
        lemma_same_prefix(a, b, keys, k);
        assert(forall|i: int| 0 <= i < k ==> a.take(k)[i] == a[i] && b.take(k)[i] == b[i]);
        lemma_all_positions(a, keys, b[k]);
        lemma_all_positions(b, keys, a[k]);
        let p = choose|i: int| 0 <= i < b.len() && b[i] == a[k];
        let q = choose|i: int| 0 <= i < a.len() && a[i] == b[k];
        lemma_before(keys, a[k] as int, b[k] as int, a[k] as int);
        if p < k {
            assert(a[p] == b[p]);
            lemma_before(keys, a[p] as int, a[k] as int, a[k] as int);
        }
        if q < k {
            assert(a[q] == b[q]);
            lemma_before(keys, b[q] as int, b[k] as int, b[k] as int);
        }
        if p > k && q > k {
            assert(before(keys, b[k] as int, b[p] as int));
            assert(before(keys, a[k] as int, a[q] as int));
        }
        assert(a[k] == b[k]);
        assert(a.take(n) =~= a.take(k).push(a[k]));
        assert(b.take(n) =~= b.take(k).push(b[k]));
    }
}

/// Whether `order` lists the positions below `n` in stable order of the keys.
spec fn orders_first(order: Seq<usize>, keys: Seq<Seq<char>>, n: int) -> bool {
    &&& order.len() == n
    &&& forall|i: int| 0 <= i < n ==> (#[trigger] order[i]) < n
    &&& forall|i: int, j: int|
        0 <= i < j < n ==> before(keys, #[trigger] order[i] as int, #[trigger] order[j] as int)
}

/// The place of position `n` among the first `p` entries.
proof fn lemma_slot(order: Seq<usize>, keys: Seq<Seq<char>>, n: int, p: int) -> (slot: int)
    requires
        orders_first(order, keys, n),
        0 <= p <= n,
    ensures
        0 <= slot <= p,
        forall|i: int| slot <= i < p ==> before(keys, n, #[trigger] order[i] as int),
        slot > 0 ==> before(keys, order[slot - 1] as int, n),
    decreases p,
{
    if p == 0 {
        0
    } else {
        lemma_before(keys, n, order[p - 1] as int, n);
        if before(keys, n, order[p - 1] as int) {
            lemma_slot(order, keys, n, p - 1)
        } else {
            p
        }
    }
}

proof fn lemma_orders_first(keys: Seq<Seq<char>>, n: int) -> (order: Seq<usize>)
    requires
        0 <= n <= keys.len() <= usize::MAX,
    ensures
        orders_first(order, keys, n),
    decreases n,
{
    if n == 0 {
        Seq::empty()
    } else {
        let m = n - 1;
        let old_order = lemma_orders_first(keys, m);
        let p = lemma_slot(old_order, keys, m, m);
        let order = old_order.insert(p, m as usize);
        assert forall|i: int| 0 <= i < n implies (#[trigger] order[i]) < n by {
            if i < p {
                assert(order[i] == old_order[i]);
            } else if i > p {
                assert(order[i] == old_order[i - 1]);
            }
        }
        assert forall|i: int, j: int| 0 <= i < j < n implies before(
            keys,
            #[trigger] order[i] as int,
            #[trigger] order[j] as int,
        ) by {
            if i < p && j == p {
                assert(order[i] == old_order[i]);
                if i < p - 1 {
                    lemma_before(keys, old_order[i] as int, old_order[p - 1] as int, m);
                }
            } else if i == p {
                assert(order[j] == old_order[j - 1]);
            } else if j < p {
                assert(order[i] == old_order[i] && order[j] == old_order[j]);
            } else if i < p {
                assert(order[i] == old_order[i] && order[j] == old_order[j - 1]);
            } else {
                assert(order[i] == old_order[i - 1] && order[j] == old_order[j - 1]);
            }
        }
        order
    }
}

/// Every list of keys has a stable order.
pub proof fn lemma_stable_order_exists(keys: Seq<Seq<char>>)
    requires
        keys.len() <= usize::MAX,
    ensures
        is_stable_order(stable_order_of(keys), keys),
{
    let order = lemma_orders_first(keys, keys.len() as int);
    assert(is_stable_order(order, keys));
}

/// Taking every position once rearranges a list.
pub proof fn lemma_rearranged<A>(order: Seq<usize>, items: Seq<A>)
    requires
        order.len() == items.len(),
        order.no_duplicates(),
        forall|i: int| 0 <= i < order.len() ==> (#[trigger] order[i]) < items.len(),
    ensures
        Seq::new(order.len(), |i: int| items[order[i] as int]).to_multiset()
            == items.to_multiset(),
    decreases items.len(),
{
    let out = Seq::new(order.len(), |i: int| items[order[i] as int]);
    if items.len() == 0 {
        assert(out =~= items);
    } else {
        let k = order.last() as int;
        let rest = items.remove(k);
        // The positions that are left, counted without the last one taken.
        let fewer = Seq::new(
            (order.len() - 1) as nat,
            |i: int|
                if order[i] > k {
                    (order[i] - 1) as usize
                } else {
                    order[i]
                },
        );
        assert forall|i: int| 0 <= i < fewer.len() implies (#[trigger] fewer[i]) < rest.len()
            && rest[fewer[i] as int] == out[i] by {
            assert(order[i] != order[order.len() - 1]);
            assert(order[i] < items.len());
        }
        assert forall|i: int, j: int| 0 <= i < j < fewer.len() implies fewer[i] != fewer[j] by {
            assert(order[i] != order[j]);
            assert(order[i] != order[order.len() - 1]);
            assert(order[j] != order[order.len() - 1]);
        }
        lemma_rearranged(fewer, rest);
        let before = Seq::new(fewer.len(), |i: int| rest[fewer[i] as int]);
        assert(before =~= out.drop_last());
        assert(out =~= before.push(items[k]));
        before.to_multiset_ensures();
        items.to_multiset_ensures();
        assert(items.to_multiset().count(items[k]) > 0) by {
            assert(items.contains(items[k]));
        }
        assert(out.to_multiset() =~= items.to_multiset());
    }
}

/// A stable order lists no position twice.
pub proof fn lemma_no_position_twice(order: Seq<usize>, keys: Seq<Seq<char>>)
    requires
        is_stable_order(order, keys),
    ensures
        order.no_duplicates(),
{
    assert forall|i: int, j: int| 0 <= i < j < order.len() implies order[i] != order[j] by {
        lemma_before(keys, order[i] as int, order[j] as int, order[j] as int);
    }
}

/// Sorting rearranges the texts and puts none behind a greater one.
pub proof fn law_sorted(items: Seq<Seq<char>>)
    requires
        items.len() <= usize::MAX,
    ensures
        sorted(items).len() == items.len(),
        forall|i: int, j: int|
            0 <= i < j < items.len() ==> !less(
                #[trigger] sorted(items)[j],
                #[trigger] sorted(items)[i],
            ),
        sorted(items).to_multiset() == items.to_multiset(),
{
    let order = stable_order_of(items);
    let out = sorted(items);
    lemma_stable_order_exists(items);
    assert(is_stable_order(order, items));
    assert forall|i: int, j: int| 0 <= i < j < items.len() implies !less(
        #[trigger] out[j],
        #[trigger] out[i],
    ) by {
        let x = items[order[i] as int];
        let y = items[order[j] as int];
        assert(before(items, order[i] as int, order[j] as int));
        lemma_less_irreflexive(x);
        if less(y, x) {
            if less(x, y) {
                lemma_less_transitive(x, y, x);
            }
        }
    }
    lemma_no_position_twice(order, items);
    lemma_rearranged(order, items);
}

/// The strings in ascending order.
pub fn sort_strings(v: &Vec<String>) -> (r: Vec<String>)
    ensures
        views(r@) == sorted(views(v@)),
{
    let mut keys: Vec<Vec<char>> = Vec::new();
    let mut i: usize = 0;
    while i < v.len()
        invariant
            i <= v@.len(),
            keys@.len() == i,
            forall|j: int| 0 <= j < i ==> keys@[j]@ == v@[j]@,
        decreases v@.len() - i,
    {
        keys.push(chars_of(v[i].as_str()));
        i = i + 1;
    }
    assert(key_views(keys@) =~= views(v@));
    let order = stable_order(&keys);
    let mut out: Vec<String> = Vec::new();
    let mut k: usize = 0;
    while k < order.len()
        invariant
            k <= order@.len(),
            is_stable_order(order@, views(v@)),
            out@.len() == k,
            forall|j: int| 0 <= j < k ==> out@[j]@ == v@[order@[j] as int]@,
        decreases order@.len() - k,
    {
        out.push(v[order[k]].clone());
        k = k + 1;
    }
    assert(views(out@) =~= sorted(views(v@)));
    out
}

} // verus!
