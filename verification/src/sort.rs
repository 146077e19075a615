//! Putting things in order by integer keys, without changing the order of those
//! with equal keys.
use vstd::prelude::*;

verus! {

/// Whether the thing at `a` comes before the one at `b`: by its key, and by its
/// position where the keys are equal.
pub open spec fn comes_before(keys: Seq<(u64, i64)>, a: int, b: int) -> bool {
    ||| keys[a].0 < keys[b].0
    ||| (keys[a].0 == keys[b].0 && keys[a].1 < keys[b].1)
    ||| (keys[a] == keys[b] && a < b)
}

/// Whether `order` lists the positions of all keys, each before those that come
/// after it. There is exactly one such list.
pub open spec fn in_order(keys: Seq<(u64, i64)>, order: Seq<usize>) -> bool {
    &&& order.len() == keys.len()
    &&& forall|i: int| 0 <= i < order.len() ==> (#[trigger] order[i]) < keys.len()
    &&& forall|i: int, j: int|
        0 <= i < j < order.len() ==> comes_before(
            keys,
            (#[trigger] order[i]) as int,
            (#[trigger] order[j]) as int,
        )
}

/// The positions of the keys in order.
pub fn order_of(keys: &Vec<(u64, i64)>) -> (r: Vec<usize>)
    ensures
        in_order(keys@, r@),
{
    let mut order: Vec<usize> = Vec::new();
    let mut i: usize = 0;
    while i < keys.len()
        invariant
            i <= keys@.len(),
            order@.len() == i,
            forall|a: int| 0 <= a < i ==> (#[trigger] order@[a]) < i,
            forall|a: int, b: int|
                0 <= a < b < i ==> comes_before(
                    keys@,
                    (#[trigger] order@[a]) as int,
                    (#[trigger] order@[b]) as int,
                ),
        decreases keys@.len() - i,
    {
        let key = keys[i];
        let mut at: usize = i;
        while at > 0 && (key.0 < keys[order[at - 1]].0 || (key.0 == keys[order[at - 1]].0 && key.1
            < keys[order[at - 1]].1))
            invariant
                at <= i < keys@.len(),
                order@.len() == i,
                key == keys@[i as int],
                forall|a: int| 0 <= a < i ==> (#[trigger] order@[a]) < i,
                forall|a: int|
                    at <= a < i ==> comes_before(
                        keys@,
                        i as int,
                        (#[trigger] order@[a]) as int,
                    ),
            decreases at,
        {
            at = at - 1;
        }
        let ghost before = order@;
        order.insert(at, i);
        proof {
            if at > 0 {
                let last = before[at - 1];
                assert(comes_before(keys@, last as int, i as int));
                assert forall|a: int| 0 <= a < at implies comes_before(
                    keys@,
                    (#[trigger] before[a]) as int,
                    i as int,
                ) by {
                    if a < at - 1 {
                        assert(comes_before(keys@, before[a] as int, last as int));
                    }
                }
            }
            assert forall|a: int, b: int| 0 <= a < b < i + 1 implies comes_before(
                keys@,
                (#[trigger] order@[a]) as int,
                (#[trigger] order@[b]) as int,
            ) by {
                let x = if a <= at {
                    a
                } else {
                    a - 1
                };
                let y = if b <= at {
                    b
                } else {
                    b - 1
                };
                if a == at {
                    assert(order@[a] == i);
                    assert(order@[b] == before[b - 1]);
                } else if b == at {
                    assert(order@[b] == i);
                    assert(order@[a] == before[a]);
                } else {
                    assert(order@[a] == before[x]);
                    assert(order@[b] == before[y]);
                }
            }
        }
        i = i + 1;
    }
    order
}

/// Every position is listed, and each once.
pub proof fn every_position_is_listed(keys: Seq<(u64, i64)>, order: Seq<usize>, p: int)
    requires
        in_order(keys, order),
        0 <= p < keys.len(),
    ensures
        exists|i: int| 0 <= i < order.len() && #[trigger] order[i] == p,
        order.no_duplicates(),
{
    broadcast use vstd::seq_lib::seq_to_set_is_finite;

    assert(order.no_duplicates());
    let listed = order.map_values(|o: usize| o as int);
    assert forall|i: int, j: int| 0 <= i < j < listed.len() implies #[trigger] listed[i]
        != #[trigger] listed[j] by {
        assert(order[i] as int == listed[i] && order[j] as int == listed[j]);
        assert(comes_before(keys, order[i] as int, order[j] as int));
    }
    listed.unique_seq_to_set();
    let every = vstd::set_lib::set_int_range(0, keys.len() as int);
    vstd::set_lib::lemma_int_range(0, keys.len() as int);
    assert forall|x: int| listed.to_set().contains(x) implies every.contains(x) by {
        let i = choose|i: int| 0 <= i < listed.len() && listed[i] == x;
        assert(order[i] as int == x);
    }
    vstd::set_lib::lemma_subset_equality(listed.to_set(), every);
    assert(listed.to_set().contains(p));
    let i = choose|i: int| 0 <= i < listed.len() && listed[i] == p;
    assert(order[i] == p);
}

/// What has the smaller key is listed earlier; of equal keys, what stands earlier.
pub proof fn smaller_keys_come_first(keys: Seq<(u64, i64)>, order: Seq<usize>, i: int, j: int)
    requires
        in_order(keys, order),
        0 <= i < order.len(),
        0 <= j < order.len(),
        ({
            let a = keys[order[i] as int];
            let b = keys[order[j] as int];
            a.0 < b.0 || (a.0 == b.0 && a.1 < b.1) || (a == b && order[i] < order[j])
        }),
    ensures
        i < j,
{
    if j < i {
        assert(comes_before(keys, order[j] as int, order[i] as int));
    }
}

} // verus!
