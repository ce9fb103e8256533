//! Stable sorting of positions by integer keys.

use vstd::prelude::*;

verus! {

/// Whether the first key ranks below the second: the first halves decide, then the second.
pub open spec fn key_less(a: (u64, u64), b: (u64, u64)) -> bool {
    a.0 < b.0 || (a.0 == b.0 && a.1 < b.1)
}

/// Whether position `a` comes before position `b`: by key, and by position among equal keys.
pub open spec fn comes_before(keys: Seq<(u64, u64)>, a: int, b: int) -> bool {
    key_less(keys[a], keys[b]) || (keys[a] == keys[b] && a < b)
}

/// Whether `order` lists the positions of `keys` from the lowest key to the highest, equal
/// keys in the order of their positions.
pub open spec fn is_stable_order(keys: Seq<(u64, u64)>, order: Seq<usize>) -> bool {
    &&& order.len() == keys.len()
    &&& forall|i: int| 0 <= i < order.len() ==> #[trigger] order[i] < keys.len()
    &&& forall|i: int, j: int|
        #![trigger order[i], order[j]]
        0 <= i < j < order.len() ==> comes_before(keys, order[i] as int, order[j] as int)
}

/// The positions of `keys` in ascending order of their keys; equal keys keep their order.
pub fn stable_order(keys: &Vec<(u64, u64)>) -> (order: Vec<usize>)
    ensures
        is_stable_order(keys@, order@),
{
    let mut order: Vec<usize> = Vec::new();
    let mut k: usize = 0;
    while k < keys.len()
        invariant
            k <= keys@.len(),
            order@.len() == k,
            forall|i: int| 0 <= i < order@.len() ==> #[trigger] order@[i] < k,
            forall|i: int, j: int|
                #![trigger order@[i], order@[j]]
                0 <= i < j < order@.len() ==> comes_before(
                    keys@,
                    order@[i] as int,
                    order@[j] as int,
                ),
        decreases keys@.len() - k,
    {
        let key = keys[k];
        let mut place: usize = order.len();
        while place > 0 && ranks_below(key, keys[order[place - 1]])
            invariant
                place <= order@.len(),
                k < keys@.len(),
                key == keys@[k as int],
                forall|i: int| 0 <= i < order@.len() ==> #[trigger] order@[i] < k,
                forall|i: int|
                    place <= i < order@.len() ==> key_less(key, keys@[#[trigger] order@[i] as int]),
            decreases place,
        {
            place -= 1;
        }
        let ghost before = order@;
        order.insert(place, k);
        assert forall|i: int, j: int|
            #![trigger order@[i], order@[j]]
            0 <= i < j < order@.len() implies comes_before(
            keys@,
            order@[i] as int,
            order@[j] as int,
        ) by {
            let i0 = if i < place { i } else { i - 1 };
            let j0 = if j < place { j } else { j - 1 };
            if i != place {
                assert(order@[i] == before[i0]);
            }
            if j != place {
                assert(order@[j] == before[j0]);
            }
            if i != place && j != place {
                assert(comes_before(keys@, before[i0] as int, before[j0] as int));
            } else if j == place && place > 0 {
                assert(!key_less(key, keys@[before[place - 1] as int]));
                if i0 < place - 1 {
                    assert(comes_before(keys@, before[i0] as int, before[place - 1] as int));
                }
            }
        }
        assert forall|i: int| 0 <= i < order@.len() implies #[trigger] order@[i] < k + 1 by {
            if i < place {
                assert(order@[i] == before[i]);
            } else if i > place {
                assert(order@[i] == before[i - 1]);
            }
        }
        k += 1;
    }
    order
}

fn ranks_below(a: (u64, u64), b: (u64, u64)) -> (r: bool)
    ensures
        r == key_less(a, b),
{
    a.0 < b.0 || (a.0 == b.0 && a.1 < b.1)
}

/// A stable order holds every position.
pub proof fn lemma_order_holds_all(keys: Seq<(u64, u64)>, order: Seq<usize>, position: int)
    requires
        is_stable_order(keys, order),
        0 <= position < keys.len(),
    ensures
        exists|i: int| 0 <= i < order.len() && #[trigger] order[i] == position,
{
    let n = keys.len() as int;
    let places = Seq::new(order.len(), |i: int| order[i] as int);
    assert(places.no_duplicates()) by {
        assert forall|i: int, j: int|
            0 <= i < places.len() && 0 <= j < places.len() && i != j implies places[i]
            != places[j] by {
            if i < j {
                assert(comes_before(keys, order[i] as int, order[j] as int));
            } else {
                assert(comes_before(keys, order[j] as int, order[i] as int));
            }
        }
    }
    places.unique_seq_to_set();
    let range = vstd::set_lib::set_int_range(0, n);
    vstd::set_lib::lemma_int_range(0, n);
    assert(places.to_set().subset_of(range)) by {
        assert forall|p: int| places.to_set().contains(p) implies range.contains(p) by {
            let i = choose|i: int| 0 <= i < places.len() && places[i] == p;
            assert(order[i] < keys.len());
        }
    }
    vstd::set_lib::lemma_subset_equality(places.to_set(), range);
    assert(places.to_set().contains(position));
    let i = choose|i: int| 0 <= i < places.len() && places[i] == position;
    assert(order[i] == position);
}

/// There is only one stable order of given keys.
pub proof fn law_stable_order_is_unique(keys: Seq<(u64, u64)>, a: Seq<usize>, b: Seq<usize>)
    requires
        is_stable_order(keys, a),
        is_stable_order(keys, b),
    ensures
        a == b,
{
    assert forall|i: int| 0 <= i < a.len() implies a[i] == b[i] by {
        lemma_orders_agree(keys, a, b, i);
    }
    assert(a =~= b);
}

proof fn lemma_orders_agree(keys: Seq<(u64, u64)>, a: Seq<usize>, b: Seq<usize>, i: int)
    requires
        is_stable_order(keys, a),
        is_stable_order(keys, b),
        0 <= i < a.len(),
    ensures
        a[i] == b[i],
    decreases i,
{
    assert forall|k: int| 0 <= k < i implies a[k] == b[k] by {
        lemma_orders_agree(keys, a, b, k);
    }
    if a[i] != b[i] {
        lemma_order_holds_all(keys, b, a[i] as int);
        let j = choose|j: int| 0 <= j < b.len() && #[trigger] b[j] == a[i] as int;
        if j < i {
            assert(a[j] == b[j]);
            assert(comes_before(keys, a[j] as int, a[i] as int));
        }
        lemma_order_holds_all(keys, a, b[i] as int);
        let m = choose|m: int| 0 <= m < a.len() && #[trigger] a[m] == b[i] as int;
        if m < i {
            assert(a[m] == b[m]);
            assert(comes_before(keys, b[m] as int, b[i] as int));
        }
        assert(comes_before(keys, b[i] as int, b[j] as int));
        assert(comes_before(keys, a[i] as int, a[m] as int));
    }
}

/// Sorting keeps every position, once, and puts lower keys first: by their first numbers, then by
/// their second ones, and equal keys as they stood.
pub proof fn law_sorting_goes_by_keys(keys: Seq<(u64, u64)>, order: Seq<usize>)
    requires
        is_stable_order(keys, order),
    ensures
        order.len() == keys.len(),
        forall|p: usize|
            p < keys.len() ==> #[trigger] order.contains(p),
        forall|i: int, j: int|
            #![trigger order[i], order[j]]
            0 <= i < j < order.len() ==> {
                let a = keys[order[i] as int];
                let b = keys[order[j] as int];
                &&& order[i] != order[j]
                &&& a.0 <= b.0
                &&& (a.0 == b.0 ==> a.1 <= b.1)
                &&& (a == b ==> order[i] < order[j])
            },
{
    assert forall|p: usize| p < keys.len() implies #[trigger] order.contains(p) by {
        lemma_order_holds_all(keys, order, p as int);
        let i = choose|i: int| 0 <= i < order.len() && #[trigger] order[i] == p as int;
        assert(order[i] == p);
    }
    assert forall|i: int, j: int|
        #![trigger order[i], order[j]]
        0 <= i < j < order.len() implies {
        let a = keys[order[i] as int];
        let b = keys[order[j] as int];
        &&& order[i] != order[j]
        &&& a.0 <= b.0
        &&& (a.0 == b.0 ==> a.1 <= b.1)
        &&& (a == b ==> order[i] < order[j])
    } by {
        assert(comes_before(keys, order[i] as int, order[j] as int));
    }
}

} // verus!
