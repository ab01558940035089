//! Stable sorting by an integer key.

use vstd::prelude::*;

verus! {

/// A value that is ordered by one of its fields.
pub trait SortKey: Sized {
    /// The key of the value.
    spec fn sort_key(&self) -> u64;

    /// The key of the value.
    fn key(&self) -> (key: u64)
        ensures
            key == self.sort_key(),
    ;
}

impl SortKey for u64 {
    open spec fn sort_key(&self) -> u64 {
        *self
    }

    fn key(&self) -> (key: u64) {
        *self
    }
}

/// Where a value with the given key goes: behind every value whose key is not
/// larger, counted from the end.
pub open spec fn insert_position<T: SortKey>(sorted: Seq<T>, key: u64) -> int
    decreases sorted.len(),
{
    if sorted.len() == 0 || sorted.last().sort_key() <= key {
        sorted.len() as int
    } else {
        insert_position(sorted.drop_last(), key)
    }
}

/// The values in the order of their keys; equal keys keep their order.
pub open spec fn stable_sorted<T: SortKey>(items: Seq<T>) -> Seq<T>
    decreases items.len(),
{
    if items.len() == 0 {
        items
    } else {
        let front = stable_sorted(items.drop_last());
        front.insert(insert_position(front, items.last().sort_key()), items.last())
    }
}

/// Whether the keys never fall.
pub open spec fn ascending<T: SortKey>(items: Seq<T>) -> bool {
    forall|i: int, j: int|
        #![trigger items[i], items[j]]
        0 <= i <= j < items.len() ==> items[i].sort_key() <= items[j].sort_key()
}

proof fn lemma_insert_position<T: SortKey>(sorted: Seq<T>, key: u64)
    requires
        ascending(sorted),
    ensures
        0 <= insert_position(sorted, key) <= sorted.len(),
        forall|i: int|
            0 <= i < insert_position(sorted, key) ==> (#[trigger] sorted[i]).sort_key() <= key,
        forall|i: int|
            insert_position(sorted, key) <= i < sorted.len() ==> (#[trigger] sorted[i]).sort_key()
                > key,
    decreases sorted.len(),
{
    if sorted.len() == 0 {
    } else if sorted.last().sort_key() <= key {
        assert forall|i: int| 0 <= i < sorted.len() implies (#[trigger] sorted[i]).sort_key()
            <= key by {
            assert(sorted[i].sort_key() <= sorted[sorted.len() - 1].sort_key());
        }
    } else {
        let front = sorted.drop_last();
        assert(ascending(front)) by {
            assert forall|i: int, j: int|
                #![trigger front[i], front[j]]
                0 <= i <= j < front.len() implies front[i].sort_key() <= front[j].sort_key() by {
                assert(sorted[i].sort_key() <= sorted[j].sort_key());
            }
        }
        lemma_insert_position(front, key);
        assert forall|i: int|
            insert_position(sorted, key) <= i < sorted.len() implies (#[trigger] sorted[i]).sort_key()
            > key by {
            if i < front.len() {
                assert(front[i].sort_key() > key);
            }
        }
        assert forall|i: int|
            0 <= i < insert_position(sorted, key) implies (#[trigger] sorted[i]).sort_key()
            <= key by {
            assert(front[i].sort_key() <= key);
        }
    }
}

/// Sorting puts the keys in order and keeps every value, each as often as before.
pub proof fn stable_sorted_orders<T: SortKey>(items: Seq<T>)
    ensures
        ascending(stable_sorted(items)),
        stable_sorted(items).to_multiset() == items.to_multiset(),
        stable_sorted(items).len() == items.len(),
    decreases items.len(),
{
    broadcast use vstd::seq_lib::group_to_multiset_ensures;

    if items.len() > 0 {
        let front = stable_sorted(items.drop_last());
        let key = items.last().sort_key();
        let position = insert_position(front, key);
        stable_sorted_orders(items.drop_last());
        lemma_insert_position(front, key);
        let sorted = stable_sorted(items);
        assert forall|i: int, j: int|
            #![trigger sorted[i], sorted[j]]
            0 <= i <= j < sorted.len() implies sorted[i].sort_key() <= sorted[j].sort_key() by {
            let a = if i < position {
                front[i]
            } else if i == position {
                items.last()
            } else {
                front[i - 1]
            };
            let b = if j < position {
                front[j]
            } else if j == position {
                items.last()
            } else {
                front[j - 1]
            };
            assert(a == sorted[i]);
            assert(b == sorted[j]);
        }
        assert(items.drop_last().push(items.last()) =~= items);
        assert(sorted.to_multiset() =~= items.to_multiset());
    }
}

/// Sorts by key; equal keys keep their order.
pub fn stable_sort<T: SortKey>(items: Vec<T>) -> (sorted: Vec<T>)
    ensures
        sorted@ == stable_sorted(items@),
{
    let mut sorted: Vec<T> = Vec::new();
    let ghost all = items@;
    assert(all.take(0) =~= Seq::<T>::empty());
    for item in it: items
        invariant
            it.seq() == all,
            sorted@ == stable_sorted(all.take(it.index() as int)),
    {
        let ghost done = it.index() as int;
        let key: u64 = item.key();
        let mut position: usize = sorted.len();
        let ghost front = sorted@;
        assert(front.take(position as int) =~= front);
        while position > 0 && sorted[position - 1].key() > key
            invariant
                position <= sorted@.len(),
                sorted@ == front,
                insert_position(front, key) == insert_position(front.take(position as int), key),
            decreases position,
        {
            assert(front.take(position as int).drop_last() =~= front.take(position - 1));
            position = position - 1;
        }
        assert(all.take(done + 1).drop_last() =~= all.take(done));
        assert(all.take(done + 1).last() == item);
        sorted.insert(position, item);
    }
    assert(all.take(all.len() as int) =~= all);
    sorted
}

proof fn lemma_filter_none<T>(items: Seq<T>, keep: spec_fn(T) -> bool)
    requires
        forall|i: int| 0 <= i < items.len() ==> !keep(#[trigger] items[i]),
    ensures
        items.filter(keep) == Seq::<T>::empty(),
    decreases items.len(),
{
    reveal(Seq::filter);
    if items.len() > 0 {
        let front = items.drop_last();
        assert forall|i: int| 0 <= i < front.len() implies !keep(#[trigger] front[i]) by {
            assert(front[i] == items[i]);
        }
        lemma_filter_none(front, keep);
        assert(!keep(items[items.len() - 1]));
    }
}

/// Values with equal keys come out in the order in which they went in.
pub proof fn equal_keys_keep_their_order<T: SortKey>(items: Seq<T>, key: u64)
    ensures
        stable_sorted(items).filter(|t: T| t.sort_key() == key) == items.filter(
            |t: T| t.sort_key() == key,
        ),
    decreases items.len(),
{
    let keep = |t: T| t.sort_key() == key;
    if items.len() > 0 {
        let front = stable_sorted(items.drop_last());
        let item = items.last();
        let position = insert_position(front, item.sort_key());
        equal_keys_keep_their_order(items.drop_last(), key);
        stable_sorted_orders(items.drop_last());
        lemma_insert_position(front, item.sort_key());
        let low = front.take(position);
        let high = front.skip(position);
        assert(front =~= low + high);
        assert(stable_sorted(items) =~= (low + seq![item]) + high);
        Seq::filter_distributes_over_add(low, high, keep);
        Seq::filter_distributes_over_add(low + seq![item], high, keep);
        Seq::filter_distributes_over_add(low, seq![item], keep);
        reveal(Seq::filter);
        assert(seq![item].drop_last() =~= Seq::<T>::empty());
        assert(Seq::<T>::empty().filter(keep) =~= Seq::<T>::empty());
        if item.sort_key() == key {
            assert forall|i: int| 0 <= i < high.len() implies !keep(#[trigger] high[i]) by {
                assert(high[i] == front[i + position]);
            }
            lemma_filter_none(high, keep);
            assert(seq![item].filter(keep) =~= seq![item]);
            assert(stable_sorted(items).filter(keep) =~= front.filter(keep).push(item));
        } else {
            assert(seq![item].filter(keep) =~= Seq::<T>::empty());
            assert(stable_sorted(items).filter(keep) =~= front.filter(keep));
        }
    }
}

} // verus!
