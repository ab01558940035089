//! Lists in which no two values have the same key.

use vstd::prelude::*;

verus! {

/// What tells a value from others: a text and a number.
pub type Key = (Seq<char>, u64);

/// A value that is found by its key.
pub trait Keyed: Sized {
    /// The key of the value.
    spec fn identity(&self) -> Key;

    /// Whether two values have the same key.
    fn same_key(&self, other: &Self) -> (same: bool)
        ensures
            same == (self.identity() == other.identity()),
    ;

    /// The same value once more.
    fn copy(&self) -> (copy: Self)
        ensures
            copy == *self,
    ;
}

/// Whether a value with the given key is in the list.
pub open spec fn has_key<T: Keyed>(list: Seq<T>, key: Key) -> bool {
    exists|i: int| 0 <= i < list.len() && (#[trigger] list[i]).identity() == key
}

/// Whether no key occurs twice.
pub open spec fn unique_keys<T: Keyed>(list: Seq<T>) -> bool {
    forall|i: int, j: int|
        #![trigger list[i], list[j]]
        0 <= i < j < list.len() ==> list[i].identity() != list[j].identity()
}

/// Where the value with the given key is.
pub open spec fn position<T: Keyed>(list: Seq<T>, key: Key) -> int {
    choose|i: int| 0 <= i < list.len() && (#[trigger] list[i]).identity() == key
}

/// The list with `item` in the place of the value with its key, or at the end.
pub open spec fn placed<T: Keyed>(list: Seq<T>, item: T) -> Seq<T> {
    if has_key(list, item.identity()) {
        list.update(position(list, item.identity()), item)
    } else {
        list.push(item)
    }
}

/// The list without the value that has the given key.
pub open spec fn without_key<T: Keyed>(list: Seq<T>, key: Key) -> Seq<T> {
    if has_key(list, key) {
        list.remove(position(list, key))
    } else {
        list
    }
}

/// Values in a row, where a later one takes the place of one with its key.
pub open spec fn collected<T: Keyed>(items: Seq<T>) -> Seq<T>
    decreases items.len(),
{
    if items.len() == 0 {
        seq![]
    } else {
        placed(collected(items.drop_last()), items.last())
    }
}

/// Those of `items` whose keys are in `list`.
pub open spec fn keyed_in<T: Keyed>(items: Seq<T>, list: Seq<T>) -> Seq<T>
    decreases items.len(),
{
    if items.len() == 0 {
        seq![]
    } else if has_key(list, items.last().identity()) {
        keyed_in(items.drop_last(), list).push(items.last())
    } else {
        keyed_in(items.drop_last(), list)
    }
}

/// Those of `items` whose keys are not in `list`.
pub open spec fn keyed_out<T: Keyed>(items: Seq<T>, list: Seq<T>) -> Seq<T>
    decreases items.len(),
{
    if items.len() == 0 {
        seq![]
    } else if has_key(list, items.last().identity()) {
        keyed_out(items.drop_last(), list)
    } else {
        keyed_out(items.drop_last(), list).push(items.last())
    }
}

/// The list and those of `items` whose keys are new to it.
pub open spec fn completed<T: Keyed>(list: Seq<T>, items: Seq<T>) -> Seq<T>
    decreases items.len(),
{
    if items.len() == 0 {
        list
    } else {
        let front = completed(list, items.drop_last());
        if has_key(front, items.last().identity()) {
            front
        } else {
            front.push(items.last())
        }
    }
}

/// Putting a value in its place keeps the keys apart and adds its key.
pub proof fn placing_adds_one_key<T: Keyed>(list: Seq<T>, item: T)
    requires
        unique_keys(list),
    ensures
        unique_keys(placed(list, item)),
        forall|key: Key| #[trigger]
            has_key(placed(list, item), key) <==> has_key(list, key) || key == item.identity(),
        placed(list, item).contains(item),
{
    let after = placed(list, item);
    if has_key(list, item.identity()) {
        let at = position(list, item.identity());
        assert(after[at] == item);
        assert forall|i: int, j: int|
            #![trigger after[i], after[j]]
            0 <= i < j < after.len() implies after[i].identity() != after[j].identity() by {
            assert(list[i].identity() != list[j].identity());
        }
        assert forall|key: Key| #[trigger]
            has_key(after, key) implies has_key(list, key) || key == item.identity() by {
            let i = choose|i: int| 0 <= i < after.len() && (#[trigger] after[i]).identity() == key;
            assert(list[i].identity() == key);
        }
        assert forall|key: Key| has_key(list, key) || key == item.identity() implies #[trigger] has_key(
            after,
            key,
        ) by {
            if key == item.identity() {
                assert(after[at].identity() == key);
            } else {
                let i = choose|i: int| 0 <= i < list.len() && (#[trigger] list[i]).identity() == key;
                assert(after[i].identity() == key);
            }
        }
    } else {
        assert(after[list.len() as int] == item);
        assert forall|i: int, j: int|
            #![trigger after[i], after[j]]
            0 <= i < j < after.len() implies after[i].identity() != after[j].identity() by {
            assert(list[i].identity() != item.identity());
        }
        assert forall|key: Key| #[trigger]
            has_key(after, key) implies has_key(list, key) || key == item.identity() by {
            let i = choose|i: int| 0 <= i < after.len() && (#[trigger] after[i]).identity() == key;
            if i < list.len() {
                assert(list[i].identity() == key);
            }
        }
        assert forall|key: Key| has_key(list, key) || key == item.identity() implies #[trigger] has_key(
            after,
            key,
        ) by {
            if key == item.identity() {
                assert(after[list.len() as int].identity() == key);
            } else {
                let i = choose|i: int| 0 <= i < list.len() && (#[trigger] list[i]).identity() == key;
                assert(after[i].identity() == key);
            }
        }
    }
}

/// Taking a key away keeps the keys apart and takes that key alone.
pub proof fn removing_takes_one_key<T: Keyed>(list: Seq<T>, removed: Key)
    requires
        unique_keys(list),
    ensures
        unique_keys(without_key(list, removed)),
        forall|key: Key| #[trigger]
            has_key(without_key(list, removed), key) <==> has_key(list, key) && key != removed,
{
    let after = without_key(list, removed);
    if has_key(list, removed) {
        let at = position(list, removed);
        assert forall|i: int, j: int|
            #![trigger after[i], after[j]]
            0 <= i < j < after.len() implies after[i].identity() != after[j].identity() by {
            let a = if i < at {
                i
            } else {
                i + 1
            };
            let b = if j < at {
                j
            } else {
                j + 1
            };
            assert(list[a].identity() != list[b].identity());
        }
        assert forall|key: Key| #[trigger]
            has_key(after, key) implies has_key(list, key) && key != removed by {
            let i = choose|i: int| 0 <= i < after.len() && (#[trigger] after[i]).identity() == key;
            let a = if i < at {
                i
            } else {
                i + 1
            };
            assert(list[a].identity() == key);
            if a < at {
                assert(list[a].identity() != list[at].identity());
            } else {
                assert(list[at].identity() != list[a].identity());
            }
        }
        assert forall|key: Key| has_key(list, key) && key != removed implies #[trigger] has_key(
            after,
            key,
        ) by {
            let i = choose|i: int| 0 <= i < list.len() && (#[trigger] list[i]).identity() == key;
            if i < at {
                assert(after[i].identity() == key);
            } else {
                assert(after[i - 1].identity() == key);
            }
        }
    } else {
        assert(after == list);
    }
}

/// Collecting keeps every key once, with the last of its values.
pub proof fn collecting_keeps_the_keys<T: Keyed>(items: Seq<T>)
    ensures
        unique_keys(collected(items)),
        forall|key: Key| #[trigger] has_key(collected(items), key) <==> has_key(items, key),
    decreases items.len(),
{
    if items.len() > 0 {
        let front = items.drop_last();
        collecting_keeps_the_keys(front);
        placing_adds_one_key(collected(front), items.last());
        assert forall|key: Key| #[trigger] has_key(collected(items), key) <==> has_key(
            items,
            key,
        ) by {
            lemma_last_key(items, key);
            assert(has_key(collected(front), key) <==> has_key(front, key));
        }
    } else {
        assert forall|key: Key| #[trigger] has_key(collected(items), key) <==> has_key(
            items,
            key,
        ) by {}
    }
}

/// A key is in a list if it is in its front or that of its last value.
pub proof fn lemma_last_key<T: Keyed>(items: Seq<T>, key: Key)
    requires
        items.len() > 0,
    ensures
        has_key(items, key) <==> has_key(items.drop_last(), key) || items.last().identity() == key,
{
    let front = items.drop_last();
    if has_key(items, key) {
        let i = choose|i: int| 0 <= i < items.len() && (#[trigger] items[i]).identity() == key;
        if i < front.len() {
            assert(front[i].identity() == key);
        }
    }
    if has_key(front, key) {
        let i = choose|i: int| 0 <= i < front.len() && (#[trigger] front[i]).identity() == key;
        assert(items[i].identity() == key);
    }
    if items.last().identity() == key {
        assert(items[items.len() - 1].identity() == key);
    }
}

/// Completing a list keeps the keys apart and adds those of the items.
pub proof fn completing_adds_the_keys<T: Keyed>(list: Seq<T>, items: Seq<T>)
    requires
        unique_keys(list),
    ensures
        unique_keys(completed(list, items)),
        forall|key: Key| #[trigger]
            has_key(completed(list, items), key) <==> has_key(list, key) || has_key(items, key),
    decreases items.len(),
{
    if items.len() > 0 {
        let front = completed(list, items.drop_last());
        completing_adds_the_keys(list, items.drop_last());
        placing_adds_one_key(front, items.last());
        assert forall|key: Key| #[trigger]
            has_key(completed(list, items), key) <==> has_key(list, key) || has_key(
                items,
                key,
            ) by {
            lemma_last_key(items, key);
            assert(has_key(front, key) <==> has_key(list, key) || has_key(items.drop_last(), key));
            if !has_key(front, items.last().identity()) {
                assert(completed(list, items) == placed(front, items.last()));
            }
        }
        if !has_key(front, items.last().identity()) {
            assert(completed(list, items) == placed(front, items.last()));
        }
    } else {
        assert forall|key: Key| #[trigger]
            has_key(completed(list, items), key) <==> has_key(list, key) || has_key(
                items,
                key,
            ) by {
            assert(!has_key(items, key));
        }
    }
}

/// The keys that are left when those of another list are taken away, or all others.
pub proof fn lemma_split_keys<T: Keyed>(items: Seq<T>, list: Seq<T>)
    ensures
        forall|key: Key| #[trigger]
            has_key(keyed_out(items, list), key) <==> has_key(items, key) && !has_key(list, key),
        forall|key: Key| #[trigger]
            has_key(keyed_in(items, list), key) <==> has_key(items, key) && has_key(list, key),
        unique_keys(items) ==> unique_keys(keyed_out(items, list)),
    decreases items.len(),
{
    if items.len() > 0 {
        let front = items.drop_last();
        lemma_split_keys(front, list);
        let last = items.last();
        let out = keyed_out(items, list);
        let kept = keyed_in(items, list);
        assert forall|key: Key| #[trigger]
            has_key(out, key) <==> has_key(items, key) && !has_key(list, key) by {
            lemma_last_key(items, key);
            assert(has_key(keyed_out(front, list), key) <==> has_key(front, key) && !has_key(
                list,
                key,
            ));
            if !has_key(list, last.identity()) {
                lemma_last_key(out, key);
                assert(out.drop_last() =~= keyed_out(front, list));
            }
        }
        assert forall|key: Key| #[trigger]
            has_key(kept, key) <==> has_key(items, key) && has_key(list, key) by {
            lemma_last_key(items, key);
            assert(has_key(keyed_in(front, list), key) <==> has_key(front, key) && has_key(
                list,
                key,
            ));
            if has_key(list, last.identity()) {
                lemma_last_key(kept, key);
                assert(kept.drop_last() =~= keyed_in(front, list));
            }
        }
        if unique_keys(items) {
            assert(unique_keys(front)) by {
                assert forall|i: int, j: int|
                    #![trigger front[i], front[j]]
                    0 <= i < j < front.len() implies front[i].identity() != front[j].identity() by {
                    assert(items[i].identity() != items[j].identity());
                }
            }
            if !has_key(list, last.identity()) {
                let kept_front = keyed_out(front, list);
                assert forall|i: int, j: int|
                    #![trigger out[i], out[j]]
                    0 <= i < j < out.len() implies out[i].identity() != out[j].identity() by {
                    if j < kept_front.len() {
                        assert(kept_front[i].identity() != kept_front[j].identity());
                    } else {
                        assert(kept_front[i].identity() == out[i].identity());
                        assert(has_key(kept_front, out[i].identity()));
                        assert(has_key(front, out[i].identity()));
                        let m = choose|m: int|
                            0 <= m < front.len() && (#[trigger] front[m]).identity() == out[i].identity();
                        assert(items[m].identity() != items[items.len() - 1].identity());
                    }
                }
            }
        }
    } else {
        assert forall|key: Key| #[trigger]
            has_key(keyed_out(items, list), key) <==> has_key(items, key) && !has_key(
                list,
                key,
            ) by {
            assert(!has_key(items, key));
        }
        assert forall|key: Key| #[trigger]
            has_key(keyed_in(items, list), key) <==> has_key(items, key) && has_key(
                list,
                key,
            ) by {
            assert(!has_key(items, key));
        }
    }
}

/// Where the value with the key of `item` is, if there is one.
pub fn find_key<T: Keyed>(list: &Vec<T>, item: &T) -> (found: Option<usize>)
    requires
        unique_keys(list@),
    ensures
        found is Some <==> has_key(list@, item.identity()),
        found matches Some(i) ==> i < list@.len() && i == position(list@, item.identity())
            && list@[i as int].identity() == item.identity(),
{
    let mut i: usize = 0;
    while i < list.len()
        invariant
            i <= list@.len(),
            unique_keys(list@),
            forall|k: int| 0 <= k < i ==> (#[trigger] list@[k]).identity() != item.identity(),
        decreases list@.len() - i,
    {
        if list[i].same_key(item) {
            proof {
                assert(list@[i as int].identity() == item.identity());
                let at = position(list@, item.identity());
                assert(list@[at].identity() == item.identity());
                if at < i {
                    assert(list@[at].identity() != list@[i as int].identity());
                } else if at > i {
                    assert(list@[i as int].identity() != list@[at].identity());
                }
            }
            return Some(i);
        }
        i = i + 1;
    }
    None
}

/// Whether a value with the key of `item` is in a list, unique or not.
pub fn holds_key<T: Keyed>(list: &Vec<T>, item: &T) -> (held: bool)
    ensures
        held == has_key(list@, item.identity()),
{
    let mut i: usize = 0;
    while i < list.len()
        invariant
            i <= list@.len(),
            forall|k: int| 0 <= k < i ==> (#[trigger] list@[k]).identity() != item.identity(),
        decreases list@.len() - i,
    {
        if list[i].same_key(item) {
            assert(list@[i as int].identity() == item.identity());
            return true;
        }
        i = i + 1;
    }
    false
}

/// Puts a value in the place of the one with its key, or at the end.
pub fn place<T: Keyed>(list: &mut Vec<T>, item: T)
    requires
        unique_keys(old(list)@),
    ensures
        final(list)@ == placed(old(list)@, item),
        unique_keys(final(list)@),
{
    proof {
        placing_adds_one_key(list@, item);
    }
    match find_key(list, &item) {
        Some(i) => {
            list[i] = item;
        },
        None => {
            list.push(item);
        },
    }
}

/// Takes the value with the key of `item` away. The result says whether there was one.
pub fn remove_key<T: Keyed>(list: &mut Vec<T>, item: &T) -> (removed: bool)
    requires
        unique_keys(old(list)@),
    ensures
        removed == has_key(old(list)@, item.identity()),
        final(list)@ == without_key(old(list)@, item.identity()),
        unique_keys(final(list)@),
{
    proof {
        removing_takes_one_key(list@, item.identity());
    }
    match find_key(list, item) {
        Some(i) => {
            list.remove(i);
            true
        },
        None => false,
    }
}

/// Copies of values, where a later one takes the place of one with its key.
pub fn collect<T: Keyed>(items: &Vec<T>) -> (list: Vec<T>)
    ensures
        list@ == collected(items@),
        unique_keys(list@),
{
    let mut list: Vec<T> = Vec::new();
    let mut i: usize = 0;
    assert(items@.take(0) =~= seq![]);
    while i < items.len()
        invariant
            i <= items@.len(),
            list@ == collected(items@.take(i as int)),
            unique_keys(list@),
        decreases items@.len() - i,
    {
        assert(items@.take(i + 1).drop_last() =~= items@.take(i as int));
        let item: T = items[i].copy();
        place(&mut list, item);
        i = i + 1;
    }
    assert(items@.take(items@.len() as int) =~= items@);
    list
}

/// Copies of those values whose keys are in `list`.
pub fn copy_keyed_in<T: Keyed>(items: &Vec<T>, list: &Vec<T>) -> (kept: Vec<T>)
    ensures
        kept@ == keyed_in(items@, list@),
{
    let mut kept: Vec<T> = Vec::new();
    let mut i: usize = 0;
    assert(items@.take(0) =~= seq![]);
    while i < items.len()
        invariant
            i <= items@.len(),
            kept@ == keyed_in(items@.take(i as int), list@),
        decreases items@.len() - i,
    {
        assert(items@.take(i + 1).drop_last() =~= items@.take(i as int));
        if holds_key(list, &items[i]) {
            kept.push(items[i].copy());
        }
        i = i + 1;
    }
    assert(items@.take(items@.len() as int) =~= items@);
    kept
}

/// Copies of those values whose keys are not in `list`.
pub fn copy_keyed_out<T: Keyed>(items: &Vec<T>, list: &Vec<T>) -> (kept: Vec<T>)
    ensures
        kept@ == keyed_out(items@, list@),
{
    let mut kept: Vec<T> = Vec::new();
    let mut i: usize = 0;
    assert(items@.take(0) =~= seq![]);
    while i < items.len()
        invariant
            i <= items@.len(),
            kept@ == keyed_out(items@.take(i as int), list@),
        decreases items@.len() - i,
    {
        assert(items@.take(i + 1).drop_last() =~= items@.take(i as int));
        if !holds_key(list, &items[i]) {
            kept.push(items[i].copy());
        }
        i = i + 1;
    }
    assert(items@.take(items@.len() as int) =~= items@);
    kept
}

/// Adds copies of those values whose keys are new to the list.
pub fn complete<T: Keyed>(list: &mut Vec<T>, items: &Vec<T>)
    ensures
        final(list)@ == completed(old(list)@, items@),
{
    let ghost start = list@;
    let mut i: usize = 0;
    assert(items@.take(0) =~= seq![]);
    while i < items.len()
        invariant
            i <= items@.len(),
            list@ == completed(start, items@.take(i as int)),
        decreases items@.len() - i,
    {
        assert(items@.take(i + 1).drop_last() =~= items@.take(i as int));
        if !holds_key(list, &items[i]) {
            list.push(items[i].copy());
        }
        i = i + 1;
    }
    assert(items@.take(items@.len() as int) =~= items@);
}

/// Placing an item changes one place at most: that of the value with its key, or a new one
/// at the end.
pub proof fn placing_changes_one_place<T: Keyed>(list: Seq<T>, item: T, at: int)
    requires
        unique_keys(list),
    ensures
        !has_key(list, item.identity()) ==> placed(list, item) == list.push(item),
        0 <= at < list.len() && list[at].identity() == item.identity() ==> placed(list, item)
            == list.update(at, item),
{
    if 0 <= at < list.len() && list[at].identity() == item.identity() {
        let other = position(list, item.identity());
        assert(list[other].identity() == item.identity());
        assert(other == at);
    }
}

/// Removing a key takes its value out from between the others, which keep their order.
pub proof fn removing_changes_one_place<T: Keyed>(list: Seq<T>, key: Key, at: int)
    requires
        unique_keys(list),
    ensures
        !has_key(list, key) ==> without_key(list, key) == list,
        0 <= at < list.len() && list[at].identity() == key ==> without_key(list, key)
            == list.take(at) + list.skip(at + 1),
{
    if 0 <= at < list.len() && list[at].identity() == key {
        let other = position(list, key);
        assert(list[other].identity() == key);
        assert(other == at);
        assert(list.remove(at) =~= list.take(at) + list.skip(at + 1));
    }
}

/// The items whose keys are in a list, and those whose keys are not, each in their order.
pub proof fn items_are_split_by_their_keys<T: Keyed>(items: Seq<T>, list: Seq<T>)
    ensures
        keyed_in(items, list) == items.filter(|t: T| has_key(list, t.identity())),
        keyed_out(items, list) == items.filter(|t: T| !has_key(list, t.identity())),
    decreases items.len(),
{
    reveal(Seq::filter);
    if items.len() > 0 {
        items_are_split_by_their_keys(items.drop_last(), list);
    }
}

/// Completing a list leaves what it has at its front, unchanged and in its order.
pub proof fn completing_keeps_the_list<T: Keyed>(list: Seq<T>, items: Seq<T>)
    ensures
        completed(list, items).len() >= list.len(),
        completed(list, items).take(list.len() as int) == list,
    decreases items.len(),
{
    if items.len() == 0 {
        assert(list.take(list.len() as int) =~= list);
    } else {
        completing_keeps_the_list(list, items.drop_last());
        let front = completed(list, items.drop_last());
        assert(completed(list, items).take(list.len() as int) =~= front.take(list.len() as int));
    }
}

} // verus!
