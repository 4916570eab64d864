//! Stable ordering of lists.
use vstd::prelude::*;

verus! {

/// An item placed into an ordered list, behind those that it does not come before.
pub open spec fn placed_by<T>(list: Seq<T>, item: T, comes_before: spec_fn(T, T) -> bool) -> Seq<T>
    decreases list.len(),
{
    if list.len() == 0 {
        seq![item]
    } else if comes_before(item, list[0]) {
        seq![item] + list
    } else {
        seq![list[0]] + placed_by(list.skip(1), item, comes_before)
    }
}

/// A list in stable order.
pub open spec fn ordered_by<T>(list: Seq<T>, comes_before: spec_fn(T, T) -> bool) -> Seq<T>
    decreases list.len(),
{
    if list.len() == 0 {
        Seq::empty()
    } else {
        placed_by(ordered_by(list.drop_last(), comes_before), list.last(), comes_before)
    }
}

pub(crate) proof fn lemma_placed_at<T>(list: Seq<T>, item: T, comes_before: spec_fn(T, T) -> bool, k: int)
    requires
        0 <= k <= list.len(),
        forall|j: int| 0 <= j < k ==> !comes_before(item, #[trigger] list[j]),
        k < list.len() ==> comes_before(item, list[k]),
    ensures
        placed_by(list, item, comes_before) == list.insert(k, item),
    decreases k,
{
    if k == 0 {
        assert(placed_by(list, item, comes_before) =~= list.insert(0, item));
    } else {
        let rest = list.skip(1);
        assert forall|j: int| 0 <= j < k - 1 implies !comes_before(item, #[trigger] rest[j]) by {
            assert(rest[j] == list[j + 1]);
        }
        lemma_placed_at(rest, item, comes_before, k - 1);
        assert(!comes_before(item, list[0]));
        assert(seq![list[0]] + rest.insert(k - 1, item) =~= list.insert(k, item));
    }
}

pub(crate) proof fn lemma_placed_keeps<T>(
    list: Seq<T>,
    item: T,
    comes_before: spec_fn(T, T) -> bool,
    keep: spec_fn(T) -> bool,
)
    requires
        forall|i: int| 0 <= i < list.len() ==> keep(#[trigger] list[i]),
        keep(item),
    ensures
        forall|i: int|
            0 <= i < placed_by(list, item, comes_before).len() ==> keep(
                #[trigger] placed_by(list, item, comes_before)[i],
            ),
    decreases list.len(),
{
    if list.len() > 0 && !comes_before(item, list[0]) {
        let rest = list.skip(1);
        assert forall|i: int| 0 <= i < rest.len() implies keep(#[trigger] rest[i]) by {
            assert(rest[i] == list[i + 1]);
        }
        lemma_placed_keeps(rest, item, comes_before, keep);
        assert forall|i: int| 0 <= i < placed_by(list, item, comes_before).len() implies keep(
            #[trigger] placed_by(list, item, comes_before)[i],
        ) by {
            if i > 0 {
                assert(placed_by(list, item, comes_before)[i] == placed_by(
                    rest,
                    item,
                    comes_before,
                )[i - 1]);
            }
        }
    }
}

/// A relation by which a list can be ordered: irreflexive, transitive, and items that it leaves
/// unrelated are unrelated to the same items.
pub open spec fn is_weak_order<T>(comes_before: spec_fn(T, T) -> bool) -> bool {
    &&& forall|a: T| !#[trigger] comes_before(a, a)
    &&& forall|a: T, b: T, c: T|
        #[trigger] comes_before(a, b) && #[trigger] comes_before(b, c) ==> comes_before(a, c)
    &&& forall|a: T, b: T, c: T|
        #[trigger] comes_before(a, c) ==> #[trigger] comes_before(a, b) || comes_before(b, c)
}

/// Whether no item of a list comes before an earlier one.
pub open spec fn in_order<T>(list: Seq<T>, comes_before: spec_fn(T, T) -> bool) -> bool {
    forall|i: int, j: int|
        0 <= i < j < list.len() ==> !comes_before(#[trigger] list[j], #[trigger] list[i])
}

pub(crate) proof fn lemma_ordered_keeps<T>(
    list: Seq<T>,
    comes_before: spec_fn(T, T) -> bool,
    keep: spec_fn(T) -> bool,
)
    requires
        forall|i: int| 0 <= i < list.len() ==> keep(#[trigger] list[i]),
    ensures
        forall|i: int|
            0 <= i < ordered_by(list, comes_before).len() ==> keep(
                #[trigger] ordered_by(list, comes_before)[i],
            ),
    decreases list.len(),
{
    if list.len() > 0 {
        let head = list.drop_last();
        assert forall|i: int| 0 <= i < head.len() implies keep(#[trigger] head[i]) by {
            assert(head[i] == list[i]);
        }
        assert(keep(list[list.len() - 1]));
        lemma_ordered_keeps(head, comes_before, keep);
        lemma_placed_keeps(ordered_by(head, comes_before), list.last(), comes_before, keep);
    }
}

/// Ordering keeps the items of a list and brings them in order.
pub proof fn ordering_sorts<T>(list: Seq<T>, comes_before: spec_fn(T, T) -> bool)
    requires
        is_weak_order(comes_before),
    ensures
        in_order(ordered_by(list, comes_before), comes_before),
        ordered_by(list, comes_before).to_multiset() == list.to_multiset(),
        ordered_by(list, comes_before).len() == list.len(),
    decreases list.len(),
{
    if list.len() == 0 {
        assert(list =~= Seq::<T>::empty());
    } else {
        let head = list.drop_last();
        ordering_sorts(head, comes_before);
        let sorted = ordered_by(head, comes_before);
        let k = lemma_place(sorted, list.last(), comes_before);
        lemma_placed_at(sorted, list.last(), comes_before, k);
        let whole = sorted.insert(k, list.last());
        vstd::seq_lib::to_multiset_insert(sorted, k, list.last());
        vstd::seq_lib::to_multiset_insert(head, head.len() as int, list.last());
        assert(list =~= head.insert(head.len() as int, list.last()));
        assert forall|i: int, j: int| 0 <= i < j < whole.len() implies !comes_before(
            #[trigger] whole[j],
            #[trigger] whole[i],
        ) by {
            let x = list.last();
            if i < k && j < k {
                assert(!comes_before(sorted[j], sorted[i]));
            } else if i < k && j == k {
                assert(!comes_before(x, sorted[i]));
            } else if i < k {
                assert(!comes_before(sorted[j - 1], sorted[i]));
            } else if i == k {
                assert(comes_before(x, sorted[k]));
                if comes_before(sorted[j - 1], x) {
                    assert(comes_before(sorted[j - 1], sorted[k]));
                    if j - 1 > k {
                        assert(!comes_before(sorted[j - 1], sorted[k]));
                    }
                }
            } else {
                assert(!comes_before(sorted[j - 1], sorted[i - 1]));
            }
        }
    }
}

proof fn lemma_place<T>(list: Seq<T>, item: T, comes_before: spec_fn(T, T) -> bool) -> (k: int)
    ensures
        0 <= k <= list.len(),
        forall|j: int| 0 <= j < k ==> !comes_before(item, #[trigger] list[j]),
        k < list.len() ==> comes_before(item, list[k]),
    decreases list.len(),
{
    if list.len() == 0 {
        0
    } else if comes_before(item, list[0]) {
        0
    } else {
        let k = lemma_place(list.skip(1), item, comes_before);
        assert forall|j: int| 0 <= j < k + 1 implies !comes_before(item, #[trigger] list[j]) by {
            if j > 0 {
                assert(list.skip(1)[j - 1] == list[j]);
            }
        }
        k + 1
    }
}

proof fn lemma_placed_contains<T>(
    list: Seq<T>,
    item: T,
    comes_before: spec_fn(T, T) -> bool,
    other: T,
)
    ensures
        placed_by(list, item, comes_before).contains(other) <==> list.contains(other) || other
            == item,
        placed_by(list, item, comes_before).len() == list.len() + 1,
    decreases list.len(),
{
    let placed = placed_by(list, item, comes_before);
    if list.len() == 0 {
        assert(placed[0] == item);
    } else if comes_before(item, list[0]) {
        assert(placed[0] == item);
        assert forall|i: int| 0 <= i < list.len() implies placed[i + 1] == #[trigger] list[i] by {}
        if placed.contains(other) && other != item {
            let i = choose|i: int| 0 <= i < placed.len() && placed[i] == other;
            assert(list[i - 1] == other);
        }
        if list.contains(other) {
            let i = choose|i: int| 0 <= i < list.len() && list[i] == other;
            assert(placed[i + 1] == other);
        }
    } else {
        let rest = placed_by(list.skip(1), item, comes_before);
        lemma_placed_contains(list.skip(1), item, comes_before, other);
        assert(placed == seq![list[0]] + rest);
        if placed.contains(other) && other != list[0] {
            let i = choose|i: int| 0 <= i < placed.len() && placed[i] == other;
            assert(rest[i - 1] == other);
            if list.skip(1).contains(other) {
                let k = choose|k: int| 0 <= k < list.skip(1).len() && list.skip(1)[k] == other;
                assert(list[k + 1] == other);
            }
        }
        if other == list[0] {
            assert(placed[0] == other);
        } else if list.contains(other) || other == item {
            if list.contains(other) {
                let k = choose|k: int| 0 <= k < list.len() && list[k] == other;
                assert(list.skip(1)[k - 1] == other);
            }
            let i = choose|i: int| 0 <= i < rest.len() && rest[i] == other;
            assert(placed[i + 1] == other);
        }
    }
}

/// Ordering a list, by whatever relation, loses no item and adds none.
pub proof fn ordering_keeps_items<T>(list: Seq<T>, comes_before: spec_fn(T, T) -> bool, item: T)
    ensures
        ordered_by(list, comes_before).contains(item) <==> list.contains(item),
        ordered_by(list, comes_before).len() == list.len(),
    decreases list.len(),
{
    if list.len() > 0 {
        let head = list.drop_last();
        ordering_keeps_items(head, comes_before, item);
        lemma_placed_contains(ordered_by(head, comes_before), list.last(), comes_before, item);
        if list.contains(item) && item != list.last() {
            let i = choose|i: int| 0 <= i < list.len() && list[i] == item;
            assert(head[i] == item);
        }
        if head.contains(item) {
            let i = choose|i: int| 0 <= i < head.len() && head[i] == item;
            assert(list[i] == item);
        }
        assert(list[list.len() - 1] == list.last());
    }
}

} // verus!
