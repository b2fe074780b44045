//! A stable sort by an order that the items define.

use vstd::prelude::*;

verus! {

/// Items with an order: which of two comes strictly before the other.
pub trait Ordered: Sized {
    spec fn precedes(self, other: Self) -> bool;

    /// Whether this item comes strictly before the other.
    fn comes_before(&self, other: &Self) -> (result: bool)
        ensures
            result == self.precedes(*other),
    ;
}

/// The item put behind every item that it does not precede.
pub open spec fn inserted<T: Ordered>(list: Seq<T>, item: T) -> Seq<T>
    decreases list.len(),
{
    if list.len() == 0 || !item.precedes(list.last()) {
        list.push(item)
    } else {
        inserted(list.drop_last(), item).push(list.last())
    }
}

/// The items in order; those that the order does not tell apart stay in the
/// order in which they came.
pub open spec fn stable_sorted<T: Ordered>(list: Seq<T>) -> Seq<T>
    decreases list.len(),
{
    if list.len() == 0 {
        list
    } else {
        inserted(stable_sorted(list.drop_last()), list.last())
    }
}

/// No later item precedes an earlier one.
pub open spec fn in_order<T: Ordered>(list: Seq<T>) -> bool {
    forall|i: int, j: int|
        0 <= i < j < list.len() ==> !(#[trigger] list[j]).precedes(#[trigger] list[i])
}

/// The order ranks the items: no two precede each other, and what does not
/// precede something that does not precede a third does not precede the third.
pub open spec fn ranks<T: Ordered>() -> bool {
    &&& forall|a: T, b: T| #[trigger] a.precedes(b) ==> !b.precedes(a)
    &&& forall|a: T, b: T, c: T|
        !(#[trigger] a.precedes(b)) && !(#[trigger] b.precedes(c)) ==> !a.precedes(c)
}

proof fn lemma_inserted<T: Ordered>(list: Seq<T>, item: T)
    ensures
        inserted(list, item).len() == list.len() + 1,
        inserted(list, item).to_multiset() == list.to_multiset().insert(item),
        ranks::<T>() && in_order(list) ==> in_order(inserted(list, item)),
    decreases list.len(),
{
    broadcast use vstd::seq_lib::group_to_multiset_ensures;

    if list.len() > 0 && item.precedes(list.last()) {
        let front = list.drop_last();
        let last = list.last();
        lemma_inserted(front, item);
        assert(list =~= front.push(last));
        assert(inserted(list, item).to_multiset() =~= list.to_multiset().insert(item));
        if ranks::<T>() && in_order(list) {
            assert(in_order(front)) by {
                assert forall|i: int, j: int| 0 <= i < j < front.len() implies !(
                #[trigger] front[j]).precedes(#[trigger] front[i]) by {
                    assert(front[i] == list[i] && front[j] == list[j]);
                }
            }
            let put = inserted(front, item);
            let all = inserted(list, item);
            assert forall|i: int, j: int| 0 <= i < j < all.len() implies !(
            #[trigger] all[j]).precedes(#[trigger] all[i]) by {
                if j < put.len() {
                    assert(all[i] == put[i] && all[j] == put[j]);
                } else {
                    assert(all[j] == last);
                    assert(all[i] == put[i]);
                    assert(put.to_multiset().count(put[i]) > 0) by {
                        assert(put.contains(put[i]));
                    }
                    assert(put[i] == item || front.contains(put[i]));
                    if front.contains(put[i]) {
                        let k = choose|k: int| 0 <= k < front.len() && front[k] == put[i];
                        assert(list[k] == put[i]);
                        assert(!list[list.len() - 1].precedes(list[k]));
                    }
                }
            }
        }
    } else if ranks::<T>() && in_order(list) {
        let all = list.push(item);
        assert forall|i: int, j: int| 0 <= i < j < all.len() implies !(
        #[trigger] all[j]).precedes(#[trigger] all[i]) by {
            if j < list.len() {
                assert(all[i] == list[i] && all[j] == list[j]);
            } else if i == list.len() - 1 {
            } else {
                let last = list.len() - 1;
                assert(!list[last].precedes(list[i]));
                assert(!item.precedes(list[last]));
            }
        }
    }
}

/// Sorting keeps the items and puts them in order.
pub proof fn lemma_stable_sorted<T: Ordered>(list: Seq<T>)
    ensures
        stable_sorted(list).len() == list.len(),
        stable_sorted(list).to_multiset() == list.to_multiset(),
        ranks::<T>() ==> in_order(stable_sorted(list)),
    decreases list.len(),
{
    broadcast use vstd::seq_lib::group_to_multiset_ensures;

    if list.len() > 0 {
        let front = list.drop_last();
        lemma_stable_sorted(front);
        lemma_inserted(stable_sorted(front), list.last());
        assert(list =~= front.push(list.last()));
        assert(stable_sorted(list).to_multiset() =~= list.to_multiset());
    }
}

/// An item is among the sorted ones exactly when it was there before.
pub proof fn lemma_stable_sorted_contains<T: Ordered>(list: Seq<T>, item: T)
    ensures
        stable_sorted(list).contains(item) <==> list.contains(item),
{
    broadcast use vstd::seq_lib::group_to_multiset_ensures;

    lemma_stable_sorted(list);
    assert(stable_sorted(list).contains(item) <==> stable_sorted(list).to_multiset().count(item)
        > 0);
    assert(list.contains(item) <==> list.to_multiset().count(item) > 0);
}

/// The items in order, as `stable_sorted` states it.
pub fn sort_stable<T: Ordered>(items: Vec<T>) -> (result: Vec<T>)
    ensures
        result@ == stable_sorted(items@),
        result@.to_multiset() == items@.to_multiset(),
        ranks::<T>() ==> in_order(result@),
{
    proof {
        lemma_stable_sorted(items@);
    }
    let ghost all = items@;
    let mut rest = items;
    let mut out: Vec<T> = Vec::new();
    assert(all.take(0) =~= Seq::<T>::empty());
    assert(all.skip(0) =~= all);
    assert(stable_sorted(all.take(0)) =~= out@);
    while rest.len() > 0
        invariant
            rest.len() <= all.len(),
            rest@ == all.skip(all.len() - rest.len()),
            out@ == stable_sorted(all.take(all.len() - rest.len())),
        decreases rest.len(),
    {
        let ghost done = all.len() - rest.len();
        let item = rest.remove(0);
        assert(rest@ =~= all.skip(done + 1));
        assert(all.take(done + 1).drop_last() =~= all.take(done));
        assert(stable_sorted(all.take(done + 1)) == inserted(out@, item));
        let mut at: usize = out.len();
        assert(out@.take(at as int) =~= out@);
        assert(out@.skip(at as int) =~= Seq::<T>::empty());
        assert(inserted(out@, item) =~= inserted(out@.take(at as int), item) + out@.skip(
            at as int,
        ));
        while at > 0 && item.comes_before(&out[at - 1])
            invariant
                at <= out.len(),
                inserted(out@, item) == inserted(out@.take(at as int), item) + out@.skip(
                    at as int,
                ),
            decreases at,
        {
            assert(out@.take(at as int).drop_last() =~= out@.take(at - 1));
            assert(seq![out@[at - 1]] + out@.skip(at as int) =~= out@.skip(at - 1));
            assert(inserted(out@.take(at as int), item) + out@.skip(at as int) =~= inserted(
                out@.take(at - 1),
                item,
            ) + (seq![out@[at - 1]] + out@.skip(at as int)));
            at -= 1;
        }
        let ghost before = out@;
        assert(inserted(before.take(at as int), item) =~= before.take(at as int).push(item));
        out.insert(at, item);
        assert(out@ =~= before.take(at as int).push(item) + before.skip(at as int));
    }
    assert(all.take(all.len() as int) =~= all);
    out
}

/// As `inserted`, by a given order.
pub open spec fn inserted_by<V>(
    list: Seq<V>,
    item: V,
    before: spec_fn(V, V) -> bool,
) -> Seq<V>
    decreases list.len(),
{
    if list.len() == 0 || !before(item, list.last()) {
        list.push(item)
    } else {
        inserted_by(list.drop_last(), item, before).push(list.last())
    }
}

/// As `stable_sorted`, by a given order.
pub open spec fn stable_sorted_by<V>(list: Seq<V>, before: spec_fn(V, V) -> bool) -> Seq<V>
    decreases list.len(),
{
    if list.len() == 0 {
        list
    } else {
        inserted_by(stable_sorted_by(list.drop_last(), before), list.last(), before)
    }
}

proof fn lemma_inserted_view<T: Ordered, V>(
    list: Seq<T>,
    item: T,
    fits: spec_fn(T) -> bool,
    view: spec_fn(T) -> V,
    before: spec_fn(V, V) -> bool,
)
    requires
        forall|a: T, b: T|
            fits(a) && fits(b) ==> #[trigger] a.precedes(b) == before(view(a), view(b)),
        forall|i: int| 0 <= i < list.len() ==> fits(#[trigger] list[i]),
        fits(item),
    ensures
        inserted(list, item).map_values(view) == inserted_by(
            list.map_values(view),
            view(item),
            before,
        ),
        forall|i: int|
            0 <= i < inserted(list, item).len() ==> fits(#[trigger] inserted(list, item)[i]),
    decreases list.len(),
{
    let views = list.map_values(view);
    if list.len() == 0 {
        assert(inserted(list, item).map_values(view) =~= views.push(view(item)));
    } else {
        assert(views.last() == view(list.last()));
        assert(views.drop_last() =~= list.drop_last().map_values(view));
        assert(fits(list[list.len() - 1]));
        if item.precedes(list.last()) {
            lemma_inserted_view(list.drop_last(), item, fits, view, before);
            assert(inserted(list, item).map_values(view) =~= inserted(
                list.drop_last(),
                item,
            ).map_values(view).push(view(list.last())));
        } else {
            assert(inserted(list, item).map_values(view) =~= views.push(view(item)));
        }
    }
}

/// Where the order of items is that of their views, sorting the items sorts
/// the views. It is enough that this holds of items that fit, where all do.
pub proof fn lemma_stable_sorted_view<T: Ordered, V>(
    list: Seq<T>,
    fits: spec_fn(T) -> bool,
    view: spec_fn(T) -> V,
    before: spec_fn(V, V) -> bool,
)
    requires
        forall|a: T, b: T|
            fits(a) && fits(b) ==> #[trigger] a.precedes(b) == before(view(a), view(b)),
        forall|i: int| 0 <= i < list.len() ==> fits(#[trigger] list[i]),
    ensures
        stable_sorted(list).map_values(view) == stable_sorted_by(list.map_values(view), before),
        forall|i: int|
            0 <= i < stable_sorted(list).len() ==> fits(#[trigger] stable_sorted(list)[i]),
    decreases list.len(),
{
    if list.len() == 0 {
        assert(stable_sorted(list).map_values(view) =~= list.map_values(view));
    } else {
        let front = list.drop_last();
        lemma_stable_sorted_view(front, fits, view, before);
        assert(fits(list[list.len() - 1]));
        lemma_inserted_view(stable_sorted(front), list.last(), fits, view, before);
        assert(list.map_values(view).drop_last() =~= front.map_values(view));
        assert(list.map_values(view).last() == view(list.last()));
    }
}

proof fn lemma_inserted_at<T: Ordered>(list: Seq<T>, item: T) -> (at: int)
    ensures
        0 <= at <= list.len(),
        inserted(list, item) == list.take(at).push(item) + list.skip(at),
        at > 0 ==> !item.precedes(list[at - 1]),
        forall|i: int| at <= i < list.len() ==> item.precedes(#[trigger] list[i]),
    decreases list.len(),
{
    if list.len() == 0 || !item.precedes(list.last()) {
        let at = list.len() as int;
        assert(inserted(list, item) =~= list.take(at).push(item) + list.skip(at));
        at
    } else {
        let front = list.drop_last();
        let at = lemma_inserted_at(front, item);
        assert(inserted(list, item) =~= list.take(at).push(item) + list.skip(at)) by {
            assert(inserted(list, item) == inserted(front, item).push(list.last()));
            assert(front.take(at) =~= list.take(at));
            assert(front.skip(at).push(list.last()) =~= list.skip(at));
        }
        assert forall|i: int| at <= i < list.len() implies item.precedes(#[trigger] list[i]) by {
            if i < front.len() {
                assert(front[i] == list[i]);
            }
        }
        at
    }
}

/// One more item leaves the others as they were sorted, and goes in between:
/// before those that it precedes, and right behind one that it does not.
pub proof fn lemma_one_more_sorted<T: Ordered>(list: Seq<T>, item: T) -> (at: int)
    ensures
        ({
            let before = stable_sorted(list);
            let after = stable_sorted(list.push(item));
            &&& 0 <= at <= before.len()
            &&& after == before.take(at).push(item) + before.skip(at)
            &&& at > 0 ==> !item.precedes(before[at - 1])
            &&& forall|i: int| at <= i < before.len() ==> item.precedes(#[trigger] before[i])
        }),
        stable_sorted(Seq::<T>::empty()).len() == 0,
{
    assert(list.push(item).drop_last() =~= list);
    lemma_inserted_at(stable_sorted(list), item)
}

/// Items that the order does not tell apart stay in the order in which they
/// came, which a key that grows from each item to the next shows.
pub proof fn lemma_stable_sorted_keeps_ties<T: Ordered>(list: Seq<T>, key: spec_fn(T) -> int)
    requires
        forall|i: int, j: int|
            0 <= i < j < list.len() ==> key(#[trigger] list[i]) < key(#[trigger] list[j]),
    ensures
        forall|i: int, j: int|
            0 <= i < j < stable_sorted(list).len() && !(#[trigger] stable_sorted(list)[i]).precedes(
                #[trigger] stable_sorted(list)[j],
            ) && !stable_sorted(list)[j].precedes(stable_sorted(list)[i]) ==> key(
                stable_sorted(list)[i],
            ) < key(stable_sorted(list)[j]),
    decreases list.len(),
{
    if list.len() > 0 {
        let front = list.drop_last();
        let item = list.last();
        assert forall|i: int, j: int| 0 <= i < j < front.len() implies key(#[trigger] front[i])
            < key(#[trigger] front[j]) by {
            assert(front[i] == list[i] && front[j] == list[j]);
        }
        lemma_stable_sorted_keeps_ties(front, key);
        let before = stable_sorted(front);
        let after = stable_sorted(list);
        let at = lemma_inserted_at(before, item);
        assert forall|i: int, j: int|
            0 <= i < j < after.len() && !(#[trigger] after[i]).precedes(#[trigger] after[j])
                && !after[j].precedes(after[i]) implies key(after[i]) < key(after[j]) by {
            let place = |k: int| if k < at { k } else { k - 1 };
            if i != at && j != at {
                assert(after[i] == before[place(i)]);
                assert(after[j] == before[place(j)]);
            } else if j == at {
                assert(after[i] == before[i]);
                lemma_stable_sorted_contains(front, before[i]);
                assert(before.contains(before[i]));
                let k = choose|k: int| 0 <= k < front.len() && front[k] == before[i];
                assert(list[k] == before[i]);
                assert(key(list[k]) < key(list[list.len() - 1]));
            } else {
                assert(after[j] == before[j - 1]);
                assert(item.precedes(before[j - 1]));
            }
        }
    }
}

/// What is picked out of items in order is in order.
pub proof fn lemma_picked_in_order<T: Ordered>(list: Seq<T>, keep: spec_fn(T) -> bool)
    requires
        in_order(list),
    ensures
        in_order(list.filter(keep)),
    decreases list.len(),
{
    reveal(Seq::filter);
    if list.len() > 0 {
        let front = list.drop_last();
        let last = list.last();
        let picked = front.filter(keep);
        let all = list.filter(keep);
        assert(list =~= front.push(last));
        front.lemma_filter_push(last, keep);
        assert forall|i: int, j: int| 0 <= i < j < front.len() implies !(
        #[trigger] front[j]).precedes(#[trigger] front[i]) by {
            assert(front[i] == list[i] && front[j] == list[j]);
        }
        lemma_picked_in_order(front, keep);
        assert forall|i: int, j: int| 0 <= i < j < all.len() implies !(#[trigger] all[j]).precedes(
            #[trigger] all[i],
        ) by {
            assert(all[i] == picked[i]);
            if j < picked.len() {
                assert(all[j] == picked[j]);
            } else {
                assert(all[j] == last);
                front.lemma_filter_contains_rev(keep, picked[i]);
                let k = choose|k: int| 0 <= k < front.len() && front[k] == picked[i];
                assert(list[k] == picked[i]);
                assert(list[list.len() - 1] == last);
            }
        }
    }
}

proof fn lemma_inserted_by_at<V>(list: Seq<V>, item: V, before: spec_fn(V, V) -> bool) -> (at: int)
    ensures
        0 <= at <= list.len(),
        inserted_by(list, item, before) == list.take(at).push(item) + list.skip(at),
        at > 0 ==> !before(item, list[at - 1]),
        forall|i: int| at <= i < list.len() ==> before(item, #[trigger] list[i]),
    decreases list.len(),
{
    if list.len() == 0 || !before(item, list.last()) {
        let at = list.len() as int;
        assert(inserted_by(list, item, before) =~= list.take(at).push(item) + list.skip(at));
        at
    } else {
        let front = list.drop_last();
        let at = lemma_inserted_by_at(front, item, before);
        assert(inserted_by(list, item, before) =~= list.take(at).push(item) + list.skip(at)) by {
            assert(front.take(at) =~= list.take(at));
            assert(front.skip(at).push(list.last()) =~= list.skip(at));
        }
        assert forall|i: int| at <= i < list.len() implies before(item, #[trigger] list[i]) by {
            if i < front.len() {
                assert(front[i] == list[i]);
            }
        }
        at
    }
}

/// By a given order too, one more item leaves the others as they were sorted,
/// and goes in between: before those that it precedes, and right behind one
/// that it does not.
pub proof fn lemma_one_more_sorted_by<V>(
    list: Seq<V>,
    item: V,
    before: spec_fn(V, V) -> bool,
) -> (at: int)
    ensures
        ({
            let sorted = stable_sorted_by(list, before);
            &&& 0 <= at <= sorted.len()
            &&& stable_sorted_by(list.push(item), before) == sorted.take(at).push(item)
                + sorted.skip(at)
            &&& at > 0 ==> !before(item, sorted[at - 1])
            &&& forall|i: int| at <= i < sorted.len() ==> before(item, #[trigger] sorted[i])
        }),
        stable_sorted_by(Seq::<V>::empty(), before).len() == 0,
{
    assert(list.push(item).drop_last() =~= list);
    lemma_inserted_by_at(stable_sorted_by(list, before), item, before)
}

/// Sorting by a given order keeps the items and puts them in order, where no
/// two items precede each other, and what does not precede something that does
/// not precede a third does not precede the third.
pub proof fn lemma_stable_sorted_by<V>(list: Seq<V>, before: spec_fn(V, V) -> bool)
    requires
        forall|a: V, b: V| #[trigger] before(a, b) ==> !before(b, a),
        forall|a: V, b: V, c: V|
            !(#[trigger] before(a, b)) && !(#[trigger] before(b, c)) ==> !before(a, c),
    ensures
        stable_sorted_by(list, before).len() == list.len(),
        stable_sorted_by(list, before).to_multiset() == list.to_multiset(),
        forall|item: V| #[trigger]
            stable_sorted_by(list, before).contains(item) <==> list.contains(item),
        forall|i: int, j: int|
            0 <= i < j < list.len() ==> !before(
                #[trigger] stable_sorted_by(list, before)[j],
                #[trigger] stable_sorted_by(list, before)[i],
            ),
    decreases list.len(),
{
    broadcast use vstd::seq_lib::group_to_multiset_ensures;

    let after = stable_sorted_by(list, before);
    if list.len() > 0 {
        let front = list.drop_last();
        let item = list.last();
        assert(list =~= front.push(item));
        lemma_stable_sorted_by(front, before);
        let sorted = stable_sorted_by(front, before);
        let at = lemma_one_more_sorted_by(front, item, before);
        assert(after == sorted.take(at).push(item) + sorted.skip(at));
        assert(after.to_multiset() =~= list.to_multiset()) by {
            assert(sorted =~= sorted.take(at) + sorted.skip(at));
            vstd::seq_lib::lemma_multiset_commutative(sorted.take(at), sorted.skip(at));
            vstd::seq_lib::lemma_multiset_commutative(
                sorted.take(at).push(item),
                sorted.skip(at),
            );
        }
        assert forall|i: int, j: int| 0 <= i < j < after.len() implies !before(
            #[trigger] after[j],
            #[trigger] after[i],
        ) by {
            let p = if i < at {
                i
            } else {
                i - 1
            };
            let q = if j < at {
                j
            } else {
                j - 1
            };
            if i != at && j != at {
                assert(after[i] == sorted[p]);
                assert(after[j] == sorted[q]);
            } else if j == at {
                assert(after[i] == sorted[i]);
                assert(!before(item, sorted[at - 1]));
                if i < at - 1 {
                    assert(!before(sorted[at - 1], sorted[i]));
                }
            } else {
                assert(after[j] == sorted[j - 1]);
                assert(before(item, sorted[j - 1]));
            }
        }
    }
    assert forall|item: V| #[trigger] after.contains(item) <==> list.contains(item) by {
        assert(after.contains(item) <==> after.to_multiset().count(item) > 0);
        assert(list.contains(item) <==> list.to_multiset().count(item) > 0);
    }
}

} // verus!
