//! Filtering a slice by a predicate, into copies of what it accepts.
use vstd::prelude::*;

verus! {

/// The items that were accepted, in the order in which they stand in
/// `items`: `verdicts` gives, place by place, whether the item was.
pub open spec fn selected<T>(items: Seq<T>, verdicts: Seq<bool>) -> Seq<T>
    recommends
        verdicts.len() == items.len(),
    decreases items.len(),
{
    if items.len() == 0 || verdicts.len() != items.len() {
        Seq::empty()
    } else if verdicts.last() {
        selected(items.drop_last(), verdicts.drop_last()).push(items.last())
    } else {
        selected(items.drop_last(), verdicts.drop_last())
    }
}

/// Whether `kept` holds, place by place, a copy of the items that
/// `predicate` accepts, for some run of the predicate over all of `items`.
pub open spec fn is_filtered<T: Clone, F: Fn(&T) -> bool>(
    items: Seq<T>,
    predicate: F,
    kept: Seq<T>,
) -> bool {
    exists|verdicts: Seq<bool>|
        {
            &&& verdicts.len() == items.len()
            &&& forall|i: int|
                0 <= i < items.len() ==> call_ensures(predicate, (&items[i],), #[trigger] verdicts[i])
            &&& kept.len() == selected(items, verdicts).len()
            &&& forall|k: int|
                0 <= k < kept.len() ==> cloned(selected(items, verdicts)[k], #[trigger] kept[k])
        }
}

/// Copies out of `items`, in their order, the items that `predicate` accepts.
/// The predicate is asked once for each item, from the first to the last.
pub fn filter_items<T: Clone, F: Fn(&T) -> bool>(items: &[T], predicate: F) -> (kept: Vec<T>)
    requires
        forall|i: int| 0 <= i < items@.len() ==> call_requires(predicate, (&#[trigger] items@[i],)),
    ensures
        is_filtered(items@, predicate, kept@),
{
    let mut kept: Vec<T> = Vec::new();
    let ghost mut verdicts: Seq<bool> = Seq::empty();
    let mut i: usize = 0;
    while i < items.len()
        invariant
            i <= items@.len(),
            verdicts.len() == i,
            forall|j: int| 0 <= j < items@.len() ==> call_requires(predicate, (&#[trigger] items@[j],)),
            forall|j: int|
                0 <= j < i ==> call_ensures(predicate, (&items@[j],), #[trigger] verdicts[j]),
            kept@.len() == selected(items@.take(i as int), verdicts).len(),
            forall|k: int|
                0 <= k < kept@.len() ==> cloned(
                    selected(items@.take(i as int), verdicts)[k],
                    #[trigger] kept@[k],
                ),
        decreases items@.len() - i,
    {
        let item = &items[i];
        let accepted = predicate(item);
        let ghost before = verdicts;
        proof {
            verdicts = verdicts.push(accepted);
            assert(items@.take(i + 1).drop_last() =~= items@.take(i as int));
            assert(verdicts.drop_last() =~= before);
        }
        if accepted {
            kept.push(item.clone());
        }
        i += 1;
    }
    proof {
        assert(items@.take(i as int) =~= items@);
    }
    kept
}

/// Where each verdict is what `accepts` says of the item, the accepted items
/// are the items filtered by `accepts`.
pub proof fn lemma_selected_is_filter<T>(
    items: Seq<T>,
    verdicts: Seq<bool>,
    accepts: spec_fn(T) -> bool,
)
    requires
        verdicts.len() == items.len(),
        forall|i: int| 0 <= i < items.len() ==> #[trigger] verdicts[i] == accepts(items[i]),
    ensures
        selected(items, verdicts) == items.filter(accepts),
    decreases items.len(),
{
    reveal(Seq::filter);
    if items.len() > 0 {
        lemma_selected_is_filter(items.drop_last(), verdicts.drop_last(), accepts);
    }
}

/// Whether `places` says where in `items` each of `chosen` stands, such that
/// `chosen` holds the accepted items, all of them, in the order of `items`.
pub open spec fn keeps_order<T>(
    items: Seq<T>,
    verdicts: Seq<bool>,
    chosen: Seq<T>,
    places: Seq<int>,
) -> bool {
    &&& places.len() == chosen.len()
    &&& forall|k: int|
        0 <= k < places.len() ==> {
            &&& 0 <= #[trigger] places[k] < items.len()
            &&& verdicts[places[k]]
            &&& chosen[k] == items[places[k]]
        }
    &&& forall|j: int, k: int| 0 <= j < k < places.len() ==> places[j] < places[k]
    &&& forall|i: int|
        0 <= i < items.len() && #[trigger] verdicts[i] ==> exists|k: int|
            0 <= k < places.len() && places[k] == i
}

/// The accepted items are the items at the accepted places, each once, in
/// the order in which they stand in `items`. The result gives the places.
pub proof fn lemma_selected_keeps_order<T>(items: Seq<T>, verdicts: Seq<bool>) -> (places: Seq<int>)
    requires
        verdicts.len() == items.len(),
    ensures
        keeps_order(items, verdicts, selected(items, verdicts), places),
    decreases items.len(),
{
    if items.len() == 0 {
        Seq::empty()
    } else {
        let last = items.len() - 1;
        let fewer = items.drop_last();
        let earlier = lemma_selected_keeps_order(fewer, verdicts.drop_last());
        let places = if verdicts.last() {
            earlier.push(last)
        } else {
            earlier
        };
        let chosen = selected(items, verdicts);
        assert forall|i: int| 0 <= i < items.len() && #[trigger] verdicts[i] implies exists|k: int|
            0 <= k < places.len() && places[k] == i by {
            if i < last {
                assert(verdicts.drop_last()[i]);
                let k = choose|k: int| 0 <= k < earlier.len() && earlier[k] == i;
                assert(places[k] == i);
            } else {
                assert(places[places.len() - 1] == i);
            }
        }
        assert forall|k: int| 0 <= k < places.len() implies {
            &&& 0 <= #[trigger] places[k] < items.len()
            &&& verdicts[places[k]]
            &&& chosen[k] == items[places[k]]
        } by {}
        places
    }
}

/// Where the predicate always answers what `accepts` says, and a copy of an
/// item always equals the item, filtering gives exactly the items filtered
/// by `accepts`.
pub proof fn lemma_filtered_by_exact_predicate<T: Clone, F: Fn(&T) -> bool>(
    items: Seq<T>,
    predicate: F,
    kept: Seq<T>,
    accepts: spec_fn(T) -> bool,
)
    requires
        is_filtered(items, predicate, kept),
        forall|item: T, verdict: bool|
            call_ensures(predicate, (&item,), verdict) ==> verdict == accepts(item),
        forall|item: T, copy: T| cloned(item, copy) ==> copy == item,
    ensures
        kept == items.filter(accepts),
{
    let verdicts = choose|verdicts: Seq<bool>|
        {
            &&& verdicts.len() == items.len()
            &&& forall|i: int|
                0 <= i < items.len() ==> call_ensures(predicate, (&items[i],), #[trigger] verdicts[i])
            &&& kept.len() == selected(items, verdicts).len()
            &&& forall|k: int|
                0 <= k < kept.len() ==> cloned(selected(items, verdicts)[k], #[trigger] kept[k])
        };
    lemma_selected_is_filter(items, verdicts, accepts);
}

} // verus!
