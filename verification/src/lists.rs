//! Facts about filtered lists, and about lists of lists laid end to end.

use vstd::prelude::*;

verus! {

/// A list of lists laid end to end is its front laid end to end, and then
/// its last list.
pub proof fn lemma_flatten_last<A>(lists: Seq<Seq<A>>)
    requires
        lists.len() > 0,
    ensures
        lists.flatten() == lists.drop_last().flatten() + lists.last(),
{
    assert(lists =~= lists.drop_last().push(lists.last()));
    lists.drop_last().lemma_flatten_push(lists.last());
}

/// Empty lists laid end to end give the empty list.
pub proof fn lemma_flatten_of_empty_lists<A>(lists: Seq<Seq<A>>)
    requires
        forall|i: int| 0 <= i < lists.len() ==> (#[trigger] lists[i]).len() == 0,
    ensures
        lists.flatten() == Seq::<A>::empty(),
    decreases lists.len(),
{
    if lists.len() > 0 {
        lemma_flatten_last(lists);
        lemma_flatten_of_empty_lists(lists.drop_last());
        assert(lists.last().len() == 0);
        assert(lists.flatten() =~= Seq::<A>::empty());
    }
}

/// What one of the lists holds, the lists laid end to end hold too.
pub proof fn lemma_flatten_keeps<A>(lists: Seq<Seq<A>>, at: int, item: A)
    requires
        0 <= at < lists.len(),
        lists[at].contains(item),
    ensures
        lists.flatten().contains(item),
    decreases lists.len(),
{
    lemma_flatten_last(lists);
    let front = lists.drop_last().flatten();
    let last = lists.last();
    if at == lists.len() - 1 {
        let k = choose|k: int| 0 <= k < last.len() && last[k] == item;
        assert((front + last)[front.len() + k] == item);
    } else {
        lemma_flatten_keeps(lists.drop_last(), at, item);
        let k = choose|k: int| 0 <= k < front.len() && front[k] == item;
        assert((front + last)[k] == item);
    }
}

/// What the lists laid end to end hold, one of the lists holds.
pub proof fn lemma_flatten_holds_no_more<A>(lists: Seq<Seq<A>>, item: A) -> (at: int)
    requires
        lists.flatten().contains(item),
    ensures
        0 <= at < lists.len(),
        lists[at].contains(item),
    decreases lists.len(),
{
    if lists.len() == 0 {
        assert(lists.flatten() =~= Seq::<A>::empty());
        assert(false);
        0
    } else {
        lemma_flatten_last(lists);
        let front = lists.drop_last().flatten();
        let last = lists.last();
        let k = choose|k: int| 0 <= k < (front + last).len() && (front + last)[k] == item;
        if k < front.len() {
            assert(front[k] == item);
            let at = lemma_flatten_holds_no_more(lists.drop_last(), item);
            assert(lists.drop_last()[at] == lists[at]);
            at
        } else {
            assert(last[k - front.len()] == item);
            lists.len() - 1
        }
    }
}

/// What passed a filter passes it again.
pub proof fn lemma_filter_twice<A>(list: Seq<A>, keep: spec_fn(A) -> bool)
    ensures
        list.filter(keep).filter(keep) == list.filter(keep),
    decreases list.len(),
{
    reveal(Seq::filter);
    if list.len() > 0 {
        let front = list.drop_last();
        lemma_filter_twice(front, keep);
        if keep(list.last()) {
            front.filter(keep).lemma_filter_push(list.last(), keep);
        }
    }
}

/// Of what passed a filter nothing passes the opposite one.
pub proof fn lemma_filter_none<A>(list: Seq<A>, keep: spec_fn(A) -> bool)
    requires
        forall|i: int| 0 <= i < list.len() ==> !keep(#[trigger] list[i]),
    ensures
        list.filter(keep) == Seq::<A>::empty(),
{
    list.lemma_all_neg_filter_empty(keep);
}

} // verus!
