//! Facts about sequences.

use vstd::prelude::*;

verus! {

/// Filtering one item more keeps it or leaves it out.
pub proof fn lemma_filter_step<T>(items: Seq<T>, keep: spec_fn(T) -> bool, n: int)
    requires
        0 <= n < items.len(),
    ensures
        items.take(n + 1).filter(keep) == if keep(items[n]) {
            items.take(n).filter(keep).push(items[n])
        } else {
            items.take(n).filter(keep)
        },
{
    reveal(Seq::filter);
    assert(items.take(n + 1).drop_last() =~= items.take(n));
}

/// Filters that agree on every item keep the same.
pub proof fn lemma_same_filter<T>(items: Seq<T>, keep: spec_fn(T) -> bool, other: spec_fn(T) -> bool)
    requires
        forall|x: T| #[trigger] keep(x) == other(x),
    ensures
        items.filter(keep) == items.filter(other),
    decreases items.len(),
{
    reveal(Seq::filter);
    if items.len() > 0 {
        lemma_same_filter(items.drop_last(), keep, other);
        assert(keep(items.last()) == other(items.last()));
    }
}

/// What a filter keeps satisfies it and was there before.
pub proof fn lemma_filter_keeps<T>(items: Seq<T>, keep: spec_fn(T) -> bool)
    ensures
        items.filter(keep).len() <= items.len(),
        forall|i: int|
            0 <= i < items.filter(keep).len() ==> keep(#[trigger] items.filter(keep)[i])
                && items.contains(items.filter(keep)[i]),
    decreases items.len(),
{
    reveal(Seq::filter);
    if items.len() > 0 {
        lemma_filter_keeps(items.drop_last(), keep);
        let earlier = items.drop_last().filter(keep);
        assert forall|i: int| 0 <= i < items.filter(keep).len() implies keep(
            #[trigger] items.filter(keep)[i],
        ) && items.contains(items.filter(keep)[i]) by {
            if i < earlier.len() {
                let x = earlier[i];
                assert(items.drop_last().contains(x));
                let k = choose|k: int|
                    0 <= k < items.drop_last().len() && items.drop_last()[k] == x;
                assert(items[k] == x);
            } else {
                assert(items[items.len() - 1] == items.last());
            }
        }
    }
}

/// A filter keeps every item that satisfies it.
pub proof fn lemma_filter_has<T>(items: Seq<T>, keep: spec_fn(T) -> bool, n: int)
    requires
        0 <= n < items.len(),
        keep(items[n]),
    ensures
        items.filter(keep).contains(items[n]),
    decreases items.len(),
{
    reveal(Seq::filter);
    let earlier = items.drop_last().filter(keep);
    if n < items.len() - 1 {
        lemma_filter_has(items.drop_last(), keep, n);
        assert(items.drop_last()[n] == items[n]);
        let k = choose|k: int| 0 <= k < earlier.len() && earlier[k] == items[n];
        assert(items.filter(keep)[k] == items[n]);
    } else {
        assert(items.filter(keep)[earlier.len() as int] == items[n]);
    }
}

/// The first items of a sequence, at most `limit` of them.
pub open spec fn first_of<T>(items: Seq<T>, limit: int) -> Seq<T> {
    if items.len() <= limit {
        items
    } else {
        items.take(limit)
    }
}

/// What follows the first items does not change them.
pub proof fn lemma_first_of_prefix<T>(items: Seq<T>, rest: Seq<T>)
    ensures
        first_of(items + rest, items.len() as int) == items,
{
    assert(first_of(items + rest, items.len() as int) =~= items);
}

} // verus!
