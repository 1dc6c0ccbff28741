//! What is gathered from a list of items without regard to their order.
//!
//! Where each item gives some things of its own, the things of all items taken together are
//! the same in whatever order the items come. The workers of a run take the lines of the
//! dump in an order that nobody fixes, and hand their entries to the writer in such an
//! order; this is what makes the outcome the same all the same.

use vstd::multiset::Multiset;
use vstd::prelude::*;
use vstd::seq_lib::{to_multiset_build, to_multiset_contains, to_multiset_len, to_multiset_remove};

verus! {

/// What the items give taken together: what each gives, as often as it gives it.
pub open spec fn gathered<A, B>(items: Seq<A>, each: spec_fn(A) -> Multiset<B>) -> Multiset<B>
    decreases items.len(),
{
    if items.len() == 0 {
        Multiset::empty()
    } else {
        gathered(items.drop_last(), each).add(each(items.last()))
    }
}

/// What some items give is what one of them gives and what the others give.
pub proof fn lemma_gathered_without_one<A, B>(
    items: Seq<A>,
    i: int,
    each: spec_fn(A) -> Multiset<B>,
)
    requires
        0 <= i < items.len(),
    ensures
        gathered(items, each) == gathered(items.remove(i), each).add(each(items[i])),
    decreases items.len(),
{
    let others = items.remove(i);
    if i == items.len() - 1 {
        assert(others =~= items.drop_last());
    } else {
        let front = items.drop_last();
        lemma_gathered_without_one(front, i, each);
        assert(others.drop_last() =~= front.remove(i));
        assert(others.last() == items.last());
        assert(front[i] == items[i]);
        assert(gathered(items, each) =~= gathered(others, each).add(each(items[i])));
    }
}

/// The same items in another order give the same.
pub proof fn lemma_gathered_ignores_order<A, B>(
    items: Seq<A>,
    reordered: Seq<A>,
    each: spec_fn(A) -> Multiset<B>,
)
    requires
        items.to_multiset() == reordered.to_multiset(),
    ensures
        gathered(items, each) == gathered(reordered, each),
    decreases items.len(),
{
    to_multiset_len(items);
    to_multiset_len(reordered);
    if items.len() > 0 {
        let item = items.last();
        let front = items.drop_last();
        assert(front.push(item) =~= items);
        to_multiset_build(front, item);
        to_multiset_contains(reordered, item);
        assert(reordered.to_multiset().count(item) > 0);
        let i = choose|i: int| 0 <= i < reordered.len() && reordered[i] == item;
        let others = reordered.remove(i);
        to_multiset_remove(reordered, i);
        assert(others.to_multiset() =~= front.to_multiset());
        lemma_gathered_ignores_order(front, others, each);
        lemma_gathered_without_one(reordered, i, each);
    }
}

/// Two lists of items, one after the other, give what the first gives and what the second
/// gives.
pub proof fn lemma_gathered_together<A, B>(
    first: Seq<A>,
    second: Seq<A>,
    each: spec_fn(A) -> Multiset<B>,
)
    ensures
        gathered(first + second, each) == gathered(first, each).add(gathered(second, each)),
    decreases second.len(),
{
    if second.len() == 0 {
        assert(first + second =~= first);
        assert(gathered(first, each).add(gathered(second, each)) =~= gathered(first, each));
    } else {
        lemma_gathered_together(first, second.drop_last(), each);
        assert((first + second).drop_last() =~= first + second.drop_last());
        assert((first + second).last() == second.last());
        assert(gathered(first + second, each) =~= gathered(first, each).add(
            gathered(second, each),
        ));
    }
}

} // verus!
