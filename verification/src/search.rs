//! Finding the first item of a sequence that meets a condition.

use vstd::prelude::*;

verus! {

/// The index of the first item of `items` that meets `wanted`, or the length
/// of `items` if none does.
pub open spec fn first_where<T>(items: Seq<T>, wanted: spec_fn(T) -> bool) -> int
    decreases items.len(),
{
    if items.len() == 0 || wanted(items[0]) {
        0
    } else {
        1 + first_where(items.drop_first(), wanted)
    }
}

/// The place that has no wanted item before it and a wanted item, or the
/// end, at it is the first place of a wanted item.
pub proof fn lemma_first_where_is<T>(items: Seq<T>, wanted: spec_fn(T) -> bool, at: int)
    requires
        0 <= at <= items.len(),
        forall|j: int| 0 <= j < at ==> !wanted(#[trigger] items[j]),
        at < items.len() ==> wanted(items[at]),
    ensures
        first_where(items, wanted) == at,
    decreases items.len(),
{
    if at > 0 {
        let rest = items.drop_first();
        lemma_first_where_is(rest, wanted, at - 1);
    }
}

/// The first place of a wanted item lies within the sequence or at its end;
/// no wanted item stands before it, and a wanted item, or nothing, at it.
pub proof fn lemma_first_where_bounds<T>(items: Seq<T>, wanted: spec_fn(T) -> bool)
    ensures
        0 <= first_where(items, wanted) <= items.len(),
        forall|j: int| 0 <= j < first_where(items, wanted) ==> !wanted(#[trigger] items[j]),
        first_where(items, wanted) < items.len() ==> wanted(items[first_where(items, wanted)]),
    decreases items.len(),
{
    if items.len() > 0 && !wanted(items[0]) {
        let rest = items.drop_first();
        lemma_first_where_bounds(rest, wanted);
        let at = first_where(items, wanted);
        assert forall|j: int| 0 <= j < at implies !wanted(#[trigger] items[j]) by {
            if j > 0 {
                assert(items[j] == rest[j - 1]);
            }
        }
    }
}

} // verus!
