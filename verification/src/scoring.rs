//! Scoring of an ordering against weighted placement constraints.
//!
//! The score of an ordering is the sum of the weights of the constraints it
//! satisfies. A title is matched character by character, and it names every
//! track that bears it: a constraint is satisfied as soon as some tracks with
//! the titles it names stand as it asks. A title that no track bears
//! satisfies nothing, and no track is its own neighbour or companion.

use crate::allocation::{allocate_sides, allocation, Allocation, AllocationView};
use crate::model::{
    constraint_views, Constraint, ConstraintKind, ConstraintKindView, ConstraintView, Medium,
    Track, TrackView, Tracklist,
};
use vstd::prelude::*;

verus! {

/// A score: a sum of weights. It is wide enough for the weights of any list
/// of constraints that memory can hold.
pub type Score = u128;

/// A track titled `title` stands at `position`.
pub open spec fn at_position(ordering: Seq<TrackView>, title: Seq<char>, position: nat) -> bool {
    position < ordering.len() && ordering[position as int].title == title
}

/// The tracks at positions `i` and `i + 1` bear the titles `first` and
/// `second`, in either order.
pub open spec fn adjacent_at(
    ordering: Seq<TrackView>,
    first: Seq<char>,
    second: Seq<char>,
    i: int,
) -> bool {
    ||| (ordering[i].title == first && ordering[i + 1].title == second)
    ||| (ordering[i].title == second && ordering[i + 1].title == first)
}

/// Two tracks titled `first` and `second` stand at positions that differ
/// by one.
pub open spec fn adjacent(ordering: Seq<TrackView>, first: Seq<char>, second: Seq<char>) -> bool {
    exists|i: int| 0 <= i && i + 1 < ordering.len() && #[trigger] adjacent_at(
        ordering,
        first,
        second,
        i,
    )
}

/// The tracks at the distinct positions `i` and `j` of `side` bear the titles
/// `first` and `second`.
pub open spec fn companions_at(
    side: Seq<TrackView>,
    first: Seq<char>,
    second: Seq<char>,
    i: int,
    j: int,
) -> bool {
    i != j && side[i].title == first && side[j].title == second
}

/// Two different tracks of `side` bear the titles `first` and `second`.
pub open spec fn companions(side: Seq<TrackView>, first: Seq<char>, second: Seq<char>) -> bool {
    exists|i: int, j: int|
        0 <= i < side.len() && 0 <= j < side.len() && #[trigger] companions_at(
            side,
            first,
            second,
            i,
            j,
        )
}

/// The ordering fits, and one of its sides holds two different tracks titled
/// `first` and `second`.
pub open spec fn on_same_side(
    packing: AllocationView,
    first: Seq<char>,
    second: Seq<char>,
) -> bool {
    packing.feasible && exists|s: int|
        0 <= s < packing.sides.len() && companions(#[trigger] packing.sides[s], first, second)
}

/// Whether an ordering with the given packing satisfies a constraint of the
/// given kind.
pub open spec fn satisfied(
    kind: ConstraintKindView,
    ordering: Seq<TrackView>,
    packing: AllocationView,
) -> bool {
    match kind {
        ConstraintKindView::AtPosition(title, position) => at_position(ordering, title, position),
        ConstraintKindView::Adjacent(first, second) => adjacent(ordering, first, second),
        ConstraintKindView::OnSameSide(first, second) => on_same_side(packing, first, second),
    }
}

/// What one constraint adds to the score: its weight if it is satisfied,
/// nothing otherwise.
pub open spec fn contribution(
    constraint: ConstraintView,
    ordering: Seq<TrackView>,
    packing: AllocationView,
) -> nat {
    if satisfied(constraint.kind, ordering, packing) {
        constraint.weight
    } else {
        0
    }
}

/// The score of an ordering: the sum of the contributions of all constraints.
pub open spec fn score(
    constraints: Seq<ConstraintView>,
    ordering: Seq<TrackView>,
    packing: AllocationView,
) -> nat
    decreases constraints.len(),
{
    if constraints.len() == 0 {
        0
    } else {
        score(constraints.drop_last(), ordering, packing) + contribution(
            constraints.last(),
            ordering,
            packing,
        )
    }
}

/// The score of an ordering on a medium with `sides` sides of `capacity`
/// each: its score with the packing that the medium gives it.
pub open spec fn score_on(
    constraints: Seq<ConstraintView>,
    ordering: Seq<TrackView>,
    sides: nat,
    capacity: nat,
) -> nat {
    score(constraints, ordering, allocation(ordering, sides, capacity))
}

/// Whether `track` bears `title`.
pub fn has_title(track: &Track, title: &String) -> (r: bool)
    ensures
        r == (track@.title == title@),
{
    track.title == *title
}

/// Whether a track titled `title` stands at `position` of `tracklist`.
pub fn is_at_position(tracklist: &Tracklist, title: &String, position: usize) -> (r: bool)
    ensures
        r == at_position(tracklist@, title@, position as nat),
{
    position < tracklist.0.len() && has_title(&tracklist.0[position], title)
}

/// Whether two tracks titled `first` and `second` are neighbours in
/// `tracklist`.
pub fn is_adjacent(tracklist: &Tracklist, first: &String, second: &String) -> (r: bool)
    ensures
        r == adjacent(tracklist@, first@, second@),
{
    let n = tracklist.0.len();
    if n < 2 {
        return false;
    }
    let mut i: usize = 0;
    while i < n - 1
        invariant
            n == tracklist.0.len(),
            n >= 2,
            i <= n - 1,
            forall|j: int| 0 <= j < i ==> !adjacent_at(tracklist@, first@, second@, j),
        decreases n - i,
    {
        let here = &tracklist.0[i];
        let next = &tracklist.0[i + 1];
        if (has_title(here, first) && has_title(next, second)) || (has_title(here, second)
            && has_title(next, first)) {
            assert(adjacent_at(tracklist@, first@, second@, i as int));
            return true;
        }
        i = i + 1;
    }
    false
}

/// Whether two different tracks of `side` bear the titles `first` and
/// `second`.
pub fn has_companions(side: &Vec<Track>, first: &String, second: &String) -> (r: bool)
    ensures
        r == companions(crate::model::track_views(side@), first@, second@),
{
    let ghost views = crate::model::track_views(side@);
    let n = side.len();
    let mut i: usize = 0;
    while i < n
        invariant
            n == side.len(),
            views == crate::model::track_views(side@),
            i <= n,
            forall|a: int, b: int|
                0 <= a < i && 0 <= b < n ==> !companions_at(views, first@, second@, a, b),
        decreases n - i,
    {
        if has_title(&side[i], first) {
            let mut j: usize = 0;
            while j < n
                invariant
                    n == side.len(),
                    views == crate::model::track_views(side@),
                    i < n,
                    j <= n,
                    views[i as int].title == first@,
                    forall|b: int| 0 <= b < j ==> !companions_at(views, first@, second@, i as int, b),
                decreases n - j,
            {
                if j != i && has_title(&side[j], second) {
                    assert(companions_at(views, first@, second@, i as int, j as int));
                    return true;
                }
                j = j + 1;
            }
        }
        i = i + 1;
    }
    false
}

/// Whether the ordering packed as `packing` fits and has two different
/// tracks titled `first` and `second` on one side.
pub fn is_on_same_side(packing: &Allocation, first: &String, second: &String) -> (r: bool)
    ensures
        r == on_same_side(packing@, first@, second@),
{
    if !packing.feasible {
        return false;
    }
    let ghost sides = packing@.sides;
    let mut s: usize = 0;
    while s < packing.sides.len()
        invariant
            s <= packing.sides.len(),
            sides == packing@.sides,
            packing.feasible,
            forall|t: int| 0 <= t < s ==> !companions(#[trigger] sides[t], first@, second@),
        decreases packing.sides.len() - s,
    {
        if has_companions(&packing.sides[s], first, second) {
            assert(companions(sides[s as int], first@, second@));
            return true;
        }
        s = s + 1;
    }
    false
}

/// Whether `tracklist`, packed as `packing`, satisfies a constraint of kind
/// `kind`.
pub fn is_satisfied(kind: &ConstraintKind, tracklist: &Tracklist, packing: &Allocation) -> (r:
    bool)
    ensures
        r == satisfied(kind@, tracklist@, packing@),
{
    match kind {
        ConstraintKind::AtPosition(title, position) => is_at_position(tracklist, title, *position),
        ConstraintKind::Adjacent(first, second) => is_adjacent(tracklist, first, second),
        ConstraintKind::OnSameSide(first, second) => is_on_same_side(packing, first, second),
    }
}

/// The score of `tracklist` with the packing `packing`: the sum of the
/// weights of the constraints that it satisfies.
pub fn score_allocation(
    tracklist: &Tracklist,
    packing: &Allocation,
    constraints: &Vec<Constraint>,
) -> (r: Score)
    ensures
        r == score(constraint_views(constraints@), tracklist@, packing@),
{
    let ghost all = constraint_views(constraints@);
    let mut total: u128 = 0;
    let mut i: usize = 0;
    while i < constraints.len()
        invariant
            i <= constraints.len(),
            all == constraint_views(constraints@),
            total == score(all.take(i as int), tracklist@, packing@),
            total <= i * 0xffff_ffff_ffff_ffff,
        decreases constraints.len() - i,
    {
        let constraint = &constraints[i];
        proof {
            assert(all.take(i + 1).drop_last() =~= all.take(i as int));
        }
        if is_satisfied(&constraint.kind, tracklist, packing) {
            total = total + constraint.weight as u128;
        }
        i = i + 1;
    }
    assert(all.take(i as int) =~= all);
    total
}

/// The score of `tracklist` on `medium`: the ordering is packed onto the
/// medium, and the constraints are weighed against the ordering and its
/// packing.
pub fn score_tracklist(tracklist: &Tracklist, constraints: &Vec<Constraint>, medium: &Medium) -> (r:
    Score)
    ensures
        r == score_on(
            constraint_views(constraints@),
            tracklist@,
            medium.sides as nat,
            medium.max_duration_per_side as nat,
        ),
{
    let packing = allocate_sides(tracklist, medium);
    score_allocation(tracklist, &packing, constraints)
}

/// A further constraint adds its weight to the score of an ordering that
/// satisfies it and leaves every other score as it was, wherever in the list
/// it is put. So no score falls when a constraint is added.
pub proof fn lemma_added_constraint(
    constraints: Seq<ConstraintView>,
    added: ConstraintView,
    at: int,
    ordering: Seq<TrackView>,
    packing: AllocationView,
)
    requires
        0 <= at <= constraints.len(),
    ensures
        score(constraints.insert(at, added), ordering, packing) == score(
            constraints,
            ordering,
            packing,
        ) + contribution(added, ordering, packing),
        satisfied(added.kind, ordering, packing) ==> score(
            constraints.insert(at, added),
            ordering,
            packing,
        ) == score(constraints, ordering, packing) + added.weight,
        !satisfied(added.kind, ordering, packing) ==> score(
            constraints.insert(at, added),
            ordering,
            packing,
        ) == score(constraints, ordering, packing),
        score(constraints.insert(at, added), ordering, packing) >= score(
            constraints,
            ordering,
            packing,
        ),
    decreases constraints.len(),
{
    let longer = constraints.insert(at, added);
    if at == constraints.len() {
        assert(longer.drop_last() =~= constraints);
    } else {
        lemma_added_constraint(constraints.drop_last(), added, at, ordering, packing);
        assert(longer.drop_last() =~= constraints.drop_last().insert(at, added));
    }
}

/// An ordering without tracks satisfies no constraint, so it scores nothing.
pub proof fn lemma_no_tracks_no_score(constraints: Seq<ConstraintView>, packing: AllocationView)
    requires
        packing.sides.len() == 0,
    ensures
        score(constraints, Seq::<TrackView>::empty(), packing) == 0,
    decreases constraints.len(),
{
    if constraints.len() > 0 {
        lemma_no_tracks_no_score(constraints.drop_last(), packing);
    }
}

/// The score of an ordering on a medium is decided by what the ordering, the
/// constraints and the medium are to the contracts.
pub proof fn lemma_score_repeats(
    constraints: Seq<Constraint>,
    again_constraints: Seq<Constraint>,
    ordering: Tracklist,
    again_ordering: Tracklist,
    sides: nat,
    capacity: nat,
)
    requires
        constraint_views(constraints) == constraint_views(again_constraints),
        ordering@ == again_ordering@,
    ensures
        score_on(constraint_views(constraints), ordering@, sides, capacity) == score_on(
            constraint_views(again_constraints),
            again_ordering@,
            sides,
            capacity,
        ),
{
}

} // verus!
