//! Greedy packing of an ordering onto the sides of a medium.
//!
//! Tracks are taken in the order in which they stand. A track joins the side
//! that is open if it still fits there; otherwise it opens the next side, as
//! long as the medium has one left. A track that is longer than a whole side,
//! or that finds every side used, makes the ordering infeasible, and nothing
//! after it is placed.

use crate::model::{track_views, Medium, Track, TrackView, Tracklist};
use vstd::prelude::*;

verus! {

/// The playing time of a side: the sum of the durations of its tracks.
pub open spec fn side_duration(side: Seq<TrackView>) -> nat
    decreases side.len(),
{
    if side.len() == 0 {
        0
    } else {
        side_duration(side.drop_last()) + side.last().duration
    }
}

/// The outcome of packing: the sides filled so far, each with its tracks in
/// order, and whether every track found a place.
pub struct AllocationView {
    pub sides: Seq<Seq<TrackView>>,
    pub feasible: bool,
}

/// One step of the packing: `track` is offered to the packing `current` on a
/// medium with `sides` sides of `capacity` each.
pub open spec fn place(
    current: AllocationView,
    track: TrackView,
    sides: nat,
    capacity: nat,
) -> AllocationView {
    if !current.feasible {
        current
    } else if track.duration > capacity {
        AllocationView { sides: current.sides, feasible: false }
    } else if current.sides.len() > 0 && side_duration(current.sides.last()) + track.duration
        <= capacity {
        AllocationView {
            sides: current.sides.update(
                current.sides.len() - 1,
                current.sides.last().push(track),
            ),
            feasible: true,
        }
    } else if current.sides.len() < sides {
        AllocationView { sides: current.sides.push(seq![track]), feasible: true }
    } else {
        AllocationView { sides: current.sides, feasible: false }
    }
}

/// The packing of a whole ordering: every track offered in turn, starting
/// from no side at all.
pub open spec fn allocation(tracks: Seq<TrackView>, sides: nat, capacity: nat) -> AllocationView
    decreases tracks.len(),
{
    if tracks.len() == 0 {
        AllocationView { sides: Seq::empty(), feasible: true }
    } else {
        place(allocation(tracks.drop_last(), sides, capacity), tracks.last(), sides, capacity)
    }
}

/// The views of a sequence of sides.
pub open spec fn side_views(sides: Seq<Vec<Track>>) -> Seq<Seq<TrackView>> {
    sides.map_values(|side: Vec<Track>| track_views(side@))
}

/// The sides that the packing filled, and whether the ordering fits.
#[derive(Debug)]
pub struct Allocation {
    pub sides: Vec<Vec<Track>>,
    pub feasible: bool,
}

impl View for Allocation {
    type V = AllocationView;

    open spec fn view(&self) -> AllocationView {
        AllocationView { sides: side_views(self.sides@), feasible: self.feasible }
    }
}

/// A side of one track plays as long as that track.
pub proof fn lemma_single_track_side(track: TrackView)
    ensures
        side_duration(seq![track]) == track.duration,
{
    reveal_with_fuel(side_duration, 2);
}

/// Once a track has found no place, the packing does not change any more.
pub proof fn lemma_infeasible_prefix_decides(
    tracks: Seq<TrackView>,
    sides: nat,
    capacity: nat,
    k: int,
)
    requires
        0 <= k <= tracks.len(),
        !allocation(tracks.take(k), sides, capacity).feasible,
    ensures
        allocation(tracks, sides, capacity) == allocation(tracks.take(k), sides, capacity),
    decreases tracks.len() - k,
{
    if k == tracks.len() {
        assert(tracks.take(k) =~= tracks);
    } else {
        assert(tracks.take(k + 1).drop_last() =~= tracks.take(k));
        lemma_infeasible_prefix_decides(tracks, sides, capacity, k + 1);
    }
}

/// Packs `tracklist` onto `medium`. The result holds the sides in order, each
/// with copies of its tracks in order; for an ordering that does not fit,
/// the sides hold the tracks that stand before the first one without a place.
pub fn allocate_sides(tracklist: &Tracklist, medium: &Medium) -> (r: Allocation)
    ensures
        r@ == allocation(
            tracklist@,
            medium.sides as nat,
            medium.max_duration_per_side as nat,
        ),
{
    let ghost tracks = tracklist@;
    let ghost limit = medium.sides as nat;
    let ghost capacity = medium.max_duration_per_side as nat;
    let mut sides: Vec<Vec<Track>> = Vec::new();
    let mut load: u64 = 0;
    let mut i: usize = 0;
    assert(side_views(sides@) =~= Seq::<Seq<TrackView>>::empty());
    while i < tracklist.0.len()
        invariant
            i <= tracklist.0.len(),
            tracks == tracklist@,
            limit == medium.sides as nat,
            capacity == medium.max_duration_per_side as nat,
            allocation(tracks.take(i as int), limit, capacity) == (AllocationView {
                sides: side_views(sides@),
                feasible: true,
            }),
            sides.len() > 0 ==> load == side_duration(side_views(sides@).last()),
            sides.len() > 0 ==> load <= medium.max_duration_per_side,
        decreases tracklist.0.len() - i,
    {
        let track = &tracklist.0[i];
        let ghost before = side_views(sides@);
        proof {
            assert(tracks.take(i + 1).drop_last() =~= tracks.take(i as int));
        }
        if track.duration > medium.max_duration_per_side {
            proof {
                lemma_infeasible_prefix_decides(tracks, limit, capacity, i + 1);
            }
            return Allocation { sides, feasible: false };
        } else if sides.len() > 0 && track.duration <= medium.max_duration_per_side - load {
            let mut side = sides.pop().unwrap();
            side.push(track.clone());
            proof {
                assert(track_views(side@) =~= before.last().push(track@));
                assert(side_duration(track_views(side@)) == load + track.duration) by {
                    assert(track_views(side@).drop_last() =~= before.last());
                }
            }
            sides.push(side);
            load = load + track.duration;
            assert(side_views(sides@) =~= before.update(
                before.len() - 1,
                before.last().push(track@),
            ));
        } else if sides.len() < medium.sides {
            let mut side: Vec<Track> = Vec::new();
            side.push(track.clone());
            proof {
                assert(track_views(side@) =~= seq![track@]);
                lemma_single_track_side(track@);
            }
            sides.push(side);
            load = track.duration;
            assert(side_views(sides@) =~= before.push(seq![track@]));
        } else {
            proof {
                lemma_infeasible_prefix_decides(tracks, limit, capacity, i + 1);
            }
            return Allocation { sides, feasible: false };
        }
        i = i + 1;
    }
    assert(tracks.take(i as int) =~= tracks);
    Allocation { sides, feasible: true }
}

/// Splits `tracklist` into the sides of `medium`: the sides of
/// [`allocate_sides`] without the flag.
pub fn split_tracklist_by_side(tracklist: &Tracklist, medium: &Medium) -> (r: Vec<Vec<Track>>)
    ensures
        side_views(r@) == allocation(
            tracklist@,
            medium.sides as nat,
            medium.max_duration_per_side as nat,
        ).sides,
{
    allocate_sides(tracklist, medium).sides
}

impl Medium {
    /// Whether `tracklist`, in the order in which it stands, fits on this
    /// medium.
    pub fn fits(&self, tracklist: &Tracklist) -> (r: bool)
        ensures
            r == allocation(
                tracklist@,
                self.sides as nat,
                self.max_duration_per_side as nat,
            ).feasible,
    {
        let ghost tracks = tracklist@;
        let ghost limit = self.sides as nat;
        let ghost capacity = self.max_duration_per_side as nat;
        let mut used: usize = 0;
        let mut load: u64 = 0;
        let mut i: usize = 0;
        while i < tracklist.0.len()
            invariant
                i <= tracklist.0.len(),
                tracks == tracklist@,
                limit == self.sides as nat,
                capacity == self.max_duration_per_side as nat,
                allocation(tracks.take(i as int), limit, capacity).feasible,
                allocation(tracks.take(i as int), limit, capacity).sides.len() == used,
                used > 0 ==> load == side_duration(
                    allocation(tracks.take(i as int), limit, capacity).sides.last(),
                ),
                used > 0 ==> load <= self.max_duration_per_side,
            decreases tracklist.0.len() - i,
        {
            let track = &tracklist.0[i];
            let ghost before = allocation(tracks.take(i as int), limit, capacity);
            proof {
                assert(tracks.take(i + 1).drop_last() =~= tracks.take(i as int));
            }
            if track.duration > self.max_duration_per_side {
                proof {
                    lemma_infeasible_prefix_decides(tracks, limit, capacity, i + 1);
                }
                return false;
            } else if used > 0 && track.duration <= self.max_duration_per_side - load {
                proof {
                    assert(before.sides.last().push(track@).drop_last() =~= before.sides.last());
                }
                load = load + track.duration;
            } else if used < self.sides {
                proof {
                    lemma_single_track_side(track@);
                }
                used = used + 1;
                load = track.duration;
            } else {
                proof {
                    lemma_infeasible_prefix_decides(tracks, limit, capacity, i + 1);
                }
                return false;
            }
            i = i + 1;
        }
        assert(tracks.take(i as int) =~= tracks);
        true
    }
}

/// The tracks of a sequence of sides, one side after the other.
pub open spec fn joined(sides: Seq<Seq<TrackView>>) -> Seq<TrackView>
    decreases sides.len(),
{
    if sides.len() == 0 {
        Seq::empty()
    } else {
        joined(sides.drop_last()) + sides.last()
    }
}

/// Whether `packing` is a greedy packing of the first tracks of `tracks` onto
/// at most `sides` sides of `capacity` each: the sides hold those tracks in
/// their order, no side is empty or over its capacity, and every side but
/// the first starts with a track that did not fit onto the side before it.
pub open spec fn packs_greedily(
    packing: AllocationView,
    tracks: Seq<TrackView>,
    sides: nat,
    capacity: nat,
) -> bool {
    &&& joined(packing.sides).len() <= tracks.len()
    &&& joined(packing.sides) == tracks.take(joined(packing.sides).len() as int)
    &&& packing.sides.len() <= sides
    &&& forall|s: int|
        0 <= s < packing.sides.len() ==> (#[trigger] packing.sides[s]).len() > 0 && side_duration(
            packing.sides[s],
        ) <= capacity
    &&& forall|s: int|
        0 < s < packing.sides.len() ==> side_duration(packing.sides[s - 1]) + (
        #[trigger] packing.sides[s])[0].duration > capacity
}

/// Whether `track` finds no place behind `packing`: it is longer than a
/// side, or it does not fit onto the last side and no side is left.
pub open spec fn finds_no_place(
    packing: AllocationView,
    track: TrackView,
    sides: nat,
    capacity: nat,
) -> bool {
    ||| track.duration > capacity
    ||| (packing.sides.len() == sides && (sides == 0 || side_duration(packing.sides.last())
        + track.duration > capacity))
}

/// The packing of an ordering is greedy and never reorders. If the ordering
/// fits, the sides hold all its tracks; if not, they hold the tracks before
/// the first one that finds no place.
pub proof fn lemma_allocation_is_greedy(tracks: Seq<TrackView>, sides: nat, capacity: nat)
    ensures
        packs_greedily(allocation(tracks, sides, capacity), tracks, sides, capacity),
        allocation(tracks, sides, capacity).feasible ==> joined(
            allocation(tracks, sides, capacity).sides,
        ) == tracks,
        !allocation(tracks, sides, capacity).feasible ==> joined(
            allocation(tracks, sides, capacity).sides,
        ).len() < tracks.len() && finds_no_place(
            allocation(tracks, sides, capacity),
            tracks[joined(allocation(tracks, sides, capacity).sides).len() as int],
            sides,
            capacity,
        ),
    decreases tracks.len(),
{
    let packing = allocation(tracks, sides, capacity);
    if tracks.len() == 0 {
        assert(joined(packing.sides) =~= tracks.take(0));
    } else {
        let earlier = tracks.drop_last();
        let track = tracks.last();
        let before = allocation(earlier, sides, capacity);
        lemma_allocation_is_greedy(earlier, sides, capacity);
        let placed = joined(before.sides).len() as int;
        assert(earlier.take(placed) =~= tracks.take(placed));
        if before.feasible && track.duration <= capacity {
            if before.sides.len() > 0 && side_duration(before.sides.last()) + track.duration
                <= capacity {
                let side = before.sides.last().push(track);
                assert(packing.sides.drop_last() =~= before.sides.drop_last());
                assert(earlier.push(track) =~= tracks);
                assert(tracks.take(tracks.len() as int) =~= tracks);
                assert(side.drop_last() =~= before.sides.last());
            } else if before.sides.len() < sides {
                assert(packing.sides.drop_last() =~= before.sides);
                assert(joined(packing.sides) =~= joined(before.sides).push(track));
                assert(earlier.push(track) =~= tracks);
                assert(tracks.take(tracks.len() as int) =~= tracks);
                lemma_single_track_side(track);
            }
        }
    }
}

/// Packing is decided by the ordering and the medium: two packings of
/// orderings with the same titles and durations onto media with the same
/// number of sides and the same capacity have the same sides and the same
/// flag, whatever the media are called.
pub proof fn lemma_allocation_repeats(
    tracklist: Tracklist,
    medium: Medium,
    again_tracklist: Tracklist,
    again_medium: Medium,
    packing: Allocation,
    again_packing: Allocation,
)
    requires
        tracklist@ == again_tracklist@,
        medium.sides == again_medium.sides,
        medium.max_duration_per_side == again_medium.max_duration_per_side,
        packing@ == allocation(
            tracklist@,
            medium.sides as nat,
            medium.max_duration_per_side as nat,
        ),
        again_packing@ == allocation(
            again_tracklist@,
            again_medium.sides as nat,
            again_medium.max_duration_per_side as nat,
        ),
    ensures
        packing@.sides == again_packing@.sides,
        packing@.feasible == again_packing@.feasible,
{
}

} // verus!
