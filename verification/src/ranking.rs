//! Selection of the best orderings.
//!
//! Every ordering of the tracks is packed onto the medium. The orderings that
//! fit are scored, those below the threshold are dropped, and the rest are
//! ranked by score, the highest first; orderings with the same score keep the
//! order in which the enumeration found them. The first few of that ranking
//! are the proposals.

use crate::allocation::{allocate_sides, allocation, side_views};
use crate::model::{
    constraint_views, request_fault, track_views, validate_request, ConfigError, Constraint,
    ConstraintView, Medium, Track, TrackView, Tracklist,
};
use crate::permutation::{factorial, nth_ordering, TracklistPermutations};
use crate::scoring::{score, score_allocation, Score};
use crate::search::{first_where, lemma_first_where_bounds, lemma_first_where_is};
use vstd::prelude::*;

verus! {

/// One proposed ordering: its score, its tracks in order, and the sides onto
/// which the medium takes them.
#[derive(Debug)]
pub struct Proposal {
    pub score: Score,
    pub tracklist: Tracklist,
    pub sides: Vec<Vec<Track>>,
}

/// What a [`Proposal`] is to the contracts.
pub struct ProposalView {
    pub score: nat,
    pub ordering: Seq<TrackView>,
    pub sides: Seq<Seq<TrackView>>,
}

impl View for Proposal {
    type V = ProposalView;

    open spec fn view(&self) -> ProposalView {
        ProposalView {
            score: self.score as nat,
            ordering: self.tracklist@,
            sides: side_views(self.sides@),
        }
    }
}

/// The views of a sequence of proposals, position by position.
pub open spec fn proposal_views(proposals: Seq<Proposal>) -> Seq<ProposalView> {
    proposals.map_values(|p: Proposal| p@)
}

/// What a selection works on: the tracks, the constraints, the medium's
/// number of sides and their capacity, and the threshold, if there is one.
pub struct Request {
    pub tracks: Seq<TrackView>,
    pub constraints: Seq<ConstraintView>,
    pub sides: nat,
    pub capacity: nat,
    pub min_score: Option<nat>,
}

/// The number of orderings that a request has.
pub open spec fn ordering_count(request: Request) -> nat {
    factorial(request.tracks.len())
}

/// An ordering with its score and its sides on a medium with `sides` sides of
/// `capacity` each.
pub open spec fn proposal_of(
    ordering: Seq<TrackView>,
    constraints: Seq<ConstraintView>,
    sides: nat,
    capacity: nat,
) -> ProposalView {
    let packing = allocation(ordering, sides, capacity);
    ProposalView { score: score(constraints, ordering, packing), ordering, sides: packing.sides }
}

/// The ordering with number `k`, with its score and its sides.
pub open spec fn candidate(request: Request, k: nat) -> ProposalView {
    proposal_of(
        nth_ordering(request.tracks, k),
        request.constraints,
        request.sides,
        request.capacity,
    )
}

/// Whether the ordering with number `k` fits on the medium.
pub open spec fn fits(request: Request, k: nat) -> bool {
    allocation(nth_ordering(request.tracks, k), request.sides, request.capacity).feasible
}

/// Whether a score reaches the threshold of a request.
pub open spec fn reaches(request: Request, score: nat) -> bool {
    match request.min_score {
        Some(min) => score >= min,
        None => true,
    }
}

/// Whether the ordering with number `k` is kept: it fits, and its score
/// reaches the threshold.
pub open spec fn survives(request: Request, k: nat) -> bool {
    fits(request, k) && reaches(request, candidate(request, k).score)
}

/// The orderings among the first `upto` that are kept, in the order of their
/// numbers.
pub open spec fn survivors(request: Request, upto: nat) -> Seq<ProposalView>
    decreases upto,
{
    if upto == 0 {
        Seq::empty()
    } else {
        let earlier = survivors(request, (upto - 1) as nat);
        if survives(request, (upto - 1) as nat) {
            earlier.push(candidate(request, (upto - 1) as nat))
        } else {
            earlier
        }
    }
}

/// The condition that a proposal scores less than `score`.
pub open spec fn scoring_below(score: nat) -> spec_fn(ProposalView) -> bool {
    |p: ProposalView| p.score < score
}

/// Where a proposal with the score `score` enters a ranking: behind every
/// proposal that scores at least as much, before the first that scores
/// less.
pub open spec fn entry_point(ranking: Seq<ProposalView>, score: nat) -> int {
    first_where(ranking, scoring_below(score))
}

/// A ranking with one more proposal entered.
pub open spec fn enter(ranking: Seq<ProposalView>, proposal: ProposalView) -> Seq<ProposalView> {
    ranking.insert(entry_point(ranking, proposal.score), proposal)
}

/// The ranking of `found`: its proposals by falling score, those with the
/// same score in the order in which they stand in `found`.
pub open spec fn ranked(found: Seq<ProposalView>) -> Seq<ProposalView>
    decreases found.len(),
{
    if found.len() == 0 {
        Seq::empty()
    } else {
        enter(ranked(found.drop_last()), found.last())
    }
}

/// The first `count` of a sequence, or all of it if it has fewer.
pub open spec fn first<T>(s: Seq<T>, count: nat) -> Seq<T> {
    if count < s.len() {
        s.take(count as int)
    } else {
        s
    }
}

/// The best `count` orderings of a request.
pub open spec fn best(request: Request, count: nat) -> Seq<ProposalView> {
    first(ranked(survivors(request, ordering_count(request))), count)
}

/// The request that a call of [`propose`] makes.
pub open spec fn request_of(
    tracks: Seq<Track>,
    constraints: Seq<Constraint>,
    medium: Medium,
    min_score: Option<Score>,
) -> Request {
    Request {
        tracks: track_views(tracks),
        constraints: constraint_views(constraints),
        sides: medium.sides as nat,
        capacity: medium.max_duration_per_side as nat,
        min_score: match min_score {
            Some(min) => Some(min as nat),
            None => None,
        },
    }
}

/// The entry point is the one place that has only scores at least as high
/// before it and a lower score, or nothing, at it.
pub proof fn lemma_entry_point(ranking: Seq<ProposalView>, score: nat, at: int)
    requires
        0 <= at <= ranking.len(),
        forall|j: int| 0 <= j < at ==> (#[trigger] ranking[j]).score >= score,
        at < ranking.len() ==> ranking[at].score < score,
    ensures
        entry_point(ranking, score) == at,
{
    lemma_first_where_is(ranking, scoring_below(score), at);
}

/// The entry point lies within the ranking or at its end; before it stand
/// only scores at least as high, and at it a lower one, or nothing.
pub proof fn lemma_entry_point_bounds(ranking: Seq<ProposalView>, score: nat)
    ensures
        0 <= entry_point(ranking, score) <= ranking.len(),
        forall|j: int|
            0 <= j < entry_point(ranking, score) ==> (#[trigger] ranking[j]).score >= score,
        entry_point(ranking, score) < ranking.len() ==> ranking[entry_point(
            ranking,
            score,
        )].score < score,
{
    lemma_first_where_bounds(ranking, scoring_below(score));
}

/// Entering a proposal and keeping the first `count` gives the same whether
/// or not the ranking was cut to its first `count` before.
pub proof fn lemma_enter_first(ranking: Seq<ProposalView>, proposal: ProposalView, count: nat)
    ensures
        first(enter(ranking, proposal), count) == first(
            enter(first(ranking, count), proposal),
            count,
        ),
{
    let cut = first(ranking, count);
    if count < ranking.len() {
        let at = entry_point(ranking, proposal.score);
        lemma_entry_point_bounds(ranking, proposal.score);
        if at < count {
            lemma_entry_point(cut, proposal.score, at);
        } else {
            lemma_entry_point(cut, proposal.score, count as int);
        }
    }
}

/// Finds the entry point for `score` in `ranking`.
fn find_entry_point(ranking: &Vec<Proposal>, score: Score) -> (at: usize)
    ensures
        at == entry_point(proposal_views(ranking@), score as nat),
        at <= ranking@.len(),
{
    let ghost views = proposal_views(ranking@);
    let mut at: usize = 0;
    while at < ranking.len() && ranking[at].score >= score
        invariant
            at <= ranking.len(),
            views == proposal_views(ranking@),
            forall|j: int| 0 <= j < at ==> (#[trigger] views[j]).score >= score,
        decreases ranking.len() - at,
    {
        at = at + 1;
    }
    proof {
        lemma_entry_point(views, score as nat, at as int);
    }
    at
}

/// Packs and scores one ordering. The result is the ordering with its score
/// and its sides, or `None` if and only if the ordering does not fit on the
/// medium.
pub fn evaluate(tracklist: Tracklist, constraints: &Vec<Constraint>, medium: &Medium) -> (r:
    Option<Proposal>)
    ensures
        r is Some <==> allocation(
            tracklist@,
            medium.sides as nat,
            medium.max_duration_per_side as nat,
        ).feasible,
        r matches Some(proposal) ==> proposal@ == proposal_of(
            tracklist@,
            constraint_views(constraints@),
            medium.sides as nat,
            medium.max_duration_per_side as nat,
        ),
{
    let packing = allocate_sides(&tracklist, medium);
    if packing.feasible {
        let total = score_allocation(&tracklist, &packing, constraints);
        Some(Proposal { score: total, tracklist, sides: packing.sides })
    } else {
        None
    }
}

/// Enters `proposal` into the ranking `chosen` and keeps the first `count`:
/// the proposal goes behind every proposal that scores at least as much, and
/// what then stands beyond the first `count` is dropped.
pub fn enter_proposal(chosen: &mut Vec<Proposal>, proposal: Proposal, count: usize)
    ensures
        proposal_views(final(chosen)@) == first(
            enter(proposal_views(old(chosen)@), proposal@),
            count as nat,
        ),
        final(chosen)@.len() <= count,
{
    let at = find_entry_point(chosen, proposal.score);
    if at < count {
        chosen.insert(at, proposal);
        if chosen.len() > count {
            chosen.truncate(count);
        }
    } else {
        chosen.truncate(count);
    }
}

/// Proposes the best orderings of `tracks` on `medium`: of the orderings that
/// fit and whose score is at least `min_score`, where one is given, the
/// `count` with the highest scores, the highest first, orderings with equal
/// scores in the order of enumeration. Fewer are returned if fewer are left,
/// and none if `count` is zero.
pub fn propose(
    tracks: &Vec<Track>,
    constraints: &Vec<Constraint>,
    medium: &Medium,
    count: usize,
    min_score: Option<Score>,
) -> (r: Vec<Proposal>)
    ensures
        proposal_views(r@) == best(
            request_of(tracks@, constraints@, *medium, min_score),
            count as nat,
        ),
        r@.len() == best(request_of(tracks@, constraints@, *medium, min_score), count as nat).len(),
        r@.len() <= count,
{
    let ghost request = request_of(tracks@, constraints@, *medium, min_score);
    let mut chosen: Vec<Proposal> = Vec::new();
    if count == 0 {
        return chosen;
    }
    let mut orderings = TracklistPermutations::new(tracks);
    loop
        invariant
            orderings.wf(),
            orderings.source() == request.tracks,
            request == request_of(tracks@, constraints@, *medium, min_score),
            chosen.len() <= count,
            proposal_views(chosen@) == first(
                ranked(survivors(request, orderings.position())),
                count as nat,
            ),
        ensures
            orderings.position() == ordering_count(request),
        decreases ordering_count(request) - orderings.position(),
    {
        let ghost k = orderings.position();
        let ghost found = survivors(request, k);
        let tracklist = match orderings.next_tracklist() {
            Some(tracklist) => tracklist,
            None => {
                break ;
            },
        };
        if let Some(proposal) = evaluate(tracklist, constraints, medium) {
            let reached = match min_score {
                Some(min) => proposal.score >= min,
                None => true,
            };
            if reached {
                proof {
                    assert(found.push(proposal@).drop_last() =~= found);
                    lemma_enter_first(ranked(found), proposal@, count as nat);
                }
                enter_proposal(&mut chosen, proposal, count);
            }
        }
    }
    chosen
}

/// Proposes the best orderings as [`propose`] does, after a look at the
/// request: a medium without sides or without capacity, or a track without
/// a duration, is reported before any ordering is enumerated.
pub fn try_propose(
    tracks: &Vec<Track>,
    constraints: &Vec<Constraint>,
    medium: &Medium,
    count: usize,
    min_score: Option<Score>,
) -> (r: Result<Vec<Proposal>, ConfigError>)
    ensures
        match r {
            Ok(proposals) => {
                &&& request_fault(
                    track_views(tracks@),
                    medium.sides as nat,
                    medium.max_duration_per_side as nat,
                ) is None
                &&& proposal_views(proposals@) == best(
                    request_of(tracks@, constraints@, *medium, min_score),
                    count as nat,
                )
            },
            Err(e) => request_fault(
                track_views(tracks@),
                medium.sides as nat,
                medium.max_duration_per_side as nat,
            ) == Some(e),
        },
{
    match validate_request(tracks, medium) {
        Ok(_) => Ok(propose(tracks, constraints, medium, count, min_score)),
        Err(e) => Err(e),
    }
}

/// Whether the scores of a ranking never rise from one place to the next.
pub open spec fn falling(ranking: Seq<ProposalView>) -> bool {
    forall|i: int, j: int|
        0 <= i <= j < ranking.len() ==> (#[trigger] ranking[i]).score >= (
        #[trigger] ranking[j]).score
}

/// A ranking holds what was found, each proposal as often as it was found.
pub proof fn lemma_ranked_same_proposals(found: Seq<ProposalView>)
    ensures
        ranked(found).len() == found.len(),
        ranked(found).to_multiset() == found.to_multiset(),
    decreases found.len(),
{
    if found.len() > 0 {
        let earlier = found.drop_last();
        let ranking = ranked(earlier);
        lemma_ranked_same_proposals(earlier);
        lemma_entry_point_bounds(ranking, found.last().score);
        vstd::seq_lib::to_multiset_insert(
            ranking,
            entry_point(ranking, found.last().score),
            found.last(),
        );
        vstd::seq_lib::to_multiset_build(earlier, found.last());
        assert(earlier.push(found.last()) =~= found);
    } else {
        assert(ranked(found) =~= found);
    }
}

/// The scores of a ranking never rise.
pub proof fn lemma_ranked_falling(found: Seq<ProposalView>)
    ensures
        falling(ranked(found)),
    decreases found.len(),
{
    if found.len() > 0 {
        let ranking = ranked(found.drop_last());
        let proposal = found.last();
        let at = entry_point(ranking, proposal.score);
        lemma_ranked_falling(found.drop_last());
        lemma_entry_point_bounds(ranking, proposal.score);
        assert(ranked(found) == ranking.insert(at, proposal));
    }
}

/// The condition that a proposal scores exactly `score`.
pub open spec fn scoring(score: nat) -> spec_fn(ProposalView) -> bool {
    |p: ProposalView| p.score == score
}

/// Nothing is left of proposals that all fail a condition.
proof fn lemma_filter_none(found: Seq<ProposalView>, wanted: spec_fn(ProposalView) -> bool)
    requires
        forall|i: int| 0 <= i < found.len() ==> !wanted(#[trigger] found[i]),
    ensures
        found.filter(wanted) == Seq::<ProposalView>::empty(),
    decreases found.len(),
{
    if found.len() > 0 {
        let earlier = found.drop_last();
        lemma_filter_none(earlier, wanted);
        earlier.lemma_filter_push(found.last(), wanted);
        assert(earlier.push(found.last()) =~= found);
    }
}

/// A ranking keeps proposals with the same score in the order in which they
/// were found: the proposals with any one score stand in the ranking as they
/// stand in what was found.
pub proof fn lemma_ranked_stable(found: Seq<ProposalView>, score: nat)
    ensures
        ranked(found).filter(scoring(score)) == found.filter(scoring(score)),
    decreases found.len(),
{
    let wanted = scoring(score);
    if found.len() > 0 {
        let earlier = found.drop_last();
        let proposal = found.last();
        let ranking = ranked(earlier);
        let at = entry_point(ranking, proposal.score);
        lemma_ranked_stable(earlier, score);
        lemma_ranked_falling(earlier);
        lemma_entry_point_bounds(ranking, proposal.score);
        let head = ranking.take(at);
        let tail = ranking.skip(at);
        assert(ranking =~= head + tail);
        head.lemma_filter_push(proposal, wanted);
        earlier.lemma_filter_push(proposal, wanted);
        assert(earlier.push(proposal) =~= found);
        if wanted(proposal) {
            lemma_filter_none(tail, wanted);
        }
    }
}

/// Every proposal among the survivors is an ordering that is kept. The proof
/// returns the number of such an ordering.
pub proof fn lemma_survivor_number(request: Request, upto: nat, i: int) -> (k: nat)
    requires
        0 <= i < survivors(request, upto).len(),
    ensures
        k < upto,
        survives(request, k),
        survivors(request, upto)[i] == candidate(request, k),
    decreases upto,
{
    let earlier = survivors(request, (upto - 1) as nat);
    if i < earlier.len() {
        lemma_survivor_number(request, (upto - 1) as nat, i)
    } else {
        (upto - 1) as nat
    }
}

/// Every ordering that is kept stands among the survivors.
pub proof fn lemma_kept_is_survivor(request: Request, upto: nat, k: nat)
    requires
        k < upto,
        survives(request, k),
    ensures
        survivors(request, upto).contains(candidate(request, k)),
    decreases upto,
{
    let earlier = survivors(request, (upto - 1) as nat);
    let all = survivors(request, upto);
    if k + 1 == upto {
        assert(all[all.len() - 1] == candidate(request, k));
    } else {
        lemma_kept_is_survivor(request, (upto - 1) as nat, k);
        let i = choose|i: int| 0 <= i < earlier.len() && earlier[i] == candidate(request, k);
        assert(all[i] == candidate(request, k));
    }
}

/// Every proposal is an ordering of the tracks that fits on the medium and
/// reaches the threshold, with its own score and sides. The proof returns
/// the number of such an ordering.
pub proof fn lemma_best_is_kept(request: Request, count: nat, i: int) -> (k: nat)
    requires
        0 <= i < best(request, count).len(),
    ensures
        k < ordering_count(request),
        survives(request, k),
        best(request, count)[i] == candidate(request, k),
{
    let found = survivors(request, ordering_count(request));
    let ranking = ranked(found);
    let proposal = ranking[i];
    lemma_ranked_same_proposals(found);
    vstd::seq_lib::to_multiset_contains(ranking, proposal);
    vstd::seq_lib::to_multiset_contains(found, proposal);
    let j = choose|j: int| 0 <= j < found.len() && found[j] == proposal;
    lemma_survivor_number(request, ordering_count(request), j)
}

/// No proposal scores less than the threshold.
pub proof fn lemma_best_reaches_threshold(request: Request, count: nat, i: int)
    requires
        0 <= i < best(request, count).len(),
    ensures
        request.min_score matches Some(min) ==> best(request, count)[i].score >= min,
{
    lemma_best_is_kept(request, count, i);
}

/// The proposals come by falling score.
pub proof fn lemma_best_falling(request: Request, count: nat)
    ensures
        falling(best(request, count)),
{
    lemma_ranked_falling(survivors(request, ordering_count(request)));
}

/// There are `count` proposals, or as many as there are orderings that are
/// kept, if those are fewer.
pub proof fn lemma_best_len(request: Request, count: nat)
    ensures
        best(request, count).len() == if count < survivors(
            request,
            ordering_count(request),
        ).len() {
            count
        } else {
            survivors(request, ordering_count(request)).len()
        },
{
    lemma_ranked_same_proposals(survivors(request, ordering_count(request)));
}

/// No ordering that is kept is passed over for a worse one: it stands among
/// the proposals, or the proposals are `count` and each of them scores at
/// least as much.
pub proof fn lemma_best_leaves_nothing_better(request: Request, count: nat, k: nat)
    requires
        k < ordering_count(request),
        survives(request, k),
    ensures
        best(request, count).contains(candidate(request, k)) || (best(request, count).len()
            == count && forall|i: int|
            0 <= i < count ==> (#[trigger] best(request, count)[i]).score >= candidate(
                request,
                k,
            ).score),
{
    let found = survivors(request, ordering_count(request));
    let ranking = ranked(found);
    let proposal = candidate(request, k);
    lemma_kept_is_survivor(request, ordering_count(request), k);
    lemma_ranked_same_proposals(found);
    lemma_ranked_falling(found);
    vstd::seq_lib::to_multiset_contains(ranking, proposal);
    vstd::seq_lib::to_multiset_contains(found, proposal);
    let j = choose|j: int| 0 <= j < ranking.len() && ranking[j] == proposal;
    let chosen = best(request, count);
    if j < chosen.len() {
        assert(chosen[j] == proposal);
    }
}

/// A selection is decided by what its inputs are to the contracts: two
/// selections from tracks, constraints and media with the same titles,
/// durations, weights, sides and capacity, with the same threshold and the
/// same count, give the same proposals in the same order.
pub proof fn lemma_selection_repeats(
    tracks: Seq<Track>,
    constraints: Seq<Constraint>,
    medium: Medium,
    again_tracks: Seq<Track>,
    again_constraints: Seq<Constraint>,
    again_medium: Medium,
    min_score: Option<Score>,
    count: nat,
)
    requires
        track_views(tracks) == track_views(again_tracks),
        constraint_views(constraints) == constraint_views(again_constraints),
        medium.sides == again_medium.sides,
        medium.max_duration_per_side == again_medium.max_duration_per_side,
    ensures
        best(request_of(tracks, constraints, medium, min_score), count) == best(
            request_of(again_tracks, again_constraints, again_medium, min_score),
            count,
        ),
{
}

/// Asking for no proposal gives none.
pub proof fn lemma_none_requested(request: Request)
    ensures
        best(request, 0) == Seq::<ProposalView>::empty(),
{
}

/// With no tracks there is one ordering, the empty one. It fits, it scores
/// nothing, and it has no sides; it is the one proposal wherever one is
/// asked for and the threshold, if any, is zero.
pub proof fn lemma_no_tracks(request: Request, count: nat)
    requires
        request.tracks.len() == 0,
    ensures
        ordering_count(request) == 1,
        candidate(request, 0) == (ProposalView {
            score: 0,
            ordering: Seq::empty(),
            sides: Seq::empty(),
        }),
        count > 0 && reaches(request, 0) ==> best(request, count) == seq![candidate(request, 0)],
        count == 0 || !reaches(request, 0) ==> best(request, count)
            == Seq::<ProposalView>::empty(),
{
    reveal_with_fuel(survivors, 2);
    reveal_with_fuel(ranked, 2);
    let ordering = nth_ordering(request.tracks, 0);
    assert(ordering =~= Seq::<TrackView>::empty());
    let packing = allocation(ordering, request.sides, request.capacity);
    crate::scoring::lemma_no_tracks_no_score(request.constraints, packing);
}

} // verus!
