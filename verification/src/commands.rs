//! The commands that work on a stored context.
//!
//! Each command takes the context and plain values, changes the context or
//! computes from it, and says in its result what happened, so that a caller
//! can report it.

use crate::context::{
    medium_named, of_kind, outcome, stored_at, tracklist_named, ContextView, NamedSerTracklist,
    NamedTracklistView, ProgramContext, SerConstraint, SerMedium, Stored,
};
use crate::model::{
    Constraint, ConstraintKind, ConstraintKindView, ConstraintView, Duration, MediumView,
    Track, Tracklist, track_views,
};
use crate::ranking::{best, propose, proposal_views, Proposal, Request};
use crate::scoring::Score;
use crate::search::first_where;
use crate::text::{lowercase_of, parse_usize, parsed_unsigned, same_text, to_lowercase};
use vstd::prelude::*;

verus! {

/// Why the kind of a constraint could not be read.
#[derive(Debug, Clone, Copy, PartialEq, Eq, Structural)]
pub enum KindError {
    /// The position of an `atpos` constraint is not a number.
    InvalidPosition,
    /// An `atpos` constraint was not given a title and a position.
    AtPositionArguments,
    /// An `adjacent` constraint was not given two titles.
    AdjacentArguments,
    /// An `onsameside` constraint was not given two titles.
    OnSameSideArguments,
    /// The kind is none of `atpos`, `adjacent` and `onsameside`.
    UnknownKind,
}

/// The texts of a sequence of arguments.
pub open spec fn texts(args: Seq<String>) -> Seq<Seq<char>> {
    args.map_values(|a: String| a@)
}

/// The kind of constraint that a kind word in lower case and its arguments
/// give.
pub open spec fn kind_for(lowered: Seq<char>, args: Seq<Seq<char>>) -> Result<
    ConstraintKindView,
    KindError,
> {
    if lowered == "atpos"@ {
        if args.len() == 2 {
            match parsed_unsigned(args[1], usize::MAX as nat) {
                Some(position) => Ok(ConstraintKindView::AtPosition(args[0], position)),
                None => Err(KindError::InvalidPosition),
            }
        } else {
            Err(KindError::AtPositionArguments)
        }
    } else if lowered == "adjacent"@ {
        if args.len() == 2 {
            Ok(ConstraintKindView::Adjacent(args[0], args[1]))
        } else {
            Err(KindError::AdjacentArguments)
        }
    } else if lowered == "onsameside"@ {
        if args.len() == 2 {
            Ok(ConstraintKindView::OnSameSide(args[0], args[1]))
        } else {
            Err(KindError::OnSameSideArguments)
        }
    } else {
        Err(KindError::UnknownKind)
    }
}

/// Whether a result holds the kind, or the error, that `expected` holds.
pub open spec fn kind_is(
    r: Result<ConstraintKind, KindError>,
    expected: Result<ConstraintKindView, KindError>,
) -> bool {
    match r {
        Ok(kind) => expected == Ok::<ConstraintKindView, KindError>(kind@),
        Err(e) => expected == Err::<ConstraintKindView, KindError>(e),
    }
}

/// Reads the kind of a constraint from a kind word that is already in lower
/// case and from the arguments.
pub fn constraint_kind_for(lowered: &str, args: &[String]) -> (r: Result<
    ConstraintKind,
    KindError,
>)
    ensures
        kind_is(r, kind_for(lowered@, texts(args@))),
{
    if same_text(lowered, "atpos") {
        if args.len() == 2 {
            match parse_usize(args[1].as_str()) {
                Some(position) => Ok(ConstraintKind::AtPosition(args[0].clone(), position)),
                None => Err(KindError::InvalidPosition),
            }
        } else {
            Err(KindError::AtPositionArguments)
        }
    } else if same_text(lowered, "adjacent") {
        if args.len() == 2 {
            Ok(ConstraintKind::Adjacent(args[0].clone(), args[1].clone()))
        } else {
            Err(KindError::AdjacentArguments)
        }
    } else if same_text(lowered, "onsameside") {
        if args.len() == 2 {
            Ok(ConstraintKind::OnSameSide(args[0].clone(), args[1].clone()))
        } else {
            Err(KindError::OnSameSideArguments)
        }
    } else {
        Err(KindError::UnknownKind)
    }
}

/// Reads the kind of a constraint from a kind word, in any case, and from
/// the arguments.
pub fn parse_constraint_kind(kind: &str, args: &[String]) -> (r: Result<ConstraintKind, KindError>)
    ensures
        kind_is(r, kind_for(lowercase_of(kind@), texts(args@))),
{
    let lowered = to_lowercase(kind);
    constraint_kind_for(lowered.as_str(), args)
}

/// Stores `tracks` under `name` in the context.
pub fn handle_add_tracklist(ctx: &mut ProgramContext, name: &String, tracks: Vec<Track>) -> (r:
    Stored)
    ensures
        final(ctx)@.tracklists == stored_at(
            old(ctx)@.tracklists,
            first_where(old(ctx)@.tracklists, tracklist_named(name@)),
            NamedTracklistView { name: name@, tracks: track_views(tracks@) },
        ),
        final(ctx)@.mediums == old(ctx)@.mediums,
        final(ctx)@.constraints == old(ctx)@.constraints,
        r == outcome(
            first_where(old(ctx)@.tracklists, tracklist_named(name@)),
            old(ctx)@.tracklists.len(),
        ),
{
    ctx.add_or_replace_tracklist(name.clone(), tracks)
}

/// Stores a medium under `name` in the context.
pub fn handle_add_medium(
    ctx: &mut ProgramContext,
    name: &String,
    sides: usize,
    max_duration: Duration,
) -> (r: Stored)
    ensures
        final(ctx)@.mediums == stored_at(
            old(ctx)@.mediums,
            first_where(old(ctx)@.mediums, medium_named(name@)),
            MediumView {
                sides: sides as nat,
                max_duration_per_side: max_duration as nat,
                name: name@,
            },
        ),
        final(ctx)@.tracklists == old(ctx)@.tracklists,
        final(ctx)@.constraints == old(ctx)@.constraints,
        r == outcome(
            first_where(old(ctx)@.mediums, medium_named(name@)),
            old(ctx)@.mediums.len(),
        ),
{
    ctx.add_or_replace_medium(name.clone(), sides, max_duration)
}

/// Stores in the context the constraint that a kind, as it was read, and a
/// weight give. Where the kind could not be read the context stays as it is
/// and the error is handed on.
pub fn store_constraint(
    ctx: &mut ProgramContext,
    kind: Result<ConstraintKind, KindError>,
    weight: usize,
) -> (r: Result<Stored, KindError>)
    ensures
        final(ctx)@.tracklists == old(ctx)@.tracklists,
        final(ctx)@.mediums == old(ctx)@.mediums,
        match kind {
            Ok(read) => {
                &&& final(ctx)@.constraints == stored_at(
                    old(ctx)@.constraints,
                    first_where(old(ctx)@.constraints, of_kind(read@)),
                    ConstraintView { kind: read@, weight: weight as nat },
                )
                &&& r == Ok::<Stored, KindError>(
                    outcome(
                        first_where(old(ctx)@.constraints, of_kind(read@)),
                        old(ctx)@.constraints.len(),
                    ),
                )
            },
            Err(e) => {
                &&& final(ctx)@.constraints == old(ctx)@.constraints
                &&& r == Err::<Stored, KindError>(e)
            },
        },
{
    match kind {
        Ok(read) => Ok(ctx.add_or_replace_constraint(Constraint { kind: read, weight })),
        Err(e) => Err(e),
    }
}

/// Reads a constraint from a kind word and arguments and stores it in the
/// context with the given weight.
pub fn handle_add_constraint(
    ctx: &mut ProgramContext,
    kind: &String,
    args: &Vec<String>,
    weight: usize,
) -> (r: Result<Stored, KindError>)
    ensures
        final(ctx)@.tracklists == old(ctx)@.tracklists,
        final(ctx)@.mediums == old(ctx)@.mediums,
        match kind_for(lowercase_of(kind@), texts(args@)) {
            Ok(read) => {
                &&& final(ctx)@.constraints == stored_at(
                    old(ctx)@.constraints,
                    first_where(old(ctx)@.constraints, of_kind(read)),
                    ConstraintView { kind: read, weight: weight as nat },
                )
                &&& r == Ok::<Stored, KindError>(
                    outcome(
                        first_where(old(ctx)@.constraints, of_kind(read)),
                        old(ctx)@.constraints.len(),
                    ),
                )
            },
            Err(e) => {
                &&& final(ctx)@.constraints == old(ctx)@.constraints
                &&& r == Err::<Stored, KindError>(e)
            },
        },
{
    let read = parse_constraint_kind(kind.as_str(), args.as_slice());
    store_constraint(ctx, read, weight)
}

/// Takes the constraint at `index` out of the context and hands it back, or
/// `None` if there is no constraint at `index`.
pub fn handle_remove_constraint(ctx: &mut ProgramContext, index: &usize) -> (r: Option<
    SerConstraint,
>)
    ensures
        final(ctx)@.tracklists == old(ctx)@.tracklists,
        final(ctx)@.mediums == old(ctx)@.mediums,
        match r {
            Some(removed) => {
                &&& *index < old(ctx)@.constraints.len()
                &&& removed@ == old(ctx)@.constraints[*index as int]
                &&& final(ctx)@.constraints == old(ctx)@.constraints.remove(*index as int)
            },
            None => {
                &&& *index >= old(ctx)@.constraints.len()
                &&& final(ctx)@.constraints == old(ctx)@.constraints
            },
        },
{
    ctx.remove_constraint(*index)
}

/// The parts of a context that are to be shown.
#[derive(Debug, Clone, Copy, PartialEq, Eq, Structural)]
pub struct Sections {
    pub tracklists: bool,
    pub media: bool,
    pub constraints: bool,
}

/// The parts that a filter word in lower case selects: `all` selects every
/// part, the name of a part selects that part, and any other word nothing.
pub open spec fn sections_for(lowered: Seq<char>) -> Sections {
    Sections {
        tracklists: lowered == "all"@ || lowered == "tracklists"@,
        media: lowered == "all"@ || lowered == "media"@,
        constraints: lowered == "all"@ || lowered == "constraints"@,
    }
}

/// The word that a filter stands for: the filter itself, or `all` where none
/// is given.
pub open spec fn filter_word(filter: Option<String>) -> Seq<char> {
    match filter {
        Some(word) => word@,
        None => "all"@,
    }
}

/// The parts that a filter word that is already in lower case selects.
pub fn select_sections(lowered: &str) -> (r: Sections)
    ensures
        r == sections_for(lowered@),
{
    let all = same_text(lowered, "all");
    Sections {
        tracklists: all || same_text(lowered, "tracklists"),
        media: all || same_text(lowered, "media"),
        constraints: all || same_text(lowered, "constraints"),
    }
}

/// The parts of the context that a filter, in any case, asks to be shown.
pub fn shown_sections(filter: &Option<String>) -> (r: Sections)
    ensures
        r == sections_for(lowercase_of(filter_word(*filter))),
{
    let lowered = match filter {
        Some(word) => to_lowercase(word.as_str()),
        None => to_lowercase("all"),
    };
    select_sections(lowered.as_str())
}

/// The parts of a context that were asked to be shown, each with a copy of
/// what the context holds there.
#[derive(Debug)]
pub struct Shown {
    pub tracklists: Option<Vec<NamedSerTracklist>>,
    pub mediums: Option<Vec<SerMedium>>,
    pub constraints: Option<Vec<SerConstraint>>,
}

/// What a [`Shown`] is to the contracts.
pub struct ShownView {
    pub tracklists: Option<Seq<NamedTracklistView>>,
    pub mediums: Option<Seq<MediumView>>,
    pub constraints: Option<Seq<ConstraintView>>,
}

impl View for Shown {
    type V = ShownView;

    open spec fn view(&self) -> ShownView {
        ShownView {
            tracklists: match self.tracklists {
                Some(entries) => Some(entries@.map_values(|t: NamedSerTracklist| t@)),
                None => None,
            },
            mediums: match self.mediums {
                Some(entries) => Some(entries@.map_values(|m: SerMedium| m@)),
                None => None,
            },
            constraints: match self.constraints {
                Some(entries) => Some(entries@.map_values(|c: SerConstraint| c@)),
                None => None,
            },
        }
    }
}

/// The parts of a context that `sections` selects.
pub open spec fn shown_of(ctx: ContextView, sections: Sections) -> ShownView {
    ShownView {
        tracklists: if sections.tracklists {
            Some(ctx.tracklists)
        } else {
            None
        },
        mediums: if sections.media {
            Some(ctx.mediums)
        } else {
            None
        },
        constraints: if sections.constraints {
            Some(ctx.constraints)
        } else {
            None
        },
    }
}

/// Copies of the parts of the context that `sections` selects.
pub fn show_sections(ctx: &ProgramContext, sections: Sections) -> (r: Shown)
    ensures
        r@ == shown_of(ctx@, sections),
{
    let tracklists = if sections.tracklists {
        let mut out: Vec<NamedSerTracklist> = Vec::new();
        let mut i: usize = 0;
        while i < ctx.tracklists.len()
            invariant
                i <= ctx.tracklists.len(),
                out@.len() == i,
                forall|j: int| 0 <= j < i ==> (#[trigger] out@[j])@ == ctx.tracklists@[j]@,
            decreases ctx.tracklists.len() - i,
        {
            out.push(ctx.tracklists[i].clone());
            i = i + 1;
        }
        assert(out@.map_values(|t: NamedSerTracklist| t@) =~= ctx@.tracklists);
        Some(out)
    } else {
        None
    };
    let mediums = if sections.media {
        let mut out: Vec<SerMedium> = Vec::new();
        let mut i: usize = 0;
        while i < ctx.mediums.len()
            invariant
                i <= ctx.mediums.len(),
                out@.len() == i,
                forall|j: int| 0 <= j < i ==> (#[trigger] out@[j])@ == ctx.mediums@[j]@,
            decreases ctx.mediums.len() - i,
        {
            out.push(ctx.mediums[i].clone());
            i = i + 1;
        }
        assert(out@.map_values(|m: SerMedium| m@) =~= ctx@.mediums);
        Some(out)
    } else {
        None
    };
    let constraints = if sections.constraints {
        let mut out: Vec<SerConstraint> = Vec::new();
        let mut i: usize = 0;
        while i < ctx.constraints.len()
            invariant
                i <= ctx.constraints.len(),
                out@.len() == i,
                forall|j: int| 0 <= j < i ==> (#[trigger] out@[j])@ == ctx.constraints@[j]@,
            decreases ctx.constraints.len() - i,
        {
            out.push(ctx.constraints[i].clone());
            i = i + 1;
        }
        assert(out@.map_values(|c: SerConstraint| c@) =~= ctx@.constraints);
        Some(out)
    } else {
        None
    };
    Shown { tracklists, mediums, constraints }
}

/// The parts of the context that a filter, in any case, asks to be shown,
/// each with a copy of what the context holds there.
pub fn handle_show(ctx: &ProgramContext, filter: &Option<String>) -> (r: Shown)
    ensures
        r@ == shown_of(ctx@, sections_for(lowercase_of(filter_word(*filter)))),
{
    show_sections(ctx, shown_sections(filter))
}

/// Why no proposal could be made.
#[derive(Debug, Clone, Copy, PartialEq, Eq, Structural)]
pub enum ProposeError {
    /// No tracklist is stored under the name.
    TracklistNotFound,
    /// No medium is stored under the name.
    MediumNotFound,
}

/// The threshold that a command gives, as a score.
pub open spec fn threshold(min_score: Option<usize>) -> Option<nat> {
    match min_score {
        Some(min) => Some(min as nat),
        None => None,
    }
}

/// Proposes the best orderings of the tracklist stored under
/// `tracklist_name` on the medium stored under `medium_name`, against the
/// constraints of the context. The tracklist is looked up first, then the
/// medium.
pub fn handle_propose(
    ctx: &ProgramContext,
    tracklist_name: &str,
    medium_name: &str,
    count: &usize,
    min_score: &Option<usize>,
) -> (r: Result<Vec<Proposal>, ProposeError>)
    ensures
        ({
            let at = first_where(ctx@.tracklists, tracklist_named(tracklist_name@));
            let on = first_where(ctx@.mediums, medium_named(medium_name@));
            if at >= ctx@.tracklists.len() {
                r == Err::<Vec<Proposal>, ProposeError>(ProposeError::TracklistNotFound)
            } else if on >= ctx@.mediums.len() {
                r == Err::<Vec<Proposal>, ProposeError>(ProposeError::MediumNotFound)
            } else {
                r matches Ok(proposals) && proposal_views(proposals@) == best(
                    Request {
                        tracks: ctx@.tracklists[at].tracks,
                        constraints: ctx@.constraints,
                        sides: ctx@.mediums[on].sides,
                        capacity: ctx@.mediums[on].max_duration_per_side,
                        min_score: threshold(*min_score),
                    },
                    *count as nat,
                )
            }
        }),
{
    let at = match ctx.find_tracklist(tracklist_name) {
        Some(at) => at,
        None => {
            return Err(ProposeError::TracklistNotFound);
        },
    };
    let on = match ctx.find_medium(medium_name) {
        Some(on) => on,
        None => {
            return Err(ProposeError::MediumNotFound);
        },
    };
    let tracklist = Tracklist::from(&ctx.tracklists[at].tracks);
    let medium = ctx.mediums[on].to_album_medium();
    let constraints = ctx.album_constraints();
    let min: Option<Score> = match min_score {
        Some(min) => Some(*min as u128),
        None => None,
    };
    Ok(propose(&tracklist.0, &constraints, &medium, *count, min))
}

} // verus!
