//! The entities of the sequencing engine and their mathematical views.

use vstd::prelude::*;

verus! {

/// A length of time in whole milliseconds.
pub type Duration = u64;

/// One audio track: a title and a playing time.
#[derive(Debug)]
pub struct Track {
    pub title: String,
    pub duration: Duration,
}

/// What a [`Track`] is to the contracts: its title as a sequence of
/// characters and its duration as a natural number of milliseconds.
pub struct TrackView {
    pub title: Seq<char>,
    pub duration: nat,
}

impl View for Track {
    type V = TrackView;

    open spec fn view(&self) -> TrackView {
        TrackView { title: self.title@, duration: self.duration as nat }
    }
}

impl Clone for Track {
    fn clone(&self) -> (r: Self)
        ensures
            r == *self,
    {
        Track { title: self.title.clone(), duration: self.duration }
    }
}

/// The views of a sequence of tracks, position by position.
pub open spec fn track_views(tracks: Seq<Track>) -> Seq<TrackView> {
    tracks.map_values(|t: Track| t@)
}

/// An ordering of tracks.
#[derive(Debug)]
pub struct Tracklist(pub Vec<Track>);

impl View for Tracklist {
    type V = Seq<TrackView>;

    open spec fn view(&self) -> Seq<TrackView> {
        track_views(self.0@)
    }
}

/// Copies a vector of tracks.
pub fn clone_tracks(tracks: &Vec<Track>) -> (r: Vec<Track>)
    ensures
        r@ == tracks@,
{
    let mut out: Vec<Track> = Vec::new();
    let mut i: usize = 0;
    while i < tracks.len()
        invariant
            i <= tracks.len(),
            out@ == tracks@.take(i as int),
        decreases tracks.len() - i,
    {
        out.push(tracks[i].clone());
        i = i + 1;
    }
    out
}

impl Clone for Tracklist {
    fn clone(&self) -> (r: Self)
        ensures
            r@ == self@,
            r.0@ == self.0@,
    {
        Tracklist(clone_tracks(&self.0))
    }
}

/// A storage medium split into sides of equal capacity.
#[derive(Debug)]
pub struct Medium {
    pub sides: usize,
    pub max_duration_per_side: Duration,
    pub name: String,
}

/// What a [`Medium`] is to the contracts. The name is carried for the
/// caller's bookkeeping; no rule of the engine reads it.
pub struct MediumView {
    pub sides: nat,
    pub max_duration_per_side: nat,
    pub name: Seq<char>,
}

impl View for Medium {
    type V = MediumView;

    open spec fn view(&self) -> MediumView {
        MediumView {
            sides: self.sides as nat,
            max_duration_per_side: self.max_duration_per_side as nat,
            name: self.name@,
        }
    }
}

impl Clone for Medium {
    fn clone(&self) -> (r: Self)
        ensures
            r == *self,
    {
        Medium {
            sides: self.sides,
            max_duration_per_side: self.max_duration_per_side,
            name: self.name.clone(),
        }
    }
}

/// A placement preference. Titles name tracks; they are compared character
/// by character, and a title names every track that bears it.
#[derive(Debug)]
pub enum ConstraintKind {
    /// The named track stands at the given zero-based position.
    AtPosition(String, usize),
    /// The two named tracks stand next to each other, in either order.
    Adjacent(String, String),
    /// The two named tracks lie on the same side of the medium.
    OnSameSide(String, String),
}

/// What a [`ConstraintKind`] is to the contracts.
pub enum ConstraintKindView {
    AtPosition(Seq<char>, nat),
    Adjacent(Seq<char>, Seq<char>),
    OnSameSide(Seq<char>, Seq<char>),
}

impl View for ConstraintKind {
    type V = ConstraintKindView;

    open spec fn view(&self) -> ConstraintKindView {
        match self {
            ConstraintKind::AtPosition(title, position) => ConstraintKindView::AtPosition(
                title@,
                *position as nat,
            ),
            ConstraintKind::Adjacent(first, second) => ConstraintKindView::Adjacent(
                first@,
                second@,
            ),
            ConstraintKind::OnSameSide(first, second) => ConstraintKindView::OnSameSide(
                first@,
                second@,
            ),
        }
    }
}

impl Clone for ConstraintKind {
    fn clone(&self) -> (r: Self)
        ensures
            r == *self,
    {
        match self {
            ConstraintKind::AtPosition(title, position) => ConstraintKind::AtPosition(
                title.clone(),
                *position,
            ),
            ConstraintKind::Adjacent(first, second) => ConstraintKind::Adjacent(
                first.clone(),
                second.clone(),
            ),
            ConstraintKind::OnSameSide(first, second) => ConstraintKind::OnSameSide(
                first.clone(),
                second.clone(),
            ),
        }
    }
}

/// A placement preference together with the weight it adds to the score of
/// an ordering that satisfies it.
#[derive(Debug)]
pub struct Constraint {
    pub kind: ConstraintKind,
    pub weight: usize,
}

/// What a [`Constraint`] is to the contracts.
pub struct ConstraintView {
    pub kind: ConstraintKindView,
    pub weight: nat,
}

impl View for Constraint {
    type V = ConstraintView;

    open spec fn view(&self) -> ConstraintView {
        ConstraintView { kind: self.kind@, weight: self.weight as nat }
    }
}

impl Clone for Constraint {
    fn clone(&self) -> (r: Self)
        ensures
            r == *self,
    {
        Constraint { kind: self.kind.clone(), weight: self.weight }
    }
}

/// The views of a sequence of constraints, position by position.
pub open spec fn constraint_views(constraints: Seq<Constraint>) -> Seq<ConstraintView> {
    constraints.map_values(|c: Constraint| c@)
}

/// Why a track, a medium or a request is not fit for sequencing.
#[derive(Debug, Clone, Copy, PartialEq, Eq, Structural)]
pub enum ConfigError {
    /// A medium has no side.
    ZeroSides,
    /// The sides of a medium hold nothing.
    ZeroCapacity,
    /// A track has no duration.
    ZeroDuration,
}

impl Track {
    /// A track with a title and a duration. A duration of zero is refused.
    pub fn new(title: String, duration: Duration) -> (r: Result<Track, ConfigError>)
        ensures
            match r {
                Ok(track) => duration > 0 && track.title == title && track.duration == duration,
                Err(e) => duration == 0 && e == ConfigError::ZeroDuration,
            },
    {
        if duration == 0 {
            Err(ConfigError::ZeroDuration)
        } else {
            Ok(Track { title, duration })
        }
    }
}

/// What is wrong with a medium of `sides` sides of `capacity` each, if
/// anything: the number of sides is looked at first.
pub open spec fn medium_fault(sides: nat, capacity: nat) -> Option<ConfigError> {
    if sides == 0 {
        Some(ConfigError::ZeroSides)
    } else if capacity == 0 {
        Some(ConfigError::ZeroCapacity)
    } else {
        None
    }
}

/// Whether every track of a sequence has a duration.
pub open spec fn durations_positive(tracks: Seq<TrackView>) -> bool {
    forall|i: int| 0 <= i < tracks.len() ==> (#[trigger] tracks[i]).duration > 0
}

/// What is wrong with a request to sequence `tracks` on a medium, if
/// anything: the medium is looked at first, then the tracks.
pub open spec fn request_fault(tracks: Seq<TrackView>, sides: nat, capacity: nat) -> Option<
    ConfigError,
> {
    if medium_fault(sides, capacity) is Some {
        medium_fault(sides, capacity)
    } else if !durations_positive(tracks) {
        Some(ConfigError::ZeroDuration)
    } else {
        None
    }
}

impl Medium {
    /// A medium with a name, a number of sides and their capacity. A medium
    /// without sides or without capacity is refused.
    pub fn new(name: String, sides: usize, max_duration_per_side: Duration) -> (r: Result<
        Medium,
        ConfigError,
    >)
        ensures
            match r {
                Ok(medium) => {
                    &&& medium_fault(sides as nat, max_duration_per_side as nat) is None
                    &&& medium.name == name
                    &&& medium.sides == sides
                    &&& medium.max_duration_per_side == max_duration_per_side
                },
                Err(e) => medium_fault(sides as nat, max_duration_per_side as nat) == Some(e),
            },
    {
        if sides == 0 {
            Err(ConfigError::ZeroSides)
        } else if max_duration_per_side == 0 {
            Err(ConfigError::ZeroCapacity)
        } else {
            Ok(Medium { sides, max_duration_per_side, name })
        }
    }
}

/// Checks that `tracks` and `medium` are fit for sequencing: the medium has
/// sides and capacity, and every track has a duration.
pub fn validate_request(tracks: &Vec<Track>, medium: &Medium) -> (r: Result<(), ConfigError>)
    ensures
        match r {
            Ok(_) => request_fault(
                track_views(tracks@),
                medium.sides as nat,
                medium.max_duration_per_side as nat,
            ) is None,
            Err(e) => request_fault(
                track_views(tracks@),
                medium.sides as nat,
                medium.max_duration_per_side as nat,
            ) == Some(e),
        },
{
    if medium.sides == 0 {
        return Err(ConfigError::ZeroSides);
    }
    if medium.max_duration_per_side == 0 {
        return Err(ConfigError::ZeroCapacity);
    }
    let ghost views = track_views(tracks@);
    let mut i: usize = 0;
    while i < tracks.len()
        invariant
            i <= tracks.len(),
            medium.sides != 0,
            medium.max_duration_per_side != 0,
            views == track_views(tracks@),
            forall|j: int| 0 <= j < i ==> (#[trigger] views[j]).duration > 0,
        decreases tracks.len() - i,
    {
        if tracks[i].duration == 0 {
            assert(views[i as int].duration == 0);
            return Err(ConfigError::ZeroDuration);
        }
        i = i + 1;
    }
    Ok(())
}

} // verus!
