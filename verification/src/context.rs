//! The stored context: named tracklists, media and constraints.
//!
//! A context is what a user has entered so far. Tracklists and media are
//! found by their names, without regard to the case of ASCII letters, and a
//! constraint by its kind; storing an entry under a name or kind that is
//! taken replaces the first entry that has it, and any other is appended.

use crate::model::{
    constraint_views, track_views, Constraint, ConstraintKind, ConstraintKindView, ConstraintView,
    Duration, Medium, MediumView, Track, TrackView, Tracklist,
};
use crate::search::{first_where, lemma_first_where_is};
use crate::text::{names_match, same_name};
use vstd::prelude::*;
use vstd::std_specs::cmp::PartialEqSpecImpl;
use vstd::std_specs::convert::FromSpecImpl;

verus! {

/// The stored form of a track.
#[derive(Debug, Default)]
pub struct SerTrack {
    pub title: String,
    pub duration: Duration,
}

impl View for SerTrack {
    type V = TrackView;

    open spec fn view(&self) -> TrackView {
        TrackView { title: self.title@, duration: self.duration as nat }
    }
}

impl Clone for SerTrack {
    fn clone(&self) -> (r: Self)
        ensures
            r == *self,
    {
        SerTrack { title: self.title.clone(), duration: self.duration }
    }
}

impl From<&Track> for SerTrack {
    /// The stored form of `track`.
    fn from(track: &Track) -> (r: SerTrack)
        ensures
            r@ == track@,
    {
        SerTrack { title: track.title.clone(), duration: track.duration }
    }
}

impl FromSpecImpl<&Track> for SerTrack {
    open spec fn obeys_from_spec() -> bool {
        true
    }

    open spec fn from_spec(track: &Track) -> SerTrack {
        SerTrack { title: track.title, duration: track.duration }
    }
}

impl From<&SerTrack> for Track {
    /// The track that `stored` is the stored form of.
    fn from(stored: &SerTrack) -> (r: Track)
        ensures
            r@ == stored@,
    {
        Track { title: stored.title.clone(), duration: stored.duration }
    }
}

impl FromSpecImpl<&SerTrack> for Track {
    open spec fn obeys_from_spec() -> bool {
        true
    }

    open spec fn from_spec(stored: &SerTrack) -> Track {
        Track { title: stored.title, duration: stored.duration }
    }
}

/// The views of a sequence of stored tracks, position by position.
pub open spec fn stored_track_views(tracks: Seq<SerTrack>) -> Seq<TrackView> {
    tracks.map_values(|t: SerTrack| t@)
}

/// The stored form of an ordering of tracks.
#[derive(Debug, Default)]
pub struct SerTracklist(pub Vec<SerTrack>);

impl View for SerTracklist {
    type V = Seq<TrackView>;

    open spec fn view(&self) -> Seq<TrackView> {
        stored_track_views(self.0@)
    }
}

/// The stored forms of `tracks`, in their order.
pub fn store_tracks(tracks: &Vec<Track>) -> (r: SerTracklist)
    ensures
        r@ == track_views(tracks@),
{
    let mut out: Vec<SerTrack> = Vec::new();
    let mut i: usize = 0;
    while i < tracks.len()
        invariant
            i <= tracks.len(),
            out@.len() == i,
            forall|j: int| 0 <= j < i ==> (#[trigger] out@[j])@ == tracks@[j]@,
        decreases tracks.len() - i,
    {
        out.push(SerTrack::from(&tracks[i]));
        i = i + 1;
    }
    SerTracklist(out)
}

impl Clone for SerTracklist {
    fn clone(&self) -> (r: Self)
        ensures
            r@ == self@,
    {
        let mut out: Vec<SerTrack> = Vec::new();
        let mut i: usize = 0;
        while i < self.0.len()
            invariant
                i <= self.0.len(),
                out@ == self.0@.take(i as int),
            decreases self.0.len() - i,
        {
            out.push(self.0[i].clone());
            i = i + 1;
        }
        SerTracklist(out)
    }
}

impl From<&Tracklist> for SerTracklist {
    /// The stored form of `tracklist`.
    fn from(tracklist: &Tracklist) -> (r: SerTracklist)
        ensures
            r@ == tracklist@,
    {
        store_tracks(&tracklist.0)
    }
}

impl FromSpecImpl<&Tracklist> for SerTracklist {
    open spec fn obeys_from_spec() -> bool {
        false
    }

    open spec fn from_spec(tracklist: &Tracklist) -> SerTracklist {
        arbitrary()
    }
}

impl From<&SerTracklist> for Tracklist {
    /// The ordering that `stored` is the stored form of.
    fn from(stored: &SerTracklist) -> (r: Tracklist)
        ensures
            r@ == stored@,
    {
        let mut out: Vec<Track> = Vec::new();
        let mut i: usize = 0;
        while i < stored.0.len()
            invariant
                i <= stored.0.len(),
                out@.len() == i,
                forall|j: int| 0 <= j < i ==> (#[trigger] out@[j])@ == stored.0@[j]@,
            decreases stored.0.len() - i,
        {
            out.push(Track::from(&stored.0[i]));
            i = i + 1;
        }
        Tracklist(out)
    }
}

impl FromSpecImpl<&SerTracklist> for Tracklist {
    open spec fn obeys_from_spec() -> bool {
        false
    }

    open spec fn from_spec(stored: &SerTracklist) -> Tracklist {
        arbitrary()
    }
}

/// A tracklist stored under a name.
#[derive(Debug, Default)]
pub struct NamedSerTracklist {
    pub name: String,
    pub tracks: SerTracklist,
}

/// What a [`NamedSerTracklist`] is to the contracts.
pub struct NamedTracklistView {
    pub name: Seq<char>,
    pub tracks: Seq<TrackView>,
}

impl View for NamedSerTracklist {
    type V = NamedTracklistView;

    open spec fn view(&self) -> NamedTracklistView {
        NamedTracklistView { name: self.name@, tracks: self.tracks@ }
    }
}

impl Clone for NamedSerTracklist {
    fn clone(&self) -> (r: Self)
        ensures
            r@ == self@,
    {
        NamedSerTracklist { name: self.name.clone(), tracks: self.tracks.clone() }
    }
}

/// The stored form of a medium.
#[derive(Debug, Default)]
pub struct SerMedium {
    pub name: String,
    pub sides: usize,
    pub max_duration_per_side: Duration,
}

impl View for SerMedium {
    type V = MediumView;

    open spec fn view(&self) -> MediumView {
        MediumView {
            sides: self.sides as nat,
            max_duration_per_side: self.max_duration_per_side as nat,
            name: self.name@,
        }
    }
}

impl Clone for SerMedium {
    fn clone(&self) -> (r: Self)
        ensures
            r == *self,
    {
        SerMedium {
            name: self.name.clone(),
            sides: self.sides,
            max_duration_per_side: self.max_duration_per_side,
        }
    }
}

impl SerMedium {
    /// The medium that this is the stored form of.
    pub fn to_album_medium(&self) -> (r: Medium)
        ensures
            r@ == self@,
            r.sides == self.sides,
            r.max_duration_per_side == self.max_duration_per_side,
            r.name == self.name,
    {
        Medium {
            sides: self.sides,
            max_duration_per_side: self.max_duration_per_side,
            name: self.name.clone(),
        }
    }
}

/// The stored form of the kind of a constraint.
#[derive(Debug)]
pub enum SerConstraintKind {
    AtPosition(String, usize),
    Adjacent(String, String),
    OnSameSide(String, String),
}

impl View for SerConstraintKind {
    type V = ConstraintKindView;

    open spec fn view(&self) -> ConstraintKindView {
        match self {
            SerConstraintKind::AtPosition(title, position) => ConstraintKindView::AtPosition(
                title@,
                *position as nat,
            ),
            SerConstraintKind::Adjacent(first, second) => ConstraintKindView::Adjacent(
                first@,
                second@,
            ),
            SerConstraintKind::OnSameSide(first, second) => ConstraintKindView::OnSameSide(
                first@,
                second@,
            ),
        }
    }
}

impl Clone for SerConstraintKind {
    fn clone(&self) -> (r: Self)
        ensures
            r == *self,
    {
        match self {
            SerConstraintKind::AtPosition(title, position) => SerConstraintKind::AtPosition(
                title.clone(),
                *position,
            ),
            SerConstraintKind::Adjacent(first, second) => SerConstraintKind::Adjacent(
                first.clone(),
                second.clone(),
            ),
            SerConstraintKind::OnSameSide(first, second) => SerConstraintKind::OnSameSide(
                first.clone(),
                second.clone(),
            ),
        }
    }
}

impl PartialEq for SerConstraintKind {
    /// Two kinds are equal when they are of the same variant and name the
    /// same titles and position.
    fn eq(&self, other: &Self) -> (r: bool) {
        match (self, other) {
            (
                SerConstraintKind::AtPosition(title, position),
                SerConstraintKind::AtPosition(other_title, other_position),
            ) => *title == *other_title && *position == *other_position,
            (
                SerConstraintKind::Adjacent(first, second),
                SerConstraintKind::Adjacent(other_first, other_second),
            ) => *first == *other_first && *second == *other_second,
            (
                SerConstraintKind::OnSameSide(first, second),
                SerConstraintKind::OnSameSide(other_first, other_second),
            ) => *first == *other_first && *second == *other_second,
            _ => false,
        }
    }
}

impl PartialEqSpecImpl for SerConstraintKind {
    open spec fn obeys_eq_spec() -> bool {
        true
    }

    open spec fn eq_spec(&self, other: &Self) -> bool {
        self@ == other@
    }
}

impl Eq for SerConstraintKind {

}

/// The stored form of a constraint.
#[derive(Debug)]
pub struct SerConstraint {
    pub kind: SerConstraintKind,
    pub weight: usize,
}

impl View for SerConstraint {
    type V = ConstraintView;

    open spec fn view(&self) -> ConstraintView {
        ConstraintView { kind: self.kind@, weight: self.weight as nat }
    }
}

impl Clone for SerConstraint {
    fn clone(&self) -> (r: Self)
        ensures
            r == *self,
    {
        SerConstraint { kind: self.kind.clone(), weight: self.weight }
    }
}

impl From<SerConstraint> for Constraint {
    /// The constraint that `stored` is the stored form of.
    fn from(stored: SerConstraint) -> (r: Constraint)
        ensures
            r@ == stored@,
    {
        let kind = match stored.kind {
            SerConstraintKind::AtPosition(title, position) => ConstraintKind::AtPosition(
                title,
                position,
            ),
            SerConstraintKind::Adjacent(first, second) => ConstraintKind::Adjacent(first, second),
            SerConstraintKind::OnSameSide(first, second) => ConstraintKind::OnSameSide(
                first,
                second,
            ),
        };
        Constraint { kind, weight: stored.weight }
    }
}

impl FromSpecImpl<SerConstraint> for Constraint {
    open spec fn obeys_from_spec() -> bool {
        true
    }

    open spec fn from_spec(stored: SerConstraint) -> Constraint {
        Constraint {
            kind: match stored.kind {
                SerConstraintKind::AtPosition(title, position) => ConstraintKind::AtPosition(
                    title,
                    position,
                ),
                SerConstraintKind::Adjacent(first, second) => ConstraintKind::Adjacent(
                    first,
                    second,
                ),
                SerConstraintKind::OnSameSide(first, second) => ConstraintKind::OnSameSide(
                    first,
                    second,
                ),
            },
            weight: stored.weight,
        }
    }
}

impl From<&Constraint> for SerConstraint {
    /// The stored form of `constraint`.
    fn from(constraint: &Constraint) -> (r: SerConstraint)
        ensures
            r@ == constraint@,
    {
        let kind = match &constraint.kind {
            ConstraintKind::AtPosition(title, position) => SerConstraintKind::AtPosition(
                title.clone(),
                *position,
            ),
            ConstraintKind::Adjacent(first, second) => SerConstraintKind::Adjacent(
                first.clone(),
                second.clone(),
            ),
            ConstraintKind::OnSameSide(first, second) => SerConstraintKind::OnSameSide(
                first.clone(),
                second.clone(),
            ),
        };
        SerConstraint { kind, weight: constraint.weight }
    }
}

impl FromSpecImpl<&Constraint> for SerConstraint {
    open spec fn obeys_from_spec() -> bool {
        true
    }

    open spec fn from_spec(constraint: &Constraint) -> SerConstraint {
        SerConstraint {
            kind: match constraint.kind {
                ConstraintKind::AtPosition(title, position) => SerConstraintKind::AtPosition(
                    title,
                    position,
                ),
                ConstraintKind::Adjacent(first, second) => SerConstraintKind::Adjacent(
                    first,
                    second,
                ),
                ConstraintKind::OnSameSide(first, second) => SerConstraintKind::OnSameSide(
                    first,
                    second,
                ),
            },
            weight: constraint.weight,
        }
    }
}

/// `items` with `entry` stored at `at`: in place of the item that stands
/// there, or at the end if `at` is the length of `items`.
pub open spec fn stored_at<T>(items: Seq<T>, at: int, entry: T) -> Seq<T> {
    if at < items.len() {
        items.update(at, entry)
    } else {
        items.push(entry)
    }
}

/// What storing an entry did.
#[derive(Debug, Clone, Copy, PartialEq, Eq, Structural)]
pub enum Stored {
    /// No entry had the name or kind; the new one was appended.
    Added,
    /// The first entry with the name or kind was replaced.
    Replaced,
}

/// Everything a user has stored: tracklists and media by name, and
/// constraints.
#[derive(Debug)]
pub struct ProgramContext {
    pub tracklists: Vec<NamedSerTracklist>,
    pub mediums: Vec<SerMedium>,
    pub constraints: Vec<SerConstraint>,
}

/// What a [`ProgramContext`] is to the contracts.
pub struct ContextView {
    pub tracklists: Seq<NamedTracklistView>,
    pub mediums: Seq<MediumView>,
    pub constraints: Seq<ConstraintView>,
}

impl View for ProgramContext {
    type V = ContextView;

    open spec fn view(&self) -> ContextView {
        ContextView {
            tracklists: self.tracklists@.map_values(|t: NamedSerTracklist| t@),
            mediums: self.mediums@.map_values(|m: SerMedium| m@),
            constraints: self.constraints@.map_values(|c: SerConstraint| c@),
        }
    }
}

/// The condition that a tracklist is stored under `name`, but for the case of
/// ASCII letters.
pub open spec fn tracklist_named(name: Seq<char>) -> spec_fn(NamedTracklistView) -> bool {
    |t: NamedTracklistView| same_name(t.name, name)
}

/// The condition that a medium is stored under `name`, but for the case of
/// ASCII letters.
pub open spec fn medium_named(name: Seq<char>) -> spec_fn(MediumView) -> bool {
    |m: MediumView| same_name(m.name, name)
}

/// The condition that a constraint is of the kind `kind`.
pub open spec fn of_kind(kind: ConstraintKindView) -> spec_fn(ConstraintView) -> bool {
    |c: ConstraintView| c.kind == kind
}

/// What storing at `at` among `len` entries does.
pub open spec fn outcome(at: int, len: nat) -> Stored {
    if at < len {
        Stored::Replaced
    } else {
        Stored::Added
    }
}

impl ProgramContext {
    /// A context that holds nothing.
    pub fn new() -> (r: Self)
        ensures
            r@.tracklists.len() == 0,
            r@.mediums.len() == 0,
            r@.constraints.len() == 0,
    {
        ProgramContext { tracklists: Vec::new(), mediums: Vec::new(), constraints: Vec::new() }
    }

    /// The place of the first tracklist stored under `name`, if there is
    /// one.
    pub fn find_tracklist(&self, name: &str) -> (r: Option<usize>)
        ensures
            match r {
                Some(at) => at < self@.tracklists.len() && at == first_where(
                    self@.tracklists,
                    tracklist_named(name@),
                ),
                None => first_where(self@.tracklists, tracklist_named(name@))
                    == self@.tracklists.len(),
            },
    {
        let mut at: usize = 0;
        while at < self.tracklists.len()
            invariant
                at <= self.tracklists.len(),
                forall|j: int|
                    0 <= j < at ==> !tracklist_named(name@)(#[trigger] self@.tracklists[j]),
            decreases self.tracklists.len() - at,
        {
            if names_match(self.tracklists[at].name.as_str(), name) {
                proof {
                    lemma_first_where_is(self@.tracklists, tracklist_named(name@), at as int);
                }
                return Some(at);
            }
            at = at + 1;
        }
        proof {
            lemma_first_where_is(self@.tracklists, tracklist_named(name@), at as int);
        }
        None
    }

    /// The place of the first medium stored under `name`, if there is one.
    pub fn find_medium(&self, name: &str) -> (r: Option<usize>)
        ensures
            match r {
                Some(at) => at < self@.mediums.len() && at == first_where(
                    self@.mediums,
                    medium_named(name@),
                ),
                None => first_where(self@.mediums, medium_named(name@)) == self@.mediums.len(),
            },
    {
        let mut at: usize = 0;
        while at < self.mediums.len()
            invariant
                at <= self.mediums.len(),
                forall|j: int| 0 <= j < at ==> !medium_named(name@)(#[trigger] self@.mediums[j]),
            decreases self.mediums.len() - at,
        {
            if names_match(self.mediums[at].name.as_str(), name) {
                proof {
                    lemma_first_where_is(self@.mediums, medium_named(name@), at as int);
                }
                return Some(at);
            }
            at = at + 1;
        }
        proof {
            lemma_first_where_is(self@.mediums, medium_named(name@), at as int);
        }
        None
    }

    /// The place of the first constraint of the kind `kind`, if there is
    /// one.
    pub fn find_constraint(&self, kind: &SerConstraintKind) -> (r: Option<usize>)
        ensures
            match r {
                Some(at) => at < self@.constraints.len() && at == first_where(
                    self@.constraints,
                    of_kind(kind@),
                ),
                None => first_where(self@.constraints, of_kind(kind@)) == self@.constraints.len(),
            },
    {
        let mut at: usize = 0;
        while at < self.constraints.len()
            invariant
                at <= self.constraints.len(),
                forall|j: int| 0 <= j < at ==> !of_kind(kind@)(#[trigger] self@.constraints[j]),
            decreases self.constraints.len() - at,
        {
            if self.constraints[at].kind == *kind {
                proof {
                    lemma_first_where_is(self@.constraints, of_kind(kind@), at as int);
                }
                return Some(at);
            }
            at = at + 1;
        }
        proof {
            lemma_first_where_is(self@.constraints, of_kind(kind@), at as int);
        }
        None
    }

    /// Stores `tracks` under `name`: in place of the first tracklist with
    /// that name, or behind all tracklists if there is none.
    pub fn add_or_replace_tracklist(&mut self, name: String, tracks: Vec<Track>) -> (r: Stored)
        ensures
            final(self)@.tracklists == stored_at(
                old(self)@.tracklists,
                first_where(old(self)@.tracklists, tracklist_named(name@)),
                NamedTracklistView { name: name@, tracks: track_views(tracks@) },
            ),
            final(self)@.mediums == old(self)@.mediums,
            final(self)@.constraints == old(self)@.constraints,
            r == outcome(
                first_where(old(self)@.tracklists, tracklist_named(name@)),
                old(self)@.tracklists.len(),
            ),
    {
        let found = self.find_tracklist(name.as_str());
        let entry = NamedSerTracklist { name, tracks: store_tracks(&tracks) };
        match found {
            Some(at) => {
                self.tracklists.set(at, entry);
                Stored::Replaced
            },
            None => {
                self.tracklists.push(entry);
                Stored::Added
            },
        }
    }

    /// Stores a medium under `name`: in place of the first medium with that
    /// name, or behind all media if there is none.
    pub fn add_or_replace_medium(
        &mut self,
        name: String,
        sides: usize,
        max_duration_per_side: Duration,
    ) -> (r: Stored)
        ensures
            final(self)@.mediums == stored_at(
                old(self)@.mediums,
                first_where(old(self)@.mediums, medium_named(name@)),
                MediumView {
                    sides: sides as nat,
                    max_duration_per_side: max_duration_per_side as nat,
                    name: name@,
                },
            ),
            final(self)@.tracklists == old(self)@.tracklists,
            final(self)@.constraints == old(self)@.constraints,
            r == outcome(
                first_where(old(self)@.mediums, medium_named(name@)),
                old(self)@.mediums.len(),
            ),
    {
        let found = self.find_medium(name.as_str());
        let entry = SerMedium { name, sides, max_duration_per_side };
        match found {
            Some(at) => {
                self.mediums.set(at, entry);
                Stored::Replaced
            },
            None => {
                self.mediums.push(entry);
                Stored::Added
            },
        }
    }

    /// Stores `constraint`: in place of the first constraint of its kind, or
    /// behind all constraints if there is none.
    pub fn add_or_replace_constraint(&mut self, constraint: Constraint) -> (r: Stored)
        ensures
            final(self)@.constraints == stored_at(
                old(self)@.constraints,
                first_where(old(self)@.constraints, of_kind(constraint@.kind)),
                constraint@,
            ),
            final(self)@.tracklists == old(self)@.tracklists,
            final(self)@.mediums == old(self)@.mediums,
            r == outcome(
                first_where(old(self)@.constraints, of_kind(constraint@.kind)),
                old(self)@.constraints.len(),
            ),
    {
        let entry = SerConstraint::from(&constraint);
        let found = self.find_constraint(&entry.kind);
        match found {
            Some(at) => {
                self.constraints.set(at, entry);
                Stored::Replaced
            },
            None => {
                self.constraints.push(entry);
                Stored::Added
            },
        }
    }

    /// Takes out the constraint at `index` and hands it back. Nothing is
    /// taken out, and `None` is the result, if and only if there is no
    /// constraint at `index`.
    pub fn remove_constraint(&mut self, index: usize) -> (r: Option<SerConstraint>)
        ensures
            final(self)@.tracklists == old(self)@.tracklists,
            final(self)@.mediums == old(self)@.mediums,
            match r {
                Some(removed) => {
                    &&& index < old(self)@.constraints.len()
                    &&& removed@ == old(self)@.constraints[index as int]
                    &&& final(self)@.constraints == old(self)@.constraints.remove(index as int)
                },
                None => {
                    &&& index >= old(self)@.constraints.len()
                    &&& final(self)@.constraints == old(self)@.constraints
                },
            },
    {
        if index < self.constraints.len() {
            let removed = self.constraints.remove(index);
            Some(removed)
        } else {
            None
        }
    }

    /// The constraints of the context as the engine takes them.
    pub fn album_constraints(&self) -> (r: Vec<Constraint>)
        ensures
            constraint_views(r@) == self@.constraints,
    {
        let mut out: Vec<Constraint> = Vec::new();
        let mut i: usize = 0;
        while i < self.constraints.len()
            invariant
                i <= self.constraints.len(),
                out@.len() == i,
                forall|j: int| 0 <= j < i ==> (#[trigger] out@[j])@ == self.constraints@[j]@,
            decreases self.constraints.len() - i,
        {
            out.push(Constraint::from(self.constraints[i].clone()));
            i = i + 1;
        }
        out
    }
}

} // verus!
