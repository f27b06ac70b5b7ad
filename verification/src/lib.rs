//! Sequencing of album tracks onto the sides of a physical medium.
//!
//! The crate enumerates every ordering of a set of tracks, packs each ordering
//! greedily onto the sides of a medium, scores it against weighted placement
//! constraints, and keeps the best orderings that fit. Around that engine it
//! holds the context that a user stores tracklists, media and constraints
//! in, and the commands that work on it.
//!
//! - [`model`]: tracks, tracklists, media and constraints.
//! - [`permutation`]: the orderings of a collection, one at a time.
//! - [`allocation`]: the packing of an ordering onto sides.
//! - [`scoring`]: the score of an ordering.
//! - [`ranking`]: the selection of the best orderings.
//! - [`context`]: the stored context.
//! - [`commands`]: the commands on a stored context.
//! - [`utils`]: durations as text.
//! - [`text`]: names, numbers and the parts of an argument.
//! - [`search`]: the first item of a sequence that meets a condition.
//!
//! Contracts are stated over mathematical views of the data: a track is its
//! title as a sequence of characters and its duration as a natural number of
//! milliseconds, and a list is the sequence of the views of its items. One
//! function rests on the standard library without proof: the one that puts
//! a text in lower case, whose result the contracts only name.

pub mod allocation;
pub mod commands;
pub mod context;
pub mod model;
pub mod permutation;
pub mod ranking;
pub mod scoring;
pub mod search;
pub mod text;
pub mod utils;
