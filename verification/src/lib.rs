//! Verified core of a small command-driven music player.
//!
//! The crate models the three pieces of the player that carry real decision
//! logic: the track catalog (stable ids, paths de-duplicated), the resolver
//! that turns a free-form user token — an id, a file path, an
//! `"artist - title"` pair or a bare title — into exactly one catalog entry,
//! and the state machine that governs the single playback session.
//! Reading tags from a file, normalizing a path against the working
//! directory and probing the disk are delegated to outside crates behind
//! trusted wrappers; everything that decides is specified and proved.

mod boundary;
pub mod catalog;
pub mod errors;
pub mod laws;
pub mod numeral;
pub mod playback;
pub mod text;
pub mod track;

pub use catalog::Catalog;
pub use catalog::CatalogView;
pub use errors::ErrorKind;
pub use playback::PlaybackController;
pub use playback::PlaybackState;
pub use track::TrackData;
pub use track::TrackView;
