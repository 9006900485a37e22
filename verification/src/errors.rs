use vstd::prelude::*;

verus! {

/// The failure kinds that catalog operations, resolution and playback
/// control report. Every command either succeeds or surfaces one of these;
/// none of them is fatal to the surrounding process.
#[derive(Clone, Copy, Debug, PartialEq, Eq, Structural)]
pub enum ErrorKind {
    /// Resolution or lookup found no matching record.
    NotFound,
    /// Resolution found several title matches and no sufficiently
    /// narrowing artist hint.
    Ambiguous,
    /// An add was attempted for a path that is already cataloged.
    DuplicatePath,
    /// The audio backend could not open or decode a file.
    PlaybackError,
    /// Tag extraction failed entirely, or the path could not be normalized.
    TagReadError,
    /// An operation was requested from a playback state that does not
    /// support it.
    InvalidState,
}

} // verus!
