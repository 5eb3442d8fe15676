//! Errors of the stream management.

use vstd::prelude::*;

verus! {

/// Errors reported when managing the streams of a recording.
#[derive(Debug, Clone, Copy, PartialEq, Eq)]
pub enum Error<ID> {
    /// Trying to set too many participants in the mixer to be visible
    /// (maximum value is defined by mixer configuration).
    TooManyVisibles,
    /// Given stream can not be found within the mixer.
    StreamNotFound(ID),
    /// Called a method which needs to pause the pipeline before calling it.
    PlayingPipelineForbidden,
    /// Failed to insert a new stream because there is already one with the same ID.
    IdDoublet(ID),
    /// The audio of the given stream cannot be linked.
    CannotLinkAudio(ID),
}

} // verus!
