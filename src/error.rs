//! Error kinds of the player.
use vstd::prelude::*;

verus! {

/// What went wrong, with the detail that goes into the diagnostic line.
#[derive(Debug)]
pub enum HookError {
    /// A remote endpoint could not be reached.
    Network(String),
    /// A response was not the JSON document expected.
    Parse(String),
    /// The named pack is not in the registry index.
    NotFound(String),
    /// The operating system has no release build.
    UnsupportedPlatform(String),
    /// A local file system operation failed.
    Io(String),
    /// The sound could not be played.
    Playback(String),
}

} // verus!
