//! The player side of the jukebox: the song queues and the playback loop.

pub mod queue;
pub mod sink;

use vstd::prelude::*;

verus! {

/// The directory, below the base directory, that holds downloaded tracks.
pub const OUTPUT_DIR: &'static str = "output";

} // verus!
