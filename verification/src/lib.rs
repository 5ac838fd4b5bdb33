//! Core logic of a terminal front-end for external media tools: a bounded
//! scrollable line buffer, a byte-chunk-to-line assembler, a job-slot state
//! machine for supervising one external process per tool, a parser for the
//! downloader's capability table, and collision-free output path resolution.
use vstd::prelude::*;

pub mod assembler;
pub mod form;
pub mod media;
pub mod model;
pub mod plan;
pub mod quality;
pub mod stats;
pub mod supervisor;
pub mod text;
pub mod tool_output;

verus! {

/// Number of spinner animation frames cycled while a job runs.
pub const SPINNER_FRAME_COUNT: usize = 4;

/// Advance a spinner one tick, wrapping around the frame cycle.
pub fn next_spinner_frame(frame: usize) -> (r: usize)
    requires
        frame < SPINNER_FRAME_COUNT,
    ensures
        r == (frame + 1) % (SPINNER_FRAME_COUNT as int),
        r < SPINNER_FRAME_COUNT,
{
    (frame + 1) % SPINNER_FRAME_COUNT
}

} // verus!
