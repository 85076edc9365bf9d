//! Verified core of a puzzle-activity watcher: a scale-invariant template
//! detector with greedy suppression, a completion verifier, a per-player
//! lifecycle tracker, a bounded-retry schedule, and duration formatting.

pub mod clock;
pub mod detect;
pub mod duration;
pub mod events;
pub mod image;
pub mod matcher;
pub mod retry;
pub mod suppress;
pub mod tracker;
pub mod verify;

use vstd::prelude::*;

verus! {

/// Failure of a detection-related operation on malformed input.
#[derive(Clone, Copy, Debug, PartialEq, Eq, Structural)]
pub enum DetectError {
    /// A pixel buffer does not match the stated dimensions, or a
    /// dimension exceeds the supported maximum.
    BadDimensions,
    /// A zero-sized template or target was handed to detection.
    EmptyImage,
}

} // verus!
