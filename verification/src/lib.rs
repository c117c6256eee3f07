//! A rhythm-game playback engine: notes fall toward a hit line, key presses
//! are measured against each note's scheduled time, and a running score,
//! combo and accuracy are kept.  The library holds the timing and scoring
//! state machine together with the per-frame software rendering of note
//! positions into a flat pixel buffer; window, audio and asset plumbing live
//! outside it.

use vstd::prelude::*;

pub mod chart;
pub mod drawing;
pub mod session;
pub mod stats;

verus! {

/// Width of the playfield pixel buffer, in pixels.
pub const WIDTH: usize = 1280;

/// Height of the playfield pixel buffer, in pixels.
pub const HEIGHT: usize = 720;

} // verus!
