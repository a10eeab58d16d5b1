//! Peak-amplitude waveform of an audio stream, and the decisions of a
//! playback view that reveals it as the audio plays.
use vstd::prelude::*;

pub mod geometry;
pub mod playback;
pub mod startup;
pub mod waveform;

verus! {

} // verus!
