//! Core engines of a pattern-based arpeggiator.
//!
//! Two independent engines share this crate. A rhythm engine distributes a
//! number of onsets over a step grid (an Euclidean-style pattern), lays the
//! gates out on a looping, sample-indexed timeline, and answers which note
//! events fire at a given sample position. A harmonic engine remaps held
//! "pattern" keys onto the pitches of a live "chord", re-triggering notes
//! whenever the chord changes, by diffing old and new mappings.
//!
//! The crate works on plain values only: pitches, channels, sample positions
//! and opaque velocity tags. The host adapter that talks to a plugin shell
//! (transport clock, parameter smoothing, MIDI transport) stays outside.

pub mod active_note;
pub mod chord;
pub mod events;
pub mod rhythm;
pub mod processors;
pub mod sequence;
pub mod utils;
