//! The note events the core consumes and produces.
//!
//! The host's raw MIDI representation stays outside the core; here an event
//! is a tagged value exposing pitch, channel, velocity, voice id and
//! sample-accurate timing. Velocity is an opaque tag: the core never
//! interprets it, it only carries the value from an incoming event to the
//! events it emits. A host adapter may store any injective encoding in it,
//! for example the bit pattern of a normalized amplitude.

use vstd::prelude::*;

verus! {

/// A tagged note event with sample-accurate timing within one block.
#[derive(Clone, Copy, PartialEq, Eq, Debug)]
pub enum NoteEvent {
    NoteOn { timing: u32, voice_id: Option<i32>, channel: u8, note: u8, velocity: u32 },
    NoteOff { timing: u32, voice_id: Option<i32>, channel: u8, note: u8, velocity: u32 },
    Choke { timing: u32, voice_id: Option<i32>, channel: u8, note: u8 },
    PolyModulation { timing: u32, voice_id: i32, poly_modulation_id: u32, normalized_offset: u32 },
}

impl NoteEvent {
    /// The sample offset of the event within its block.
    pub open spec fn spec_timing(self) -> u32 {
        match self {
            NoteEvent::NoteOn { timing, .. } => timing,
            NoteEvent::NoteOff { timing, .. } => timing,
            NoteEvent::Choke { timing, .. } => timing,
            NoteEvent::PolyModulation { timing, .. } => timing,
        }
    }

    /// Returns the sample offset of the event within its block.
    pub fn timing(&self) -> (r: u32)
        ensures
            r == self.spec_timing(),
    {
        match self {
            NoteEvent::NoteOn { timing, .. } => *timing,
            NoteEvent::NoteOff { timing, .. } => *timing,
            NoteEvent::Choke { timing, .. } => *timing,
            NoteEvent::PolyModulation { timing, .. } => *timing,
        }
    }
}

} // verus!
