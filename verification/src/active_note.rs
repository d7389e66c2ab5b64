//! The per-key data captured when a pattern key is pressed.

use vstd::prelude::*;
use crate::events::NoteEvent;
use crate::utils::{
    get_channel_of_event, get_note_of_event, get_velocity_of_event, get_voice_id_of_event,
    spec_channel_of, spec_note_of, spec_velocity_of, spec_voice_id_of,
};

verus! {

/// A held note keyed by its pitch alone.
#[derive(PartialEq, Eq, PartialOrd, Ord, Debug, Clone, Copy)]
pub struct ActiveNoteDefaultIndex {
    pub note: u8,
}

/// A held note keyed by its chord slot and octave displacement.
#[derive(PartialEq, Eq, PartialOrd, Ord, Debug, Clone, Copy)]
pub struct ActiveNoteChordIndex {
    pub chord_idx: u8,
    pub octave: i32,
}

/// What a pattern key remembers from the event that pressed it: voice id,
/// channel, pitch and the opaque velocity tag, all replayed verbatim on the
/// events the key later emits.
#[derive(PartialEq, Eq, Debug, Clone, Copy)]
pub struct ActiveNoteDefaultData {
    /// A unique identifier for the note, when the host provides one.
    pub voice_id: Option<i32>,
    /// The note's channel, from 0 to 15.
    pub channel: u8,
    /// The note's MIDI key number, from 0 to 127.
    pub note: u8,
    /// The note's velocity tag, carried through uninterpreted.
    pub velocity: u32,
}

/// The press-time data captured from a note event, with the defaults the
/// capture falls back to on kinds that lack a field.
pub open spec fn spec_note_data_of(e: NoteEvent) -> ActiveNoteDefaultData {
    ActiveNoteDefaultData {
        voice_id: spec_voice_id_of(e),
        channel: match spec_channel_of(e) {
            Some(c) => c,
            None => 0,
        },
        note: match spec_note_of(e) {
            Some(n) => n,
            None => 60,
        },
        velocity: match spec_velocity_of(e) {
            Some(v) => v,
            None => 0,
        },
    }
}

impl ActiveNoteDefaultData {
    /// Captures the press-time data of a note event.
    pub fn from_note_event(note_event: &NoteEvent) -> (r: ActiveNoteDefaultData)
        ensures
            r == spec_note_data_of(*note_event),
    {
        ActiveNoteDefaultData {
            note: get_note_of_event(note_event).unwrap_or(60),
            voice_id: get_voice_id_of_event(note_event),
            channel: get_channel_of_event(note_event).unwrap_or(0),
            velocity: get_velocity_of_event(note_event).unwrap_or(0),
        }
    }
}

} // verus!
