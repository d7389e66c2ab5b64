//! Pitch arithmetic: keyboard-mode filtering, black-key counting, and the
//! chord-relative decomposition of a raw pitch into slot index and octave.

use vstd::prelude::*;
use vstd::arithmetic::div_mod::{lemma_fundamental_div_mod, lemma_mod_bound};
use crate::events::NoteEvent;
use crate::processors::PatternChordData;

verus! {

/// How raw pattern-key pitches are mapped into an index space before the
/// chord lookup.
#[derive(Clone, Copy, PartialEq, Eq, Debug)]
pub enum KeyboardMode {
    /// Every pitch passes through unchanged.
    AllKeys,
    /// Black keys are dropped; white keys are compacted to seven per octave.
    IgnoreBlackKeys,
}

/// A pitch is a black key when its pitch class is C#, D#, F#, G# or A#.
pub open spec fn spec_is_black_key(note: u8) -> bool {
    let pc = (note as int) % 12;
    pc == 1 || pc == 3 || pc == 6 || pc == 8 || pc == 10
}

/// The per-pitch-class offset the black-key count adds within one octave.
pub open spec fn spec_black_in_octave(pc: int) -> int {
    if pc < 1 { 0 }
    else if pc < 3 { 1 }
    else if pc < 5 { 2 }
    else if pc < 7 { 3 }
    else if pc < 9 { 4 }
    else { 5 }
}

/// The black-key count that white-key compaction subtracts: five per full
/// octave below the pitch, plus a per-pitch-class offset.
pub open spec fn spec_count_black_keys(note: u8) -> int {
    5 * ((note as int) / 12) + spec_black_in_octave((note as int) % 12)
}

/// What the keyboard-mode filter makes of a raw pitch: the pitch itself, a
/// compacted white-key pitch, or nothing.
pub open spec fn spec_apply_keyboard_mode(raw_note: u8, keyboard_mode: KeyboardMode) -> Option<u8> {
    match keyboard_mode {
        KeyboardMode::AllKeys => Some(raw_note),
        KeyboardMode::IgnoreBlackKeys => {
            if spec_is_black_key(raw_note) {
                None
            } else {
                let shifted = raw_note - (spec_count_black_keys(raw_note) - 25);
                if 0 <= shifted <= u8::MAX {
                    Some(shifted as u8)
                } else {
                    None
                }
            }
        },
    }
}

/// Returns whether the pitch is a black key.
pub fn is_black_key(note: u8) -> (r: bool)
    ensures
        r == spec_is_black_key(note),
{
    match note % 12 {
        1 => true,
        3 => true,
        6 => true,
        8 => true,
        10 => true,
        _ => false,
    }
}

/// Returns the number of black keys on the segment of pitches `0 ..= note`.
pub fn count_black_keys(note: u8) -> (r: u8)
    ensures
        r as int == spec_count_black_keys(note),
{
    let octaves = note / 12;
    let in_octave: u8 = match note % 12 {
        0 => 0,
        1 => 1,
        2 => 1,
        3 => 2,
        4 => 2,
        5 => 3,
        6 => 3,
        7 => 4,
        8 => 4,
        9 => 5,
        10 => 5,
        _ => 5,
    };
    octaves * 5 + in_octave
}

/// Returns the count of black keys relative to the reference pitch C3
/// (MIDI 60): there are 25 black keys on `0 ..= 60`.
pub fn count_black_keys_from_c3(note: u8) -> (r: i32)
    ensures
        r as int == spec_count_black_keys(note) - 25,
{
    count_black_keys(note) as i32 - 25
}

/// Applies the keyboard mode to a raw pitch; black keys are dropped in
/// `IgnoreBlackKeys` mode and white keys compacted, failing closed when the
/// compacted value would leave the representable range.
pub fn raw_note_apply_keyboard_mode(raw_note: u8, keyboard_mode: &KeyboardMode) -> (r: Option<u8>)
    ensures
        r == spec_apply_keyboard_mode(raw_note, *keyboard_mode),
{
    match keyboard_mode {
        KeyboardMode::IgnoreBlackKeys => {
            if is_black_key(raw_note) {
                None
            } else {
                let shifted: i32 = raw_note as i32 - count_black_keys_from_c3(raw_note);
                if 0 <= shifted && shifted <= u8::MAX as i32 {
                    Some(shifted as u8)
                } else {
                    None
                }
            }
        },
        KeyboardMode::AllKeys => Some(raw_note),
    }
}

/// The chord slot a pitch falls into: its distance from the reference pitch
/// C3 (MIDI 60), reduced modulo the wrap threshold.
pub open spec fn spec_chord_idx(note: u8, wrap_threshold: u8) -> int {
    (note as int - 60) % (wrap_threshold as int)
}

/// The octave a pitch falls into: its distance from the reference pitch C3,
/// divided by the wrap threshold, rounded toward negative infinity.
pub open spec fn spec_octave(note: u8, wrap_threshold: u8) -> int {
    (note as int - 60) / (wrap_threshold as int)
}

/// Splits a pitch into its chord slot index and octave displacement.
pub fn note_to_chord_idx_octave(note: u8, wrap_threshold: u8) -> (r: (u8, i8))
    requires
        note <= 127,
        wrap_threshold >= 1,
    ensures
        r.0 as int == spec_chord_idx(note, wrap_threshold),
        r.1 as int == spec_octave(note, wrap_threshold),
{
    let d: i32 = note as i32 - 60;
    let wt: i32 = wrap_threshold as i32;
    proof {
        lemma_fundamental_div_mod(d as int, wt as int);
        lemma_mod_bound(d as int, wt as int);
        assert(-60 <= d as int / wt as int <= 67) by (nonlinear_arith)
            requires
                1 <= wt <= 255,
                -60 <= d <= 67,
                d as int == (wt as int) * ((d as int) / (wt as int)) + (d as int) % (wt as int),
                0 <= (d as int) % (wt as int),
                ((d as int) % (wt as int)) < (wt as int),
        ;
    }
    let idx: i32 = d.checked_rem_euclid(wt).unwrap();
    let oct: i32 = d.checked_div_euclid(wt).unwrap();
    (idx as u8, oct as i8)
}

/// The mapping of one pitch against an ordered chord: slot index, octave,
/// and the triggered pitch when the chord has a note in that slot and the
/// transposed note stays within the legal pitch range.
pub open spec fn spec_chord_data(
    chord: Seq<u8>,
    note_value: u8,
    wrap_threshold: u8,
    octave_range: u8,
) -> PatternChordData {
    let idx = spec_chord_idx(note_value, wrap_threshold);
    let oct = spec_octave(note_value, wrap_threshold);
    PatternChordData {
        chord_idx: idx as u8,
        octave: oct as i8,
        triggered_note: if idx < chord.len() {
            let t = chord[idx] + oct * (octave_range as int);
            if 0 <= t <= 127 {
                Some(t as u8)
            } else {
                None
            }
        } else {
            None
        },
    }
}

/// Maps one pitch against the ordered chord, yielding its slot, octave and
/// triggered pitch if any.
pub fn get_chord_data(
    chord_vec: &Vec<u8>,
    note_value: u8,
    wrap_threshold: u8,
    octave_range: u8,
) -> (r: PatternChordData)
    requires
        note_value <= 127,
        wrap_threshold >= 1,
    ensures
        r == spec_chord_data(chord_vec@, note_value, wrap_threshold, octave_range),
{
    let (chord_idx, octave) = note_to_chord_idx_octave(note_value, wrap_threshold);

    let mut chord_data = PatternChordData { chord_idx, octave, triggered_note: None };

    if (chord_idx as usize) < chord_vec.len() {
        proof {
            assert(-128 * 255 <= octave as int * octave_range as int <= 127 * 255)
                by (nonlinear_arith)
                requires
                    -128 <= octave <= 127,
                    0 <= octave_range <= 255,
            ;
        }
        let t: i32 = chord_vec[chord_idx as usize] as i32 + octave as i32 * octave_range as i32;
        if 0 <= t && t <= 127 {
            chord_data.triggered_note = Some(t as u8);
        }
    }

    chord_data
}

/// For every pitch and wrap threshold, the slot index and octave assigned by
/// the chord-relative decomposition reconstruct the pitch:
/// `60 + octave * wrap_threshold + chord_idx == pitch`, with the slot index
/// always in `[0, wrap_threshold)`.
pub proof fn lemma_note_mapping_round_trip(note: u8, wrap_threshold: u8)
    requires
        wrap_threshold >= 1,
    ensures
        0 <= spec_chord_idx(note, wrap_threshold) < wrap_threshold,
        60 + spec_octave(note, wrap_threshold) * (wrap_threshold as int)
            + spec_chord_idx(note, wrap_threshold) == note,
{
    let d = note as int - 60;
    let wt = wrap_threshold as int;
    lemma_fundamental_div_mod(d, wt);
    lemma_mod_bound(d, wt);
    assert(d == wt * (d / wt) + d % wt);
    assert(wt * (d / wt) == (d / wt) * wt) by (nonlinear_arith);
}

/// The keyboard-mode filter keeps legal pitches legal: a raw pitch within
/// the MIDI range maps, if at all, to a pitch within the MIDI range.
pub proof fn lemma_keyboard_mode_range(raw_note: u8, keyboard_mode: KeyboardMode)
    requires
        raw_note <= 127,
    ensures
        match spec_apply_keyboard_mode(raw_note, keyboard_mode) {
            Some(k) => k <= 127,
            None => true,
        },
{
    match keyboard_mode {
        KeyboardMode::AllKeys => {},
        KeyboardMode::IgnoreBlackKeys => {
            if !spec_is_black_key(raw_note) {
                lemma_fundamental_div_mod(raw_note as int, 12);
                lemma_mod_bound(raw_note as int, 12);
                vstd::arithmetic::div_mod::lemma_div_is_ordered(raw_note as int, 127, 12);
            }
        },
    }
}

/// The pitch carried by a note event, when its kind has one.
pub open spec fn spec_note_of(e: NoteEvent) -> Option<u8> {
    match e {
        NoteEvent::NoteOn { note, .. } => Some(note),
        NoteEvent::NoteOff { note, .. } => Some(note),
        NoteEvent::Choke { note, .. } => Some(note),
        NoteEvent::PolyModulation { .. } => None,
    }
}

/// The channel carried by a note event, when its kind has one.
pub open spec fn spec_channel_of(e: NoteEvent) -> Option<u8> {
    match e {
        NoteEvent::NoteOn { channel, .. } => Some(channel),
        NoteEvent::NoteOff { channel, .. } => Some(channel),
        NoteEvent::Choke { channel, .. } => Some(channel),
        NoteEvent::PolyModulation { .. } => None,
    }
}

/// The velocity tag carried by a note event, when its kind has one.
pub open spec fn spec_velocity_of(e: NoteEvent) -> Option<u32> {
    match e {
        NoteEvent::NoteOn { velocity, .. } => Some(velocity),
        NoteEvent::NoteOff { velocity, .. } => Some(velocity),
        _ => None,
    }
}

/// The voice id carried by a note event, when its kind has one.
pub open spec fn spec_voice_id_of(e: NoteEvent) -> Option<i32> {
    match e {
        NoteEvent::NoteOn { voice_id, .. } => voice_id,
        NoteEvent::NoteOff { voice_id, .. } => voice_id,
        NoteEvent::Choke { voice_id, .. } => voice_id,
        NoteEvent::PolyModulation { .. } => None,
    }
}

/// The same event with its pitch replaced, when its kind carries one.
pub open spec fn spec_set_note(e: NoteEvent, new_note: u8) -> NoteEvent {
    match e {
        NoteEvent::NoteOn { timing, voice_id, channel, velocity, .. } =>
            NoteEvent::NoteOn { timing, voice_id, channel, note: new_note, velocity },
        NoteEvent::NoteOff { timing, voice_id, channel, velocity, .. } =>
            NoteEvent::NoteOff { timing, voice_id, channel, note: new_note, velocity },
        NoteEvent::Choke { timing, voice_id, channel, .. } =>
            NoteEvent::Choke { timing, voice_id, channel, note: new_note },
        NoteEvent::PolyModulation { .. } => e,
    }
}

/// Returns the pitch of the event, when its kind carries one.
pub fn get_note_of_event(note_event: &NoteEvent) -> (r: Option<u8>)
    ensures
        r == spec_note_of(*note_event),
{
    match note_event {
        NoteEvent::NoteOn { note, .. } => Some(*note),
        NoteEvent::NoteOff { note, .. } => Some(*note),
        NoteEvent::Choke { note, .. } => Some(*note),
        _ => None,
    }
}

/// Returns a copy of the event with its pitch replaced; kinds without a
/// pitch pass through unchanged.
pub fn set_note_of_event(note_event: &NoteEvent, new_note: u8) -> (r: NoteEvent)
    ensures
        r == spec_set_note(*note_event, new_note),
{
    match *note_event {
        NoteEvent::NoteOn { timing, voice_id, channel, velocity, .. } =>
            NoteEvent::NoteOn { timing, voice_id, channel, note: new_note, velocity },
        NoteEvent::NoteOff { timing, voice_id, channel, velocity, .. } =>
            NoteEvent::NoteOff { timing, voice_id, channel, note: new_note, velocity },
        NoteEvent::Choke { timing, voice_id, channel, .. } =>
            NoteEvent::Choke { timing, voice_id, channel, note: new_note },
        NoteEvent::PolyModulation { .. } => *note_event,
    }
}

/// Returns the velocity tag of the event, when its kind carries one.
pub fn get_velocity_of_event(note_event: &NoteEvent) -> (r: Option<u32>)
    ensures
        r == spec_velocity_of(*note_event),
{
    match note_event {
        NoteEvent::NoteOn { velocity, .. } => Some(*velocity),
        NoteEvent::NoteOff { velocity, .. } => Some(*velocity),
        _ => None,
    }
}

/// Returns the channel of the event, when its kind carries one.
pub fn get_channel_of_event(note_event: &NoteEvent) -> (r: Option<u8>)
    ensures
        r == spec_channel_of(*note_event),
{
    match note_event {
        NoteEvent::NoteOn { channel, .. } => Some(*channel),
        NoteEvent::NoteOff { channel, .. } => Some(*channel),
        NoteEvent::Choke { channel, .. } => Some(*channel),
        _ => None,
    }
}

/// The channel of an event for routing purposes: events without a channel
/// count as channel zero.
pub open spec fn spec_note_event_channel(e: NoteEvent) -> u8 {
    match spec_channel_of(e) {
        Some(c) => c,
        None => 0,
    }
}

/// Returns the channel of the event, with channel zero for kinds that carry
/// none.
pub fn get_note_event_channel(note_event: &NoteEvent) -> (r: u8)
    ensures
        r == spec_note_event_channel(*note_event),
{
    match note_event {
        NoteEvent::NoteOn { channel, .. } => *channel,
        NoteEvent::NoteOff { channel, .. } => *channel,
        NoteEvent::Choke { channel, .. } => *channel,
        _ => 0,
    }
}

/// Returns the voice id of the event, when its kind carries one.
pub fn get_voice_id_of_event(note_event: &NoteEvent) -> (r: Option<i32>)
    ensures
        r == spec_voice_id_of(*note_event),
{
    match note_event {
        NoteEvent::NoteOn { voice_id, .. } => *voice_id,
        NoteEvent::NoteOff { voice_id, .. } => *voice_id,
        NoteEvent::Choke { voice_id, .. } => *voice_id,
        _ => None,
    }
}

} // verus!
