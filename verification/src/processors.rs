//! The chord-pattern processor: held pattern keys, their chord mappings, and
//! the per-cycle diffing that emits the minimal set of note events.
//!
//! Per cycle, in strict order: queued releases drop their held entries and
//! emit note-offs for the pitches they had triggered; every remaining held
//! key is re-mapped against the current chord, and a changed mapping emits a
//! note-off for the old triggered pitch and a note-on for the new one;
//! queued presses are mapped, emit their note-ons, and become held entries.

use vstd::prelude::*;
use crate::active_note::{spec_note_data_of, ActiveNoteDefaultData};
use crate::chord::{spec_set_insert, spec_set_remove, spec_sorted_unique, ChordSet};
use crate::events::NoteEvent;
use crate::utils::{
    get_channel_of_event, get_chord_data, get_note_of_event, lemma_keyboard_mode_range,
    raw_note_apply_keyboard_mode, set_note_of_event, spec_apply_keyboard_mode, spec_channel_of,
    spec_chord_data, spec_note_of, spec_set_note, KeyboardMode,
};

verus! {

/// Where a pattern key falls relative to the current chord: its slot index,
/// its octave displacement, and the pitch it triggers when the chord has a
/// note in that slot.
#[derive(Clone, Copy, PartialEq, Eq, PartialOrd, Ord, Debug)]
pub struct PatternChordData {
    pub chord_idx: u8,
    pub octave: i8,
    pub triggered_note: Option<u8>,
}

impl PatternChordData {
    /// Returns whether the two mappings agree on all three components.
    pub fn same_mapping(&self, other: &PatternChordData) -> (r: bool)
        ensures
            r == (*self == *other),
    {
        let idx_eq = self.chord_idx == other.chord_idx;
        let oct_eq = self.octave == other.octave;
        let trig_eq = match (self.triggered_note, other.triggered_note) {
            (Some(a), Some(b)) => a == b,
            (None, None) => true,
            _ => false,
        };
        idx_eq && oct_eq && trig_eq
    }
}

/// One held pattern key: its current chord mapping and the data captured
/// when it was pressed.
#[derive(Clone, Copy, PartialEq, Debug)]
pub struct PatternData {
    pub chord_data: PatternChordData,
    pub note_data: ActiveNoteDefaultData,
}

/// The note-on a held key emits when its mapping triggers a pitch: the
/// triggered pitch with the channel, velocity and voice id captured at press
/// time.
pub open spec fn spec_note_on_msg(d: PatternData, timing: u32) -> Option<NoteEvent> {
    match d.chord_data.triggered_note {
        Some(n) => Some(
            NoteEvent::NoteOn {
                timing,
                voice_id: d.note_data.voice_id,
                channel: d.note_data.channel,
                note: n,
                velocity: d.note_data.velocity,
            },
        ),
        None => None,
    }
}

/// The matching note-off, with the same captured data.
pub open spec fn spec_note_off_msg(d: PatternData, timing: u32) -> Option<NoteEvent> {
    match d.chord_data.triggered_note {
        Some(n) => Some(
            NoteEvent::NoteOff {
                timing,
                voice_id: d.note_data.voice_id,
                channel: d.note_data.channel,
                note: n,
                velocity: d.note_data.velocity,
            },
        ),
        None => None,
    }
}

/// An optional event as a sequence of zero or one events.
pub open spec fn spec_opt_event(o: Option<NoteEvent>) -> Seq<NoteEvent> {
    match o {
        Some(e) => seq![e],
        None => Seq::empty(),
    }
}

impl PatternData {
    /// Returns the note-on this key emits, when its mapping triggers a pitch.
    pub fn note_on(&self, timing: u32) -> (r: Option<NoteEvent>)
        ensures
            r == spec_note_on_msg(*self, timing),
    {
        if let Some(modulated_note) = self.chord_data.triggered_note {
            Some(
                NoteEvent::NoteOn {
                    note: modulated_note,
                    channel: self.note_data.channel,
                    velocity: self.note_data.velocity,
                    voice_id: self.note_data.voice_id,
                    timing,
                },
            )
        } else {
            None
        }
    }

    /// Returns the matching note-off, when the mapping triggers a pitch.
    pub fn note_off(&self, timing: u32) -> (r: Option<NoteEvent>)
        ensures
            r == spec_note_off_msg(*self, timing),
    {
        if let Some(modulated_note) = self.chord_data.triggered_note {
            Some(
                NoteEvent::NoteOff {
                    note: modulated_note,
                    channel: self.note_data.channel,
                    velocity: self.note_data.velocity,
                    voice_id: self.note_data.voice_id,
                    timing,
                },
            )
        } else {
            None
        }
    }
}

/// Strictly ascending key order over held entries.
pub open spec fn spec_keys_sorted_unique(s: Seq<(u8, PatternData)>) -> bool {
    forall|i: int, j: int| 0 <= i < j < s.len() ==> s[i].0 < s[j].0
}

/// All held keys stay within the legal pitch range.
pub open spec fn spec_keys_in_range(s: Seq<(u8, PatternData)>) -> bool {
    forall|i: int| 0 <= i < s.len() ==> (#[trigger] s[i]).0 <= 127
}

/// The index of the first entry with the key, or -1 when the key is absent.
pub open spec fn spec_find_key(s: Seq<(u8, PatternData)>, key: u8) -> int
    decreases s.len(),
{
    if s.len() == 0 {
        -1
    } else if s[0].0 == key {
        0
    } else {
        let r = spec_find_key(s.drop_first(), key);
        if r < 0 { -1 } else { r + 1 }
    }
}

/// The entries with the key's entry replaced, or the entry inserted at its
/// sorted position when the key is absent.
pub open spec fn spec_map_insert(s: Seq<(u8, PatternData)>, key: u8, value: PatternData) -> Seq<
    (u8, PatternData),
>
    decreases s.len(),
{
    if s.len() == 0 {
        seq![(key, value)]
    } else if s[0].0 == key {
        seq![(key, value)] + s.drop_first()
    } else if s[0].0 > key {
        seq![(key, value)] + s
    } else {
        seq![s[0]] + spec_map_insert(s.drop_first(), key, value)
    }
}

proof fn lemma_find_key_props(s: Seq<(u8, PatternData)>, key: u8)
    ensures
        -1 <= spec_find_key(s, key) < s.len(),
        spec_find_key(s, key) >= 0 ==> s[spec_find_key(s, key)].0 == key,
        spec_find_key(s, key) < 0 ==> forall|j: int| 0 <= j < s.len()
            ==> (#[trigger] s[j]).0 != key,
    decreases s.len(),
{
    if s.len() > 0 && s[0].0 != key {
        lemma_find_key_props(s.drop_first(), key);
        if spec_find_key(s, key) < 0 {
            assert forall|j: int| 0 <= j < s.len() implies (#[trigger] s[j]).0 != key by {
                if j > 0 {
                    assert(s.drop_first()[j - 1] == s[j]);
                }
            }
        }
    }
}

proof fn lemma_find_key_at(s: Seq<(u8, PatternData)>, key: u8, i: int)
    requires
        0 <= i <= s.len(),
        forall|j: int| 0 <= j < i ==> (#[trigger] s[j]).0 != key,
        i < s.len() ==> s[i].0 == key,
    ensures
        i < s.len() ==> spec_find_key(s, key) == i,
        i == s.len() ==> spec_find_key(s, key) == -1,
    decreases s.len(),
{
    if s.len() > 0 && i > 0 {
        lemma_find_key_at(s.drop_first(), key, i - 1);
    }
}

proof fn lemma_map_insert_at(s: Seq<(u8, PatternData)>, key: u8, value: PatternData, i: int)
    requires
        spec_keys_sorted_unique(s),
        0 <= i <= s.len(),
        forall|j: int| 0 <= j < i ==> (#[trigger] s[j]).0 < key,
        i < s.len() ==> s[i].0 >= key,
    ensures
        (i < s.len() && s[i].0 == key) ==> spec_map_insert(s, key, value) == s.update(
            i,
            (key, value),
        ),
        !(i < s.len() && s[i].0 == key) ==> spec_map_insert(s, key, value) == s.insert(
            i,
            (key, value),
        ),
    decreases s.len(),
{
    if s.len() == 0 {
        assert(spec_map_insert(s, key, value) =~= s.insert(0, (key, value)));
    } else if i == 0 {
        if s[0].0 == key {
            assert(seq![(key, value)] + s.drop_first() =~= s.update(0, (key, value)));
        } else {
            assert(seq![(key, value)] + s =~= s.insert(0, (key, value)));
        }
    } else {
        let rest = s.drop_first();
        assert(spec_keys_sorted_unique(rest));
        lemma_map_insert_at(rest, key, value, i - 1);
        if i < s.len() && s[i].0 == key {
            assert(seq![s[0]] + rest.update(i - 1, (key, value)) =~= s.update(i, (key, value)));
        } else {
            assert(seq![s[0]] + rest.insert(i - 1, (key, value)) =~= s.insert(i, (key, value)));
        }
    }
}

/// Looks up the first held entry with the key.
fn find_key_index(held: &Vec<(u8, PatternData)>, key: u8) -> (r: Option<usize>)
    ensures
        match r {
            Some(i) => i < held@.len() && spec_find_key(held@, key) == i as int,
            None => spec_find_key(held@, key) < 0,
        },
{
    let mut i: usize = 0;
    while i < held.len()
        invariant
            i <= held@.len(),
            forall|j: int| 0 <= j < i ==> (#[trigger] held@[j]).0 != key,
        decreases held@.len() - i,
    {
        if held[i].0 == key {
            proof {
                lemma_find_key_at(held@, key, i as int);
            }
            return Some(i);
        }
        i = i + 1;
    }
    proof {
        lemma_find_key_at(held@, key, held@.len() as int);
    }
    None
}

/// Inserts a held entry at its sorted position, replacing the entry of an
/// already held key.
fn insert_held(held: &mut Vec<(u8, PatternData)>, key: u8, value: PatternData)
    requires
        spec_keys_sorted_unique(old(held)@),
    ensures
        final(held)@ == spec_map_insert(old(held)@, key, value),
        spec_keys_sorted_unique(final(held)@),
        (key <= 127 && spec_keys_in_range(old(held)@)) ==> spec_keys_in_range(final(held)@),
{
    let mut i: usize = 0;
    while i < held.len() && held[i].0 < key
        invariant
            i <= held@.len(),
            forall|j: int| 0 <= j < i ==> (#[trigger] held@[j]).0 < key,
            *held == *old(held),
        decreases held@.len() - i,
    {
        i = i + 1;
    }
    proof {
        lemma_map_insert_at(held@, key, value, i as int);
    }
    if i < held.len() && held[i].0 == key {
        held.set(i, (key, value));
        proof {
            let s = old(held)@;
            let t = held@;
            assert forall|a: int, b: int| 0 <= a < b < t.len() implies t[a].0 < t[b].0 by {
                assert(s[a].0 < s[b].0);
            }
        }
    } else {
        held.insert(i, (key, value));
        proof {
            let s = old(held)@;
            let t = held@;
            assert forall|a: int, b: int| 0 <= a < b < t.len() implies t[a].0 < t[b].0 by {
                if a < i && b > i {
                    assert(s[a].0 < key && s[b - 1].0 >= key && s[b - 1].0 != key);
                }
            }
        }
    }
}

/// What one queued release does: the mapped key's entry leaves the held map,
/// and the pitch it had triggered gets its note-off at the release event's
/// own timing.
pub open spec fn spec_release_one(
    e: NoteEvent,
    held: Seq<(u8, PatternData)>,
    keyboard_mode: KeyboardMode,
) -> (Seq<(u8, PatternData)>, Seq<NoteEvent>) {
    match spec_note_of(e) {
        None => (held, Seq::empty()),
        Some(raw) => match spec_apply_keyboard_mode(raw, keyboard_mode) {
            None => (held, Seq::empty()),
            Some(key) => {
                let idx = spec_find_key(held, key);
                if idx >= 0 {
                    (held.remove(idx), spec_opt_event(spec_note_off_msg(held[idx].1, e.spec_timing())))
                } else {
                    (held, Seq::empty())
                }
            },
        },
    }
}

/// All queued releases applied in the order received.
pub open spec fn spec_apply_releases(
    events: Seq<NoteEvent>,
    held: Seq<(u8, PatternData)>,
    keyboard_mode: KeyboardMode,
) -> (Seq<(u8, PatternData)>, Seq<NoteEvent>)
    decreases events.len(),
{
    if events.len() == 0 {
        (held, Seq::empty())
    } else {
        let first = spec_release_one(events[0], held, keyboard_mode);
        let rest = spec_apply_releases(events.drop_first(), first.0, keyboard_mode);
        (rest.0, first.1 + rest.1)
    }
}

/// One held entry after re-evaluation: the same key and press-time data,
/// with the mapping recomputed against the current chord.
pub open spec fn spec_reeval_entry(
    entry: (u8, PatternData),
    chord: Seq<u8>,
    wrap_threshold: u8,
    octave_range: u8,
) -> (u8, PatternData) {
    (
        entry.0,
        PatternData {
            chord_data: spec_chord_data(chord, entry.0, wrap_threshold, octave_range),
            note_data: entry.1.note_data,
        },
    )
}

/// The events one held entry emits on re-evaluation: nothing when its
/// mapping is unchanged; otherwise the note-off of the old triggered pitch
/// followed by the note-on of the new one, at the cycle's boundary timing.
pub open spec fn spec_reeval_entry_events(
    entry: (u8, PatternData),
    chord: Seq<u8>,
    wrap_threshold: u8,
    octave_range: u8,
    timing: u32,
) -> Seq<NoteEvent> {
    let new_cd = spec_chord_data(chord, entry.0, wrap_threshold, octave_range);
    if entry.1.chord_data == new_cd {
        Seq::empty()
    } else {
        spec_opt_event(spec_note_off_msg(entry.1, timing)) + spec_opt_event(
            spec_note_on_msg(
                PatternData { chord_data: new_cd, note_data: entry.1.note_data },
                timing,
            ),
        )
    }
}

/// The held map after re-evaluating every entry against the current chord.
pub open spec fn spec_reeval_held(
    held: Seq<(u8, PatternData)>,
    chord: Seq<u8>,
    wrap_threshold: u8,
    octave_range: u8,
) -> Seq<(u8, PatternData)> {
    held.map_values(|entry: (u8, PatternData)| spec_reeval_entry(entry, chord, wrap_threshold, octave_range))
}

/// The events of re-evaluating every held entry, in ascending key order.
pub open spec fn spec_reeval_events(
    held: Seq<(u8, PatternData)>,
    chord: Seq<u8>,
    wrap_threshold: u8,
    octave_range: u8,
    timing: u32,
) -> Seq<NoteEvent>
    decreases held.len(),
{
    if held.len() == 0 {
        Seq::empty()
    } else {
        spec_reeval_events(held.drop_last(), chord, wrap_threshold, octave_range, timing)
            + spec_reeval_entry_events(held.last(), chord, wrap_threshold, octave_range, timing)
    }
}

/// What one queued press does: the filtered key is mapped against the chord,
/// emits the note-on of its triggered pitch at the press event's own timing,
/// and becomes a held entry, overwriting an entry already at that key. A
/// press the keyboard mode filters out is dropped.
pub open spec fn spec_press_one(
    e: NoteEvent,
    held: Seq<(u8, PatternData)>,
    chord: Seq<u8>,
    wrap_threshold: u8,
    octave_range: u8,
    keyboard_mode: KeyboardMode,
) -> (Seq<(u8, PatternData)>, Seq<NoteEvent>) {
    match spec_note_of(e) {
        None => (held, Seq::empty()),
        Some(raw) => match spec_apply_keyboard_mode(raw, keyboard_mode) {
            None => (held, Seq::empty()),
            Some(key) => {
                let pd = PatternData {
                    chord_data: spec_chord_data(chord, key, wrap_threshold, octave_range),
                    note_data: spec_note_data_of(e),
                };
                (
                    spec_map_insert(held, key, pd),
                    spec_opt_event(spec_note_on_msg(pd, e.spec_timing())),
                )
            },
        },
    }
}

/// All queued presses applied in the order received.
pub open spec fn spec_apply_presses(
    events: Seq<NoteEvent>,
    held: Seq<(u8, PatternData)>,
    chord: Seq<u8>,
    wrap_threshold: u8,
    octave_range: u8,
    keyboard_mode: KeyboardMode,
) -> (Seq<(u8, PatternData)>, Seq<NoteEvent>)
    decreases events.len(),
{
    if events.len() == 0 {
        (held, Seq::empty())
    } else {
        let first = spec_press_one(events[0], held, chord, wrap_threshold, octave_range, keyboard_mode);
        let rest = spec_apply_presses(
            events.drop_first(),
            first.0,
            chord,
            wrap_threshold,
            octave_range,
            keyboard_mode,
        );
        (rest.0, first.1 + rest.1)
    }
}

/// One whole cycle over the queued events and held keys: releases first,
/// then the chord re-evaluation of what stays held, then presses; the chord
/// itself is left alone.
pub open spec fn spec_end_cycle(
    pressed: Seq<NoteEvent>,
    released: Seq<NoteEvent>,
    held: Seq<(u8, PatternData)>,
    chord: Seq<u8>,
    timing: u32,
    wrap_threshold: u8,
    octave_range: u8,
    keyboard_mode: KeyboardMode,
) -> (Seq<(u8, PatternData)>, Seq<NoteEvent>) {
    let releases = spec_apply_releases(released, held, keyboard_mode);
    let reevaluated = spec_reeval_held(releases.0, chord, wrap_threshold, octave_range);
    let reeval_events = spec_reeval_events(releases.0, chord, wrap_threshold, octave_range, timing);
    let presses = spec_apply_presses(
        pressed,
        reevaluated,
        chord,
        wrap_threshold,
        octave_range,
        keyboard_mode,
    );
    (presses.0, releases.1 + reeval_events + presses.1)
}

/// An event whose pitch, if it has one, is a legal MIDI pitch.
pub open spec fn spec_event_pitch_ok(e: NoteEvent) -> bool {
    match spec_note_of(e) {
        Some(n) => n <= 127,
        None => true,
    }
}

/// All queued events carry legal pitches.
pub open spec fn spec_queue_pitches_ok(q: Seq<NoteEvent>) -> bool {
    forall|i: int| 0 <= i < q.len() ==> spec_event_pitch_ok(#[trigger] q[i])
}

/// The state of the harmonic engine between cycles: the two pending queues,
/// the held pattern keys in ascending key order, and the current chord.
pub struct ChordPatternProcessor {
    pub pressed_pattern_keys: Vec<NoteEvent>,
    pub released_pattern_keys: Vec<NoteEvent>,
    pub held_pattern_keys: Vec<(u8, PatternData)>,
    pub chord: ChordSet,
}

impl ChordPatternProcessor {
    /// Well-formedness: held keys strictly ascending and within the legal
    /// pitch range, the chord in ascending order without duplicates, and
    /// pending presses carrying legal pitches.
    pub open spec fn wf(&self) -> bool {
        &&& spec_keys_sorted_unique(self.held_pattern_keys@)
        &&& spec_keys_in_range(self.held_pattern_keys@)
        &&& spec_sorted_unique(self.chord@)
        &&& spec_queue_pitches_ok(self.pressed_pattern_keys@)
    }
}

impl Default for ChordPatternProcessor {
    /// A processor with nothing queued, nothing held and an empty chord.
    fn default() -> (r: ChordPatternProcessor)
        ensures
            r.pressed_pattern_keys@ == Seq::<NoteEvent>::empty(),
            r.released_pattern_keys@ == Seq::<NoteEvent>::empty(),
            r.held_pattern_keys@ == Seq::<(u8, PatternData)>::empty(),
            r.chord@ == Seq::<u8>::empty(),
            r.wf(),
    {
        ChordPatternProcessor {
            pressed_pattern_keys: Vec::new(),
            released_pattern_keys: Vec::new(),
            held_pattern_keys: Vec::new(),
            chord: ChordSet::new(),
        }
    }
}

/// The chord after one chord-channel event: a note-on inserts its pitch, a
/// note-off removes it, anything else changes nothing.
pub open spec fn spec_process_chord_event(chord: Seq<u8>, e: NoteEvent) -> Seq<u8> {
    match e {
        NoteEvent::NoteOn { note, .. } => spec_set_insert(chord, note),
        NoteEvent::NoteOff { note, .. } => spec_set_remove(chord, note),
        _ => chord,
    }
}

/// The pending queues after one pattern-channel event: a note-on queues as a
/// press, a note-off as a release, anything else changes nothing.
pub open spec fn spec_process_pattern_event(
    pressed: Seq<NoteEvent>,
    released: Seq<NoteEvent>,
    e: NoteEvent,
) -> (Seq<NoteEvent>, Seq<NoteEvent>) {
    match e {
        NoteEvent::NoteOn { .. } => (pressed.push(e), released),
        NoteEvent::NoteOff { .. } => (pressed, released.push(e)),
        _ => (pressed, released),
    }
}

/// The effective wrap threshold: the chord size floored to one in auto mode,
/// the configured threshold otherwise.
pub open spec fn spec_threshold(chord: Seq<u8>, auto_threshold: bool, wrap_threshold: u8) -> u8 {
    if auto_threshold {
        if 1 <= chord.len() <= 255 {
            chord.len() as u8
        } else {
            1
        }
    } else {
        wrap_threshold
    }
}

impl ChordPatternProcessor {
    /// Applies a chord-channel event to the chord.
    pub fn process_chord_event(&mut self, e: NoteEvent)
        requires
            old(self).wf(),
        ensures
            final(self).wf(),
            final(self).chord@ == spec_process_chord_event(old(self).chord@, e),
            final(self).pressed_pattern_keys@ == old(self).pressed_pattern_keys@,
            final(self).released_pattern_keys@ == old(self).released_pattern_keys@,
            final(self).held_pattern_keys@ == old(self).held_pattern_keys@,
    {
        match e {
            NoteEvent::NoteOn { note, .. } => {
                self.chord.insert(note);
            },
            NoteEvent::NoteOff { note, .. } => {
                self.chord.remove(note);
            },
            _ => {},
        }
    }

    /// Queues a pattern-channel event for the end of the cycle.
    pub fn process_pattern_event(&mut self, e: NoteEvent)
        requires
            old(self).wf(),
            spec_event_pitch_ok(e),
        ensures
            final(self).wf(),
            (final(self).pressed_pattern_keys@, final(self).released_pattern_keys@)
                == spec_process_pattern_event(
                old(self).pressed_pattern_keys@,
                old(self).released_pattern_keys@,
                e,
            ),
            final(self).held_pattern_keys@ == old(self).held_pattern_keys@,
            final(self).chord@ == old(self).chord@,
    {
        match e {
            NoteEvent::NoteOn { .. } => {
                self.pressed_pattern_keys.push(e);
            },
            NoteEvent::NoteOff { .. } => {
                self.released_pattern_keys.push(e);
            },
            _ => {},
        }
    }

    /// Returns the effective wrap threshold, at least one.
    pub fn get_threshold(&self, auto_threshold: bool, wrap_threshold: u8) -> (r: u8)
        requires
            wrap_threshold >= 1,
        ensures
            r == spec_threshold(self.chord@, auto_threshold, wrap_threshold),
            r >= 1,
    {
        if auto_threshold {
            let l = self.chord.len();
            if 1 <= l && l <= 255 {
                l as u8
            } else {
                1
            }
        } else {
            wrap_threshold
        }
    }
}

proof fn lemma_sorted_remove(s: Seq<(u8, PatternData)>, idx: int)
    requires
        spec_keys_sorted_unique(s),
        spec_keys_in_range(s),
        0 <= idx < s.len(),
    ensures
        spec_keys_sorted_unique(s.remove(idx)),
        spec_keys_in_range(s.remove(idx)),
{
    let t = s.remove(idx);
    assert forall|a: int, b: int| 0 <= a < b < t.len() implies t[a].0 < t[b].0 by {
        if a >= idx {
            assert(t[a] == s[a + 1] && t[b] == s[b + 1]);
        } else if b >= idx {
            assert(t[a] == s[a] && t[b] == s[b + 1]);
        } else {
            assert(t[a] == s[a] && t[b] == s[b]);
        }
    }
    assert forall|a: int| 0 <= a < t.len() implies (#[trigger] t[a]).0 <= 127 by {
        if a >= idx {
            assert(t[a] == s[a + 1]);
        } else {
            assert(t[a] == s[a]);
        }
    }
}

impl ChordPatternProcessor {
    /// Runs one cycle: queued releases in order received, then the chord
    /// re-evaluation of every still-held key in ascending key order, then
    /// queued presses in order received. Both queues drain completely; the
    /// chord is left alone; the emitted events are appended to
    /// `send_events` in that order.
    fn apply_pattern_changes(
        &mut self,
        send_events: &mut Vec<NoteEvent>,
        timing: u32,
        wrap_threshold: u8,
        octave_range: u8,
        keyboard_mode: KeyboardMode,
    )
        requires
            old(self).wf(),
            wrap_threshold >= 1,
        ensures
            final(self).wf(),
            final(self).chord == old(self).chord,
            final(self).pressed_pattern_keys@ == Seq::<NoteEvent>::empty(),
            final(self).released_pattern_keys@ == Seq::<NoteEvent>::empty(),
            ({
                let r = spec_end_cycle(
                    old(self).pressed_pattern_keys@,
                    old(self).released_pattern_keys@,
                    old(self).held_pattern_keys@,
                    old(self).chord@,
                    timing,
                    wrap_threshold,
                    octave_range,
                    keyboard_mode,
                );
                final(self).held_pattern_keys@ == r.0 && final(send_events)@ == old(send_events)@
                    + r.1
            }),
    {
        let chord_vec = self.chord.as_ordered_sequence();
        let ghost chord0 = self.chord;
        let ghost pressed0 = self.pressed_pattern_keys@;

        // Queued releases, in the order received.
        let released = self.released_pattern_keys.split_off(0);
        let ghost total_rel = spec_apply_releases(
            released@,
            self.held_pattern_keys@,
            keyboard_mode,
        );
        let ghost base_events = send_events@;
        let ghost mut emitted: Seq<NoteEvent> = Seq::empty();
        proof {
            assert(released@.skip(0) =~= released@);
            assert(base_events + emitted =~= base_events);
            assert(emitted + total_rel.1 =~= total_rel.1);
        }
        let mut i: usize = 0;
        while i < released.len()
            invariant
                i <= released@.len(),
                spec_keys_sorted_unique(self.held_pattern_keys@),
                spec_keys_in_range(self.held_pattern_keys@),
                self.chord == chord0,
                self.pressed_pattern_keys@ == pressed0,
                self.released_pattern_keys@ == Seq::<NoteEvent>::empty(),
                send_events@ == base_events + emitted,
                spec_apply_releases(
                    released@.skip(i as int),
                    self.held_pattern_keys@,
                    keyboard_mode,
                ).0 == total_rel.0,
                emitted + spec_apply_releases(
                    released@.skip(i as int),
                    self.held_pattern_keys@,
                    keyboard_mode,
                ).1 == total_rel.1,
            decreases released@.len() - i,
        {
            let ghost held_before = self.held_pattern_keys@;
            let ghost emitted_before = emitted;
            let note_event = released[i];
            proof {
                assert(released@.skip(i as int)[0] == note_event);
            }
            let ghost step = spec_release_one(note_event, held_before, keyboard_mode);
            match get_note_of_event(&note_event) {
                Some(note) => {
                    match raw_note_apply_keyboard_mode(note, &keyboard_mode) {
                        Some(raw_note) => {
                            proof {
                                lemma_find_key_props(self.held_pattern_keys@, raw_note);
                            }
                            match find_key_index(&self.held_pattern_keys, raw_note) {
                                Some(idx) => {
                                    let active_note = self.held_pattern_keys[idx];
                                    self.held_pattern_keys.remove(idx);
                                    proof {
                                        lemma_sorted_remove(held_before, idx as int);
                                        assert(spec_find_key(held_before, raw_note) == idx as int);
                                        assert(step.0 == held_before.remove(idx as int));
                                    }
                                    match active_note.1.note_off(note_event.timing()) {
                                        Some(modulated_event) => {
                                            send_events.push(modulated_event);
                                        },
                                        None => {},
                                    }
                                },
                                None => {},
                            }
                        },
                        None => {},
                    }
                },
                None => {},
            }
            proof {
                emitted = emitted_before + step.1;
                let k = i as int;
                assert(self.held_pattern_keys@ == step.0);
                assert(send_events@ =~= base_events + emitted);
                assert(released@.skip(k).drop_first() =~= released@.skip(k + 1));
                let rest = spec_apply_releases(
                    released@.skip(k + 1),
                    self.held_pattern_keys@,
                    keyboard_mode,
                );
                assert(spec_apply_releases(released@.skip(k), held_before, keyboard_mode).1
                    == step.1 + rest.1);
                assert(emitted_before + (step.1 + rest.1) =~= emitted + rest.1);
            }
            i = i + 1;
        }
        proof {
            assert(released@.skip(released@.len() as int) =~= Seq::<NoteEvent>::empty());
            assert(self.held_pattern_keys@ == total_rel.0);
            assert(emitted == total_rel.1);
        }

        // Chord re-evaluation of every still-held key, in ascending key order.
        let old_held = self.held_pattern_keys.split_off(0);
        let ghost base2 = send_events@;
        let mut new_held: Vec<(u8, PatternData)> = Vec::new();
        proof {
            assert(new_held@ =~= spec_reeval_held(
                old_held@.take(0),
                chord_vec@,
                wrap_threshold,
                octave_range,
            ));
            assert(send_events@ =~= base2 + spec_reeval_events(
                old_held@.take(0),
                chord_vec@,
                wrap_threshold,
                octave_range,
                timing,
            ));
        }
        let mut i: usize = 0;
        while i < old_held.len()
            invariant
                i <= old_held@.len(),
                spec_keys_sorted_unique(old_held@),
                spec_keys_in_range(old_held@),
                wrap_threshold >= 1,
                chord_vec@ == chord0@,
                new_held@ == spec_reeval_held(
                    old_held@.take(i as int),
                    chord_vec@,
                    wrap_threshold,
                    octave_range,
                ),
                send_events@ == base2 + spec_reeval_events(
                    old_held@.take(i as int),
                    chord_vec@,
                    wrap_threshold,
                    octave_range,
                    timing,
                ),
            decreases old_held@.len() - i,
        {
            let entry = old_held[i];
            let key = entry.0;
            let data = entry.1;
            let chord_data = get_chord_data(&chord_vec, key, wrap_threshold, octave_range);
            if !data.chord_data.same_mapping(&chord_data) {
                match data.note_off(timing) {
                    Some(modulated_event) => {
                        send_events.push(modulated_event);
                    },
                    None => {},
                }
                let updated = PatternData { chord_data, note_data: data.note_data };
                match updated.note_on(timing) {
                    Some(modulated_event) => {
                        send_events.push(modulated_event);
                    },
                    None => {},
                }
                new_held.push((key, updated));
            } else {
                new_held.push((key, data));
            }
            proof {
                assert(old_held@.take(i as int + 1).drop_last() =~= old_held@.take(i as int));
                assert(old_held@.take(i as int + 1).last() == entry);
                assert(new_held@ =~= spec_reeval_held(
                    old_held@.take(i as int + 1),
                    chord_vec@,
                    wrap_threshold,
                    octave_range,
                ));
                assert(send_events@ =~= base2 + spec_reeval_events(
                    old_held@.take(i as int + 1),
                    chord_vec@,
                    wrap_threshold,
                    octave_range,
                    timing,
                ));
            }
            i = i + 1;
        }
        proof {
            assert(old_held@.take(old_held@.len() as int) =~= old_held@);
        }
        self.held_pattern_keys = new_held;
        proof {
            let re = spec_reeval_held(old_held@, chord_vec@, wrap_threshold, octave_range);
            assert forall|a: int, b: int| 0 <= a < b < re.len() implies re[a].0 < re[b].0 by {
                assert(re[a].0 == old_held@[a].0 && re[b].0 == old_held@[b].0);
            }
            assert forall|a: int| 0 <= a < re.len() implies (#[trigger] re[a]).0 <= 127 by {
                assert(re[a].0 == old_held@[a].0);
            }
        }

        // Queued presses, in the order received.
        let pressed = self.pressed_pattern_keys.split_off(0);
        let ghost held2 = self.held_pattern_keys@;
        let ghost total_press = spec_apply_presses(
            pressed@,
            held2,
            chord_vec@,
            wrap_threshold,
            octave_range,
            keyboard_mode,
        );
        let ghost base3 = send_events@;
        let ghost mut emitted3: Seq<NoteEvent> = Seq::empty();
        proof {
            assert(pressed@.skip(0) =~= pressed@);
            assert(base3 + emitted3 =~= base3);
            assert(emitted3 + total_press.1 =~= total_press.1);
        }
        let mut i: usize = 0;
        while i < pressed.len()
            invariant
                i <= pressed@.len(),
                spec_keys_sorted_unique(self.held_pattern_keys@),
                spec_keys_in_range(self.held_pattern_keys@),
                spec_queue_pitches_ok(pressed@),
                wrap_threshold >= 1,
                chord_vec@ == chord0@,
                self.chord == chord0,
                self.pressed_pattern_keys@ == Seq::<NoteEvent>::empty(),
                self.released_pattern_keys@ == Seq::<NoteEvent>::empty(),
                send_events@ == base3 + emitted3,
                spec_apply_presses(
                    pressed@.skip(i as int),
                    self.held_pattern_keys@,
                    chord_vec@,
                    wrap_threshold,
                    octave_range,
                    keyboard_mode,
                ).0 == total_press.0,
                emitted3 + spec_apply_presses(
                    pressed@.skip(i as int),
                    self.held_pattern_keys@,
                    chord_vec@,
                    wrap_threshold,
                    octave_range,
                    keyboard_mode,
                ).1 == total_press.1,
            decreases pressed@.len() - i,
        {
            let ghost held_before = self.held_pattern_keys@;
            let ghost emitted_before = emitted3;
            let note_event = pressed[i];
            proof {
                assert(pressed@.skip(i as int)[0] == note_event);
                assert(spec_event_pitch_ok(note_event));
            }
            let ghost step = spec_press_one(
                note_event,
                held_before,
                chord_vec@,
                wrap_threshold,
                octave_range,
                keyboard_mode,
            );
            match get_note_of_event(&note_event) {
                Some(note) => {
                    proof {
                        lemma_keyboard_mode_range(note, keyboard_mode);
                    }
                    match raw_note_apply_keyboard_mode(note, &keyboard_mode) {
                        Some(raw_note) => {
                            let chord_data = get_chord_data(
                                &chord_vec,
                                raw_note,
                                wrap_threshold,
                                octave_range,
                            );
                            let active_note = PatternData {
                                chord_data,
                                note_data: ActiveNoteDefaultData::from_note_event(&note_event),
                            };
                            match active_note.note_on(note_event.timing()) {
                                Some(modulated_event) => {
                                    send_events.push(modulated_event);
                                },
                                None => {},
                            }
                            insert_held(&mut self.held_pattern_keys, raw_note, active_note);
                        },
                        None => {},
                    }
                },
                None => {},
            }
            proof {
                emitted3 = emitted_before + step.1;
                let k = i as int;
                assert(self.held_pattern_keys@ == step.0);
                assert(send_events@ =~= base3 + emitted3);
                assert(pressed@.skip(k).drop_first() =~= pressed@.skip(k + 1));
                let rest = spec_apply_presses(
                    pressed@.skip(k + 1),
                    self.held_pattern_keys@,
                    chord_vec@,
                    wrap_threshold,
                    octave_range,
                    keyboard_mode,
                );
                assert(spec_apply_presses(
                    pressed@.skip(k),
                    held_before,
                    chord_vec@,
                    wrap_threshold,
                    octave_range,
                    keyboard_mode,
                ).1 == step.1 + rest.1);
                assert(emitted_before + (step.1 + rest.1) =~= emitted3 + rest.1);
            }
            i = i + 1;
        }
        proof {
            assert(pressed@.skip(pressed@.len() as int) =~= Seq::<NoteEvent>::empty());
            assert(self.held_pattern_keys@ == total_press.0);
            assert(emitted3 + Seq::<NoteEvent>::empty() =~= emitted3);
            assert(emitted3 == total_press.1);

            let a = total_rel.1;
            let b = spec_reeval_events(old_held@, chord_vec@, wrap_threshold, octave_range, timing);
            let c = total_press.1;
            assert(send_events@ == base3 + c);
            assert(base3 == base2 + b);
            assert(base2 == base_events + a);
            assert(send_events@ =~= base_events + (a + b + c));

            assert(released@ =~= old(self).released_pattern_keys@);
            assert(pressed@ =~= old(self).pressed_pattern_keys@);
            assert(old_held@ == spec_apply_releases(
                old(self).released_pattern_keys@,
                old(self).held_pattern_keys@,
                keyboard_mode,
            ).0);
            assert(held2 == spec_reeval_held(old_held@, chord_vec@, wrap_threshold, octave_range));
            assert(chord_vec@ == old(self).chord@);
        }
    }

    /// Runs one end-of-cycle diff: releases, chord re-evaluation, presses,
    /// appending the emitted events to `send_events` in that order.
    pub fn end_cycle(
        &mut self,
        send_events: &mut Vec<NoteEvent>,
        timing: u32,
        wrap_threshold: u8,
        octave_range: u8,
        keyboard_mode: KeyboardMode,
    )
        requires
            old(self).wf(),
            wrap_threshold >= 1,
        ensures
            final(self).wf(),
            final(self).chord == old(self).chord,
            final(self).pressed_pattern_keys@ == Seq::<NoteEvent>::empty(),
            final(self).released_pattern_keys@ == Seq::<NoteEvent>::empty(),
            ({
                let r = spec_end_cycle(
                    old(self).pressed_pattern_keys@,
                    old(self).released_pattern_keys@,
                    old(self).held_pattern_keys@,
                    old(self).chord@,
                    timing,
                    wrap_threshold,
                    octave_range,
                    keyboard_mode,
                );
                final(self).held_pattern_keys@ == r.0 && final(send_events)@ == old(send_events)@
                    + r.1
            }),
    {
        self.apply_pattern_changes(send_events, timing, wrap_threshold, octave_range, keyboard_mode);
    }

    /// Processes one block of incoming events: batches them by timing,
    /// flushing a cycle at every boundary and once more at the end, routes
    /// chord-channel events to the chord and pattern note events to the
    /// queues, and finally remaps the buffered pass-through events onto the
    /// chord. Returns the events to send, in emission order.
    pub fn process_block(&mut self, events: &Vec<NoteEvent>, params: PatternsParams) -> (r: Vec<
        NoteEvent,
    >)
        requires
            old(self).wf(),
            params.wrap_threshold >= 1,
            params.chord_channel >= 1,
            spec_queue_pitches_ok(events@),
        ensures
            final(self).wf(),
            ({
                let b = spec_process_block(old(self)@, events@, params);
                final(self)@ == b.0 && r@ == b.1
            }),
    {
        let ghost total = spec_route_events(
            old(self)@,
            events@,
            Seq::empty(),
            999u32,
            Seq::empty(),
            params,
        );
        let mut out: Vec<NoteEvent> = Vec::new();
        let mut other_events: Vec<NoteEvent> = Vec::new();
        let mut sample_id: u32 = 999;

        proof {
            assert(events@.skip(0) =~= events@);
        }
        let mut i: usize = 0;
        while i < events.len()
            invariant
                i <= events@.len(),
                self.wf(),
                params.wrap_threshold >= 1,
                params.chord_channel >= 1,
                spec_queue_pitches_ok(events@),
                spec_queue_pitches_ok(other_events@),
                spec_route_events(
                    self@,
                    events@.skip(i as int),
                    other_events@,
                    sample_id,
                    out@,
                    params,
                ) == total,
            decreases events@.len() - i,
        {
            let ghost k = i as int;
            let event = events[i];
            proof {
                assert(events@.skip(k)[0] == event);
                assert(spec_event_pitch_ok(event));
            }
            let ghost s_before = self@;
            let ghost other_before = other_events@;
            let ghost out_before = out@;
            let ghost sid_before = sample_id;

            if event.timing() != sample_id {
                let threshold = self.get_threshold(params.auto_threshold, params.wrap_threshold);
                self.end_cycle(
                    &mut out,
                    sample_id,
                    threshold,
                    params.octave_range,
                    params.key_mode,
                );
                out.append(&mut other_events);
                sample_id = event.timing();
                proof {
                    let f = spec_flush(s_before, other_before, sid_before, out_before, params);
                    assert(self@ == f.0);
                    assert(out@ =~= f.1);
                    assert(other_events@ =~= Seq::<NoteEvent>::empty());
                }
            }
            let ghost s_flushed = self@;
            let ghost other_flushed = other_events@;

            let note_channel = get_channel_of_event(&event);
            let is_chord_event = match note_channel {
                Some(c) => c == params.chord_channel - 1,
                None => false,
            };
            if is_chord_event {
                self.process_chord_event(event);
            } else {
                match event {
                    NoteEvent::NoteOn { .. } | NoteEvent::NoteOff { .. } => {
                        self.process_pattern_event(event);
                    },
                    _ => {
                        other_events.push(event);
                    },
                }
            }
            proof {
                let routed = spec_route_event(s_flushed, event, params);
                assert(self@ == routed.0);
                assert(other_events@ =~= other_flushed + routed.1);
                assert(events@.skip(k).drop_first() =~= events@.skip(k + 1));
            }
            i = i + 1;
        }
        proof {
            assert(events@.skip(events@.len() as int) =~= Seq::<NoteEvent>::empty());
            assert(total == (self@, other_events@, sample_id, out@));
        }

        let threshold = self.get_threshold(params.auto_threshold, params.wrap_threshold);
        self.end_cycle(&mut out, sample_id, threshold, params.octave_range, params.key_mode);

        let ghost after_cycle = out@;
        let chord_vec = self.chord.as_ordered_sequence();
        proof {
            assert(after_cycle + spec_modulate_others(
                other_events@.take(0),
                chord_vec@,
                threshold,
                params.octave_range,
            ) =~= after_cycle);
        }
        let mut j: usize = 0;
        while j < other_events.len()
            invariant
                j <= other_events@.len(),
                threshold >= 1,
                spec_queue_pitches_ok(other_events@),
                out@ == after_cycle + spec_modulate_others(
                    other_events@.take(j as int),
                    chord_vec@,
                    threshold,
                    params.octave_range,
                ),
            decreases other_events@.len() - j,
        {
            let other_event = other_events[j];
            proof {
                assert(spec_event_pitch_ok(other_event));
            }
            match get_note_of_event(&other_event) {
                Some(raw_note) => {
                    let chord_data = get_chord_data(
                        &chord_vec,
                        raw_note,
                        threshold,
                        params.octave_range,
                    );
                    match chord_data.triggered_note {
                        Some(triggered_note) => {
                            out.push(set_note_of_event(&other_event, triggered_note));
                        },
                        None => {},
                    }
                },
                None => {},
            }
            proof {
                assert(other_events@.take(j as int + 1).drop_last() =~= other_events@.take(
                    j as int,
                ));
                assert(other_events@.take(j as int + 1).last() == other_event);
                assert(out@ =~= after_cycle + spec_modulate_others(
                    other_events@.take(j as int + 1),
                    chord_vec@,
                    threshold,
                    params.octave_range,
                ));
            }
            j = j + 1;
        }
        proof {
            assert(other_events@.take(other_events@.len() as int) =~= other_events@);
            let b = spec_process_block(old(self)@, events@, params);
            assert(out@ =~= b.1);
            assert(self@ == b.0);
        }
        out
    }
}

/// A cycle-boundary snapshot of the processor's state, for stating what a
/// whole processing block does.
pub ghost struct ProcessorSnapshot {
    pub pressed: Seq<NoteEvent>,
    pub released: Seq<NoteEvent>,
    pub held: Seq<(u8, PatternData)>,
    pub chord: Seq<u8>,
}

impl View for ChordPatternProcessor {
    type V = ProcessorSnapshot;

    open spec fn view(&self) -> ProcessorSnapshot {
        ProcessorSnapshot {
            pressed: self.pressed_pattern_keys@,
            released: self.released_pattern_keys@,
            held: self.held_pattern_keys@,
            chord: self.chord@,
        }
    }
}

/// The host-facing configuration of the harmonic engine for one block.
#[derive(Clone, Copy, PartialEq, Eq, Debug)]
pub struct PatternsParams {
    /// Which channel's note events feed the chord, counted from one.
    pub chord_channel: u8,
    /// The configured wrap threshold, used when `auto_threshold` is off.
    pub wrap_threshold: u8,
    /// Whether the wrap threshold tracks the live chord size.
    pub auto_threshold: bool,
    /// The pitch distance applied per octave of remapping.
    pub octave_range: u8,
    /// How raw pattern-key pitches are filtered before mapping.
    pub key_mode: KeyboardMode,
}

/// A cycle boundary within a block: the pending queues run through one
/// cycle, and the buffered pass-through events follow the cycle's output.
pub open spec fn spec_flush(
    s: ProcessorSnapshot,
    other: Seq<NoteEvent>,
    sample_id: u32,
    out: Seq<NoteEvent>,
    params: PatternsParams,
) -> (ProcessorSnapshot, Seq<NoteEvent>) {
    let threshold = spec_threshold(s.chord, params.auto_threshold, params.wrap_threshold);
    let cycle = spec_end_cycle(
        s.pressed,
        s.released,
        s.held,
        s.chord,
        sample_id,
        threshold,
        params.octave_range,
        params.key_mode,
    );
    (
        ProcessorSnapshot {
            pressed: Seq::empty(),
            released: Seq::empty(),
            held: cycle.0,
            chord: s.chord,
        },
        out + cycle.1 + other,
    )
}

/// Where one incoming event goes: chord-channel events mutate the chord,
/// pattern note-ons and note-offs queue for the end of the cycle, and
/// anything else is buffered to pass through at the next cycle boundary.
pub open spec fn spec_route_event(
    s: ProcessorSnapshot,
    e: NoteEvent,
    params: PatternsParams,
) -> (ProcessorSnapshot, Seq<NoteEvent>) {
    if spec_channel_of(e) == Some((params.chord_channel - 1) as u8) {
        (
            ProcessorSnapshot { chord: spec_process_chord_event(s.chord, e), ..s },
            Seq::empty(),
        )
    } else {
        match e {
            NoteEvent::NoteOn { .. } | NoteEvent::NoteOff { .. } => {
                let queues = spec_process_pattern_event(s.pressed, s.released, e);
                (ProcessorSnapshot { pressed: queues.0, released: queues.1, ..s }, Seq::empty())
            },
            _ => (s, seq![e]),
        }
    }
}

/// The event loop of one block: events are walked in order; whenever an
/// event's timing differs from the running sample id, the pending cycle is
/// flushed first; then the event is routed. Returns the state, the buffered
/// pass-through events, the running sample id and the emitted events.
pub open spec fn spec_route_events(
    s: ProcessorSnapshot,
    events: Seq<NoteEvent>,
    other: Seq<NoteEvent>,
    sample_id: u32,
    out: Seq<NoteEvent>,
    params: PatternsParams,
) -> (ProcessorSnapshot, Seq<NoteEvent>, u32, Seq<NoteEvent>)
    decreases events.len(),
{
    if events.len() == 0 {
        (s, other, sample_id, out)
    } else {
        let e = events[0];
        let flushed = if e.spec_timing() != sample_id {
            let f = spec_flush(s, other, sample_id, out, params);
            (f.0, Seq::<NoteEvent>::empty(), e.spec_timing(), f.1)
        } else {
            (s, other, sample_id, out)
        };
        let routed = spec_route_event(flushed.0, e, params);
        spec_route_events(
            routed.0,
            events.drop_first(),
            flushed.1 + routed.1,
            flushed.2,
            flushed.3,
            params,
        )
    }
}

/// The pass-through events at the end of a block, each remapped onto the
/// chord pitch its own raw pitch triggers; events without a pitch, or whose
/// slot the chord lacks, are dropped.
pub open spec fn spec_modulate_others(
    other: Seq<NoteEvent>,
    chord: Seq<u8>,
    threshold: u8,
    octave_range: u8,
) -> Seq<NoteEvent>
    decreases other.len(),
{
    if other.len() == 0 {
        Seq::empty()
    } else {
        spec_modulate_others(other.drop_last(), chord, threshold, octave_range) + (
        match spec_note_of(other.last()) {
            Some(raw) => match spec_chord_data(chord, raw, threshold, octave_range).triggered_note {
                Some(t) => seq![spec_set_note(other.last(), t)],
                None => Seq::<NoteEvent>::empty(),
            },
            None => Seq::<NoteEvent>::empty(),
        })
    }
}

/// One whole processing block: the event loop with its cycle flushes, the
/// final cycle at the last sample id, then the remapped pass-through events.
pub open spec fn spec_process_block(
    s: ProcessorSnapshot,
    events: Seq<NoteEvent>,
    params: PatternsParams,
) -> (ProcessorSnapshot, Seq<NoteEvent>) {
    let routed = spec_route_events(s, events, Seq::empty(), 999u32, Seq::empty(), params);
    let threshold = spec_threshold(routed.0.chord, params.auto_threshold, params.wrap_threshold);
    let cycle = spec_end_cycle(
        routed.0.pressed,
        routed.0.released,
        routed.0.held,
        routed.0.chord,
        routed.2,
        threshold,
        params.octave_range,
        params.key_mode,
    );
    (
        ProcessorSnapshot {
            pressed: Seq::empty(),
            released: Seq::empty(),
            held: cycle.0,
            chord: routed.0.chord,
        },
        routed.3 + cycle.1 + spec_modulate_others(
            routed.1,
            routed.0.chord,
            threshold,
            params.octave_range,
        ),
    )
}

proof fn lemma_reeval_events_of_fresh(
    held: Seq<(u8, PatternData)>,
    chord: Seq<u8>,
    wrap_threshold: u8,
    octave_range: u8,
    timing: u32,
)
    requires
        forall|i: int| 0 <= i < held.len() ==> (#[trigger] held[i]).1.chord_data
            == spec_chord_data(chord, held[i].0, wrap_threshold, octave_range),
    ensures
        spec_reeval_events(held, chord, wrap_threshold, octave_range, timing)
            == Seq::<NoteEvent>::empty(),
        spec_reeval_held(held, chord, wrap_threshold, octave_range) == held,
    decreases held.len(),
{
    assert(spec_reeval_held(held, chord, wrap_threshold, octave_range) =~= held);
    if held.len() > 0 {
        lemma_reeval_events_of_fresh(held.drop_last(), chord, wrap_threshold, octave_range, timing);
        assert(spec_reeval_entry_events(held.last(), chord, wrap_threshold, octave_range, timing)
            =~= Seq::<NoteEvent>::empty());
        assert(Seq::<NoteEvent>::empty() + Seq::<NoteEvent>::empty()
            =~= Seq::<NoteEvent>::empty());
    }
}

/// Chord re-evaluation is idempotent: re-evaluating held keys that were just
/// re-evaluated against the same chord and parameters keeps every entry as
/// it is and emits no events, whatever timing the second pass carries.
pub proof fn lemma_reeval_idempotent(
    held: Seq<(u8, PatternData)>,
    chord: Seq<u8>,
    wrap_threshold: u8,
    octave_range: u8,
    first_timing: u32,
    second_timing: u32,
)
    ensures
        ({
            let once = spec_reeval_held(held, chord, wrap_threshold, octave_range);
            spec_reeval_held(once, chord, wrap_threshold, octave_range) == once
                && spec_reeval_events(once, chord, wrap_threshold, octave_range, second_timing)
                == Seq::<NoteEvent>::empty()
        }),
{
    let once = spec_reeval_held(held, chord, wrap_threshold, octave_range);
    assert forall|i: int| 0 <= i < once.len() implies (#[trigger] once[i]).1.chord_data
        == spec_chord_data(chord, once[i].0, wrap_threshold, octave_range) by {
        assert(once[i] == spec_reeval_entry(held[i], chord, wrap_threshold, octave_range));
    }
    lemma_reeval_events_of_fresh(once, chord, wrap_threshold, octave_range, second_timing);
}

/// A whole cycle is idempotent once the queues are empty: with no new
/// presses, releases or chord changes, a second cycle keeps every held entry
/// and emits no events.
pub proof fn lemma_end_cycle_idempotent(
    held: Seq<(u8, PatternData)>,
    chord: Seq<u8>,
    first_timing: u32,
    second_timing: u32,
    wrap_threshold: u8,
    octave_range: u8,
    keyboard_mode: KeyboardMode,
)
    ensures
        ({
            let no_events = Seq::<NoteEvent>::empty();
            let first = spec_end_cycle(
                no_events,
                no_events,
                held,
                chord,
                first_timing,
                wrap_threshold,
                octave_range,
                keyboard_mode,
            );
            let second = spec_end_cycle(
                no_events,
                no_events,
                first.0,
                chord,
                second_timing,
                wrap_threshold,
                octave_range,
                keyboard_mode,
            );
            second.0 == first.0 && second.1 == Seq::<NoteEvent>::empty()
        }),
{
    lemma_reeval_idempotent(
        held,
        chord,
        wrap_threshold,
        octave_range,
        first_timing,
        second_timing,
    );
    let no_events = Seq::<NoteEvent>::empty();
    let first = spec_end_cycle(
        no_events,
        no_events,
        held,
        chord,
        first_timing,
        wrap_threshold,
        octave_range,
        keyboard_mode,
    );
    let second = spec_end_cycle(
        no_events,
        no_events,
        first.0,
        chord,
        second_timing,
        wrap_threshold,
        octave_range,
        keyboard_mode,
    );
    assert(second.1 =~= Seq::<NoteEvent>::empty());
}

} // verus!
