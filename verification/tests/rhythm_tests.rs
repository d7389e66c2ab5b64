use modular_patterns::events::NoteEvent;
use modular_patterns::rhythm::{
    euclidean_rhythm, euclidean_rhythm_checked, Euclidian, VoiceSettings,
};
use modular_patterns::sequence::{SeqNoteEvent, Sequence};

#[test]
fn euclidean_rhythm_even_division() {
    assert_eq!(
        euclidean_rhythm(2, 8, 0),
        [true, false, false, false, true, false, false, false]
    );
    assert_eq!(euclidean_rhythm(4, 8, 0), [true, false, true, false, true, false, true, false]);
}

#[test]
fn euclidean_rhythm_with_leftovers() {
    assert_eq!(euclidean_rhythm(3, 8, 0), [true, true, true, true, true, false, false, false]);
    assert_eq!(euclidean_rhythm(5, 8, 0), [true, true, true, true, true, true, false, false]);
}

#[test]
fn euclidean_rhythm_offset_seeds_cursor_and_rotates() {
    assert_eq!(euclidean_rhythm(3, 8, 2), [false, false, true, false, true, true, true, true]);
    assert_eq!(euclidean_rhythm(1, 4, 1), [false, true, false, false]);
    // A full-length rotation lands back on the original pattern.
    assert_eq!(
        euclidean_rhythm(2, 8, 8),
        [true, false, false, false, true, false, false, false]
    );
}

#[test]
fn euclidean_rhythm_degenerate_counts_are_silent() {
    assert_eq!(euclidean_rhythm(0, 8, 5), [false; 8]);
    assert_eq!(euclidean_rhythm(9, 8, 0), [false; 8]);
}

#[test]
fn euclidean_rhythm_checked_reports_bad_offsets() {
    // The leftover cursor would run past the last step.
    assert_eq!(euclidean_rhythm_checked(3, 5, 4), None);
    // The rotation amount exceeds the step count.
    assert_eq!(euclidean_rhythm_checked(1, 8, 9), None);
    // In-range configurations succeed.
    assert!(euclidean_rhythm_checked(3, 8, 2).is_some());
}

#[test]
fn update_sequence_lays_out_onsets_and_releases() {
    let mut sequence = Sequence::default();
    let rhythm = vec![true, false, true];
    Euclidian::update_sequence(&mut sequence, &rhythm, 3, 10);
    assert_eq!(sequence.sequence_length, 30);
    assert_eq!(
        sequence.note_events,
        vec![
            SeqNoteEvent { sample_pos: 0, note_data: true },
            SeqNoteEvent { sample_pos: 10, note_data: false },
            SeqNoteEvent { sample_pos: 20, note_data: true },
            SeqNoteEvent { sample_pos: 30, note_data: false },
        ]
    );
}

#[test]
fn sample_sequence_fires_events_at_wrapped_position() {
    let mut sequence = Sequence::default();
    let rhythm = vec![true, true];
    Euclidian::update_sequence(&mut sequence, &rhythm, 2, 10);

    // Position 20 wraps to 0: the first onset fires.
    let fired = Euclidian::sample_sequence(36, 7, 20, &sequence);
    assert_eq!(
        fired,
        [NoteEvent::NoteOn { timing: 20, voice_id: None, channel: 0, note: 36, velocity: 7 }]
    );

    // Position 10 carries both the first release and the second onset.
    let fired = Euclidian::sample_sequence(36, 7, 10, &sequence);
    assert_eq!(
        fired,
        [
            NoteEvent::NoteOff { timing: 10, voice_id: None, channel: 0, note: 36, velocity: 7 },
            NoteEvent::NoteOn { timing: 10, voice_id: None, channel: 0, note: 36, velocity: 7 },
        ]
    );

    // Silent positions fire nothing.
    assert_eq!(Euclidian::sample_sequence(36, 7, 3, &sequence), []);
}

#[test]
fn process_rebuilds_voices_and_fires_block_events() {
    let mut engine = Euclidian::default();
    let disabled = VoiceSettings {
        enabled: false,
        note: 0,
        velocity: 0,
        num_notes: 0,
        num_steps: 0,
        offset_steps: 0,
        step_len_samples: 0,
    };
    let voices = vec![
        VoiceSettings {
            enabled: true,
            note: 36,
            velocity: 9,
            num_notes: 2,
            num_steps: 4,
            offset_steps: 0,
            step_len_samples: 5,
        },
        disabled,
        disabled,
        disabled,
    ];
    let sent = engine.process(&voices, 0, 11);
    // Onsets at samples 0 and 10, releases at 5 and 15 (none within range),
    // wrapped over the 20-sample period.
    assert_eq!(
        sent,
        [
            NoteEvent::NoteOn { timing: 0, voice_id: None, channel: 0, note: 36, velocity: 9 },
            NoteEvent::NoteOff { timing: 5, voice_id: None, channel: 0, note: 36, velocity: 9 },
            NoteEvent::NoteOn { timing: 10, voice_id: None, channel: 0, note: 36, velocity: 9 },
        ]
    );
    assert_eq!(engine.rhythms[0].rhythm, [true, false, true, false]);
    assert_eq!(engine.rhythms[0].sequence.sequence_length, 20);
    // Disabled voices keep their silent timelines.
    assert_eq!(engine.rhythms[1].sequence.sequence_length, 1);
}
