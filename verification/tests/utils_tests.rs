use modular_patterns::events::NoteEvent;
use modular_patterns::processors::PatternChordData;
use modular_patterns::utils::{
    count_black_keys_from_c3, get_channel_of_event, get_chord_data, get_note_event_channel,
    get_velocity_of_event, get_voice_id_of_event, is_black_key, note_to_chord_idx_octave,
    raw_note_apply_keyboard_mode, set_note_of_event, KeyboardMode,
};

#[test]
fn test_count_black_keys() {
    assert_eq!(count_black_keys_from_c3(50), -4);
    assert_eq!(count_black_keys_from_c3(51), -3);
    assert_eq!(count_black_keys_from_c3(52), -3);
    assert_eq!(count_black_keys_from_c3(53), -2);
    assert_eq!(count_black_keys_from_c3(54), -2);
    assert_eq!(count_black_keys_from_c3(55), -1);
    assert_eq!(count_black_keys_from_c3(56), -1);
    assert_eq!(count_black_keys_from_c3(57), 0);
    assert_eq!(count_black_keys_from_c3(58), 0);
    assert_eq!(count_black_keys_from_c3(59), 0);
    assert_eq!(count_black_keys_from_c3(60), 0);
    assert_eq!(count_black_keys_from_c3(61), 1);
    assert_eq!(count_black_keys_from_c3(62), 1);
    assert_eq!(count_black_keys_from_c3(63), 2);
    assert_eq!(count_black_keys_from_c3(64), 2);
    assert_eq!(count_black_keys_from_c3(65), 3);
    assert_eq!(count_black_keys_from_c3(66), 3);
    assert_eq!(count_black_keys_from_c3(67), 4);
    assert_eq!(count_black_keys_from_c3(68), 4);
    assert_eq!(count_black_keys_from_c3(69), 5);
    assert_eq!(count_black_keys_from_c3(70), 5);
    assert_eq!(count_black_keys_from_c3(71), 5);
    assert_eq!(count_black_keys_from_c3(72), 5);
    assert_eq!(count_black_keys_from_c3(73), 6);
    assert_eq!(count_black_keys_from_c3(74), 6);
    assert_eq!(count_black_keys_from_c3(75), 7);
}

#[test]
fn test_get_channel_of_event() {
    let note_channel = get_channel_of_event(&NoteEvent::NoteOn {
        timing: 0,
        note: 60,
        velocity: 1.0f32.to_bits(),
        voice_id: None,
        channel: 1,
    });
    assert_eq!(note_channel, Some(1));
    let note_channel = get_channel_of_event(&NoteEvent::NoteOff {
        timing: 0,
        note: 60,
        velocity: 1.0f32.to_bits(),
        voice_id: None,
        channel: 16,
    });
    assert_eq!(note_channel, Some(16));
    let note_channel = get_channel_of_event(&NoteEvent::PolyModulation {
        timing: 0,
        poly_modulation_id: 0,
        voice_id: 0,
        normalized_offset: 0.0f32.to_bits(),
    });
    assert_eq!(note_channel, None);
}

#[test]
fn test_note_to_chord_idx_octave() {
    let (note_index, octave) = note_to_chord_idx_octave(60, 3);
    assert_eq!((note_index, octave), (0, 0));
    let (note_index, octave) = note_to_chord_idx_octave(61, 3);
    assert_eq!((note_index, octave), (1, 0));
    let (note_index, octave) = note_to_chord_idx_octave(62, 3);
    assert_eq!((note_index, octave), (2, 0));
    let (note_index, octave) = note_to_chord_idx_octave(63, 3);
    assert_eq!((note_index, octave), (0, 1));
}

#[test]
fn test_is_black_key() {
    assert!(!is_black_key(60)); // C3 = white
    assert!(is_black_key(61)); // C#3 = black
    assert!(!is_black_key(62)); // D3 = white
    assert!(is_black_key(63)); // D#3 = black
    assert!(!is_black_key(64)); // E3 = white
    assert!(!is_black_key(65)); // F3 = white
    assert!(is_black_key(66)); // F#3 = black
    assert!(!is_black_key(67)); // G3 = white
    assert!(is_black_key(68)); // G#3 = black
    assert!(!is_black_key(69)); // A3 = white
    assert!(is_black_key(70)); // A#3 = black
    assert!(!is_black_key(71)); // B3 = white
    assert!(!is_black_key(72)); // C4 = white
}

#[test]
fn test_raw_note_apply_keyboard_mode() {
    assert_eq!(raw_note_apply_keyboard_mode(60, &KeyboardMode::AllKeys), Some(60));
    assert_eq!(raw_note_apply_keyboard_mode(60, &KeyboardMode::IgnoreBlackKeys), Some(60));
    assert_eq!(raw_note_apply_keyboard_mode(61, &KeyboardMode::AllKeys), Some(61));
    assert_eq!(raw_note_apply_keyboard_mode(61, &KeyboardMode::IgnoreBlackKeys), None);
    assert_eq!(raw_note_apply_keyboard_mode(62, &KeyboardMode::AllKeys), Some(62));
    assert_eq!(raw_note_apply_keyboard_mode(62, &KeyboardMode::IgnoreBlackKeys), Some(61));
    assert_eq!(raw_note_apply_keyboard_mode(63, &KeyboardMode::AllKeys), Some(63));
    assert_eq!(raw_note_apply_keyboard_mode(63, &KeyboardMode::IgnoreBlackKeys), None);
}

#[test]
fn test_get_chord_data() {
    let chord = vec![72, 74, 76];

    // positive octave
    let data = get_chord_data(&chord, 60, 3, 12);
    assert_eq!(PatternChordData { octave: 0, chord_idx: 0, triggered_note: Some(72) }, data);

    let data = get_chord_data(&chord, 61, 3, 12);
    assert_eq!(PatternChordData { octave: 0, chord_idx: 1, triggered_note: Some(74) }, data);

    let data = get_chord_data(&chord, 62, 3, 12);
    assert_eq!(PatternChordData { octave: 0, chord_idx: 2, triggered_note: Some(76) }, data);

    let data = get_chord_data(&chord, 63, 3, 12);
    assert_eq!(PatternChordData { octave: 1, chord_idx: 0, triggered_note: Some(84) }, data);

    // invalid chord idx -> no note triggered
    let data = get_chord_data(&chord, 63, 4, 12);
    assert_eq!(PatternChordData { octave: 0, chord_idx: 3, triggered_note: None }, data);

    // negative octave
    let data = get_chord_data(&chord, 59, 3, 12);
    assert_eq!(PatternChordData { octave: -1, chord_idx: 2, triggered_note: Some(64) }, data);

    let data = get_chord_data(&chord, 58, 3, 12);
    assert_eq!(PatternChordData { octave: -1, chord_idx: 1, triggered_note: Some(62) }, data);

    let data = get_chord_data(&chord, 57, 3, 12);
    assert_eq!(PatternChordData { octave: -1, chord_idx: 0, triggered_note: Some(60) }, data);

    // octave range
    let data = get_chord_data(&chord, 61, 1, 24);
    assert_eq!(PatternChordData { octave: 1, chord_idx: 0, triggered_note: Some(96) }, data);

    let data = get_chord_data(&chord, 61, 1, 6);
    assert_eq!(PatternChordData { octave: 1, chord_idx: 0, triggered_note: Some(78) }, data);

    let data = get_chord_data(&chord, 61, 1, 1);
    assert_eq!(PatternChordData { octave: 1, chord_idx: 0, triggered_note: Some(73) }, data);
}

#[test]
fn chord_data_out_of_range_triggered_note_is_dropped() {
    // Mapping would land far above pitch 127: outside the legal range, no note.
    let chord = vec![120];
    let data = get_chord_data(&chord, 72, 1, 12);
    assert_eq!(data.octave, 12);
    assert_eq!(data.chord_idx, 0);
    assert_eq!(data.triggered_note, None);

    // Negative octave pushing below zero also drops the note.
    let chord = vec![5];
    let data = get_chord_data(&chord, 48, 1, 12);
    assert_eq!(data.octave, -12);
    assert_eq!(data.triggered_note, None);
}

#[test]
fn keyboard_mode_low_pitches_shift_up() {
    // Below the reference pitch the black-key count is negative, so the
    // compacted pitch moves up.
    assert_eq!(raw_note_apply_keyboard_mode(0, &KeyboardMode::IgnoreBlackKeys), Some(25));
    assert_eq!(raw_note_apply_keyboard_mode(50, &KeyboardMode::IgnoreBlackKeys), Some(54));
}

#[test]
fn routing_channel_defaults_to_zero() {
    let on = NoteEvent::NoteOn { timing: 0, voice_id: None, channel: 9, note: 60, velocity: 1 };
    assert_eq!(get_note_event_channel(&on), 9);
    let poly = NoteEvent::PolyModulation {
        timing: 0,
        voice_id: 0,
        poly_modulation_id: 0,
        normalized_offset: 0,
    };
    assert_eq!(get_note_event_channel(&poly), 0);
}

#[test]
fn event_accessors_cover_all_kinds() {
    let on = NoteEvent::NoteOn { timing: 3, voice_id: Some(7), channel: 2, note: 65, velocity: 9 };
    assert_eq!(get_velocity_of_event(&on), Some(9));
    assert_eq!(get_voice_id_of_event(&on), Some(7));
    let choke = NoteEvent::Choke { timing: 1, voice_id: None, channel: 4, note: 30 };
    assert_eq!(get_velocity_of_event(&choke), None);
    assert_eq!(get_channel_of_event(&choke), Some(4));
    let renoted = set_note_of_event(&choke, 44);
    assert_eq!(renoted, NoteEvent::Choke { timing: 1, voice_id: None, channel: 4, note: 44 });
    let poly = NoteEvent::PolyModulation {
        timing: 2,
        voice_id: 5,
        poly_modulation_id: 1,
        normalized_offset: 0,
    };
    assert_eq!(set_note_of_event(&poly, 44), poly);
    assert_eq!(get_voice_id_of_event(&poly), None);
}
