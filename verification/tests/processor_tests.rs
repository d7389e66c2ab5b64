use modular_patterns::events::NoteEvent;
use modular_patterns::processors::{ChordPatternProcessor, PatternsParams};
use modular_patterns::utils::KeyboardMode;

#[test]
fn test_process_chord_event() {
    // note on
    let mut processor = ChordPatternProcessor::default();

    processor.process_chord_event(NoteEvent::NoteOn {
        note: 60,
        velocity: 1.0f32.to_bits(),
        voice_id: None,
        timing: 0,
        channel: 16,
    });

    let chord_vec: Vec<u8> = processor.chord.as_ordered_sequence();
    assert_eq!(chord_vec, [60]);

    processor.process_chord_event(NoteEvent::NoteOff {
        note: 60,
        velocity: 1.0f32.to_bits(),
        voice_id: None,
        timing: 0,
        channel: 16,
    });

    let chord_vec: Vec<u8> = processor.chord.as_ordered_sequence();
    println!("{:?}", chord_vec);
    assert!(chord_vec.is_empty());
}

#[test]
fn test_process_pattern_event() {
    // note on
    let mut processor = ChordPatternProcessor::default();

    processor.process_pattern_event(NoteEvent::NoteOn {
        note: 60,
        velocity: 1.0f32.to_bits(),
        voice_id: None,
        timing: 0,
        channel: 16,
    });

    let pattern_vec: Vec<NoteEvent> = processor.pressed_pattern_keys.clone();
    assert_eq!(
        pattern_vec,
        [NoteEvent::NoteOn {
            note: 60,
            velocity: 1.0f32.to_bits(),
            voice_id: None,
            timing: 0,
            channel: 16,
        }]
    );

    processor.process_pattern_event(NoteEvent::NoteOff {
        note: 60,
        velocity: 1.0f32.to_bits(),
        voice_id: None,
        timing: 0,
        channel: 16,
    });

    let pattern_vec: Vec<NoteEvent> = processor.released_pattern_keys.clone();
    assert_eq!(
        pattern_vec,
        [NoteEvent::NoteOff {
            note: 60,
            velocity: 1.0f32.to_bits(),
            voice_id: None,
            timing: 0,
            channel: 16,
        }]
    );
}

#[test]
fn test_end_cycle() {
    // note on
    let mut processor = ChordPatternProcessor::default();

    processor.chord.insert(72);
    processor.chord.insert(74);
    processor.chord.insert(76);

    // press pattern note
    processor.process_pattern_event(NoteEvent::NoteOn {
        note: 60,
        velocity: 1.0f32.to_bits(),
        voice_id: None,
        timing: 0,
        channel: 16,
    });

    let send_events = &mut vec![];
    processor.end_cycle(send_events, 0, 3, 12, KeyboardMode::AllKeys);

    assert_eq!(
        *send_events,
        [NoteEvent::NoteOn {
            note: 72,
            velocity: 1.0f32.to_bits(),
            voice_id: None,
            timing: 0,
            channel: 16,
        }]
    );

    // release pattern note
    processor.process_pattern_event(NoteEvent::NoteOff {
        note: 60,
        velocity: 1.0f32.to_bits(),
        voice_id: None,
        timing: 1,
        channel: 16,
    });

    let send_events = &mut vec![];
    processor.end_cycle(send_events, 1, 3, 12, KeyboardMode::AllKeys);

    assert_eq!(
        *send_events,
        [NoteEvent::NoteOff {
            note: 72,
            velocity: 1.0f32.to_bits(),
            voice_id: None,
            timing: 1,
            channel: 16,
        }]
    );
    assert!(processor.held_pattern_keys.is_empty());
}

#[test]
fn end_cycle_without_changes_emits_nothing() {
    let mut processor = ChordPatternProcessor::default();
    processor.chord.insert(72);
    processor.chord.insert(74);
    processor.chord.insert(76);
    processor.process_pattern_event(NoteEvent::NoteOn {
        note: 60,
        velocity: 1.0f32.to_bits(),
        voice_id: None,
        timing: 0,
        channel: 16,
    });

    let send_events = &mut vec![];
    processor.end_cycle(send_events, 0, 3, 12, KeyboardMode::AllKeys);
    assert_eq!(send_events.len(), 1);

    // Same chord, same held notes: the re-evaluation pass stays silent.
    let send_events = &mut vec![];
    processor.end_cycle(send_events, 5, 3, 12, KeyboardMode::AllKeys);
    assert!(send_events.is_empty());
    assert_eq!(processor.held_pattern_keys.len(), 1);
}

#[test]
fn chord_change_retriggers_held_note() {
    let mut processor = ChordPatternProcessor::default();
    processor.chord.insert(72);
    processor.process_pattern_event(NoteEvent::NoteOn {
        note: 60,
        velocity: 1.0f32.to_bits(),
        voice_id: None,
        timing: 0,
        channel: 3,
    });
    let send_events = &mut vec![];
    processor.end_cycle(send_events, 0, 1, 12, KeyboardMode::AllKeys);
    assert_eq!(
        *send_events,
        [NoteEvent::NoteOn {
            note: 72,
            velocity: 1.0f32.to_bits(),
            voice_id: None,
            timing: 0,
            channel: 3,
        }]
    );

    // Replace the chord root: the held key must re-trigger at the new pitch.
    processor.process_chord_event(NoteEvent::NoteOff {
        note: 72,
        velocity: 1.0f32.to_bits(),
        voice_id: None,
        timing: 4,
        channel: 16,
    });
    processor.process_chord_event(NoteEvent::NoteOn {
        note: 67,
        velocity: 1.0f32.to_bits(),
        voice_id: None,
        timing: 4,
        channel: 16,
    });
    let send_events = &mut vec![];
    processor.end_cycle(send_events, 4, 1, 12, KeyboardMode::AllKeys);
    assert_eq!(
        *send_events,
        [
            NoteEvent::NoteOff {
                note: 72,
                velocity: 1.0f32.to_bits(),
                voice_id: None,
                timing: 4,
                channel: 3,
            },
            NoteEvent::NoteOn {
                note: 67,
                velocity: 1.0f32.to_bits(),
                voice_id: None,
                timing: 4,
                channel: 3,
            },
        ]
    );
}

#[test]
fn repress_same_filtered_pitch_overwrites_entry() {
    let mut processor = ChordPatternProcessor::default();
    processor.chord.insert(72);
    processor.chord.insert(74);
    processor.chord.insert(76);

    let press = |velocity: u32, timing: u32| NoteEvent::NoteOn {
        note: 60,
        velocity,
        voice_id: None,
        timing,
        channel: 0,
    };
    processor.process_pattern_event(press(1, 0));
    let send_events = &mut vec![];
    processor.end_cycle(send_events, 0, 3, 12, KeyboardMode::AllKeys);
    assert_eq!(send_events.len(), 1);

    // A second press at the same filtered pitch emits a fresh note-on and
    // overwrites the held entry without an intervening note-off.
    processor.process_pattern_event(press(2, 6));
    let send_events = &mut vec![];
    processor.end_cycle(send_events, 6, 3, 12, KeyboardMode::AllKeys);
    assert_eq!(
        *send_events,
        [NoteEvent::NoteOn { note: 72, velocity: 2, voice_id: None, timing: 6, channel: 0 }]
    );
    assert_eq!(processor.held_pattern_keys.len(), 1);
    assert_eq!(processor.held_pattern_keys[0].1.note_data.velocity, 2);
}

#[test]
fn black_key_press_is_dropped_in_ignore_mode() {
    let mut processor = ChordPatternProcessor::default();
    processor.chord.insert(72);
    processor.process_pattern_event(NoteEvent::NoteOn {
        note: 61,
        velocity: 1.0f32.to_bits(),
        voice_id: None,
        timing: 0,
        channel: 0,
    });
    let send_events = &mut vec![];
    processor.end_cycle(send_events, 0, 1, 12, KeyboardMode::IgnoreBlackKeys);
    assert!(send_events.is_empty());
    assert!(processor.held_pattern_keys.is_empty());
}

#[test]
fn get_threshold_tracks_chord_size_in_auto_mode() {
    let mut processor = ChordPatternProcessor::default();
    assert_eq!(processor.get_threshold(true, 12), 1);
    processor.chord.insert(72);
    processor.chord.insert(74);
    processor.chord.insert(76);
    assert_eq!(processor.get_threshold(true, 12), 3);
    assert_eq!(processor.get_threshold(false, 12), 12);
}

#[test]
fn chord_set_ignores_duplicates_and_absent_removals() {
    let mut processor = ChordPatternProcessor::default();
    processor.chord.insert(74);
    processor.chord.insert(72);
    processor.chord.insert(74);
    assert_eq!(processor.chord.as_ordered_sequence(), [72, 74]);
    processor.chord.remove(99);
    assert_eq!(processor.chord.as_ordered_sequence(), [72, 74]);
    processor.chord.remove(72);
    assert_eq!(processor.chord.as_ordered_sequence(), [74]);
}

#[test]
fn presses_apply_in_the_order_received() {
    let mut processor = ChordPatternProcessor::default();
    processor.chord.insert(72);
    processor.chord.insert(74);
    processor.chord.insert(76);
    let press = |note: u8| NoteEvent::NoteOn {
        note,
        velocity: 1,
        voice_id: None,
        timing: 0,
        channel: 0,
    };
    processor.process_pattern_event(press(61));
    processor.process_pattern_event(press(60));
    let send_events = &mut vec![];
    processor.end_cycle(send_events, 0, 3, 12, KeyboardMode::AllKeys);
    // The key pressed first emits first: pitch 61 maps to slot 1 (74), then
    // pitch 60 to slot 0 (72).
    assert_eq!(
        *send_events,
        [
            NoteEvent::NoteOn { note: 74, velocity: 1, voice_id: None, timing: 0, channel: 0 },
            NoteEvent::NoteOn { note: 72, velocity: 1, voice_id: None, timing: 0, channel: 0 },
        ]
    );
}

#[test]
fn reevaluation_walks_held_keys_in_ascending_order() {
    let mut processor = ChordPatternProcessor::default();
    processor.chord.insert(72);
    processor.chord.insert(74);
    let press = |note: u8| NoteEvent::NoteOn {
        note,
        velocity: 1,
        voice_id: None,
        timing: 0,
        channel: 0,
    };
    processor.process_pattern_event(press(61));
    processor.process_pattern_event(press(60));
    let send_events = &mut vec![];
    processor.end_cycle(send_events, 0, 2, 12, KeyboardMode::AllKeys);
    assert_eq!(send_events.len(), 2);

    // Shrinking the chord remaps both held keys; the diff emits the events
    // of the lower key first.
    processor.process_chord_event(NoteEvent::NoteOff {
        note: 74,
        velocity: 1,
        voice_id: None,
        timing: 9,
        channel: 15,
    });
    let send_events = &mut vec![];
    processor.end_cycle(send_events, 9, 1, 12, KeyboardMode::AllKeys);
    assert_eq!(
        *send_events,
        [
            // Key 60 keeps its mapping and stays silent; key 61 now wraps
            // into octave 1 and retriggers.
            NoteEvent::NoteOff { note: 74, velocity: 1, voice_id: None, timing: 9, channel: 0 },
            NoteEvent::NoteOn { note: 84, velocity: 1, voice_id: None, timing: 9, channel: 0 },
        ]
    );
}

#[test]
fn process_block_maps_presses_against_live_chord() {
    let mut processor = ChordPatternProcessor::default();
    let params = PatternsParams {
        chord_channel: 16,
        wrap_threshold: 12,
        auto_threshold: true,
        octave_range: 12,
        key_mode: KeyboardMode::AllKeys,
    };
    let velocity = 1.0f32.to_bits();
    let events = vec![
        // Chord: held C5 on the chord channel (channel index 15).
        NoteEvent::NoteOn { note: 72, velocity, voice_id: None, timing: 0, channel: 15 },
        // Pattern key C3 on another channel.
        NoteEvent::NoteOn { note: 60, velocity, voice_id: None, timing: 0, channel: 0 },
    ];
    let sent = processor.process_block(&events, params);
    assert_eq!(
        sent,
        [NoteEvent::NoteOn { note: 72, velocity, voice_id: None, timing: 0, channel: 0 }]
    );
    assert_eq!(processor.held_pattern_keys.len(), 1);

    // Releasing the pattern key in a later block emits the matching note-off.
    let events = vec![
        NoteEvent::NoteOff { note: 60, velocity, voice_id: None, timing: 8, channel: 0 },
    ];
    let sent = processor.process_block(&events, params);
    assert_eq!(
        sent,
        [NoteEvent::NoteOff { note: 72, velocity, voice_id: None, timing: 8, channel: 0 }]
    );
    assert!(processor.held_pattern_keys.is_empty());
}

#[test]
fn process_block_modulates_pass_through_events() {
    let mut processor = ChordPatternProcessor::default();
    let params = PatternsParams {
        chord_channel: 16,
        wrap_threshold: 12,
        auto_threshold: true,
        octave_range: 12,
        key_mode: KeyboardMode::AllKeys,
    };
    let velocity = 1.0f32.to_bits();
    let events = vec![
        NoteEvent::NoteOn { note: 72, velocity, voice_id: None, timing: 0, channel: 15 },
        // A choke is neither a chord event nor a pattern press: it passes
        // through, remapped onto the chord pitch its raw pitch triggers.
        NoteEvent::Choke { note: 60, voice_id: None, timing: 0, channel: 0 },
    ];
    let sent = processor.process_block(&events, params);
    assert_eq!(sent, [NoteEvent::Choke { note: 72, voice_id: None, timing: 0, channel: 0 }]);
}
