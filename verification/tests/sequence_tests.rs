use modular_patterns::sequence::{SeqNoteEvent, Sequence};

#[test]
fn sequence_add() {
    let mut sequence = Sequence::default();

    // Eight beats at 120 bpm and 44.1 kHz span 176400 samples; one beat 22050.
    sequence.sequence_length = 176_400;
    let note_length: i64 = 22_050;

    sequence.add_note_event(SeqNoteEvent { sample_pos: 0, note_data: true });
    sequence.add_note_event(SeqNoteEvent { sample_pos: note_length, note_data: false });
}

#[test]
fn sequence_get_wrapped_sample_position() {
    let mut sequence = Sequence::default();

    sequence.sequence_length = 22_050;

    assert_eq!(sequence.get_wrapped_sample_position(22_050), 0);
    assert_eq!(sequence.get_wrapped_sample_position(44_099), 22_049);
    assert_eq!(sequence.get_wrapped_sample_position(44_200), 100);
    assert_eq!(sequence.get_wrapped_sample_position(-100), 21950);

    // test wrong sequence length
    sequence.sequence_length = 0;
    assert_eq!(sequence.get_wrapped_sample_position(44_100), 0);
}

#[test]
fn sequence_sample() {
    let mut sequence = Sequence::default();

    sequence.sequence_length = 176_400;
    let note_length: i64 = 22_050;

    sequence.add_note_event(SeqNoteEvent { sample_pos: 0, note_data: true });
    sequence.add_note_event(SeqNoteEvent { sample_pos: note_length, note_data: false });

    assert_eq!(
        sequence.get_note_events_at_sample(0),
        vec![SeqNoteEvent { sample_pos: 0, note_data: true }]
    );
    assert_eq!(
        sequence.get_note_events_at_sample(note_length),
        vec![SeqNoteEvent { sample_pos: note_length, note_data: false }]
    );
    assert_eq!(sequence.get_note_events_at_sample(1000), vec![]);
}

#[test]
fn sequence_wrap_negative_before_one_period() {
    let mut sequence = Sequence::default();
    sequence.sequence_length = 10;
    assert_eq!(sequence.get_wrapped_sample_position(-1), 9);
    assert_eq!(sequence.get_wrapped_sample_position(-10), 0);
    assert_eq!(sequence.get_wrapped_sample_position(-25), 5);
}

#[test]
fn sequence_duplicate_events_are_kept() {
    let mut sequence = Sequence::default();
    sequence.sequence_length = 100;
    let event = SeqNoteEvent { sample_pos: 40, note_data: true };
    sequence.add_note_event(event.clone());
    sequence.add_note_event(event.clone());
    assert_eq!(sequence.get_note_events_at_sample(40), vec![event.clone(), event]);
}
