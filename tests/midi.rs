use cantari::midi::MidiNote;

#[test]
fn test_midi_note() {
    let midi_note = MidiNote::from_midi_number(69);
    assert_eq!(midi_note.to_midi_number(), 69);

    let midi_note = MidiNote::from_str("A4").unwrap();
    assert_eq!(midi_note.to_midi_number(), 69);

    let midi_note = MidiNote::from_str("A#4").unwrap();
    assert_eq!(midi_note.to_midi_number(), 70);

    let midi_note = MidiNote::from_str("Bb4").unwrap();
    assert_eq!(midi_note.to_midi_number(), 70);

    let midi_note = MidiNote::from_str("C5").unwrap();
    assert_eq!(midi_note.to_midi_number(), 72);
}

#[test]
fn note_names_read_back() {
    for n in 12u8..=127 {
        let name = MidiNote(n).to_string();
        assert_eq!(MidiNote::from_str(&name), Ok(MidiNote(n)), "{}", name);
    }
}

#[test]
fn note_name_text() {
    assert_eq!(MidiNote(69).to_string(), "A4");
    assert_eq!(MidiNote(61).to_string(), "C#4");
    assert_eq!(MidiNote(24).to_string(), "C1");
    assert_eq!(MidiNote(107).to_string(), "B7");
}

#[test]
fn note_name_edge_cases() {
    assert_eq!(MidiNote::from_str("C-1"), Ok(MidiNote(0)));
    assert_eq!(MidiNote::from_str("Cb4"), Ok(MidiNote(59)));
    assert_eq!(MidiNote::from_str("B#3"), Ok(MidiNote(48)));
    assert_eq!(MidiNote::from_str("A+4"), Ok(MidiNote(69)));
    assert_eq!(MidiNote::from_str("A"), Err(()));
    assert_eq!(MidiNote::from_str("H4"), Err(()));
    assert_eq!(MidiNote::from_str("A4x"), Err(()));
    assert_eq!(MidiNote::from_str("A99999999999"), Err(()));
    assert_eq!(MidiNote::from_str("C20"), Ok(MidiNote(252)));
    assert_eq!(MidiNote::from_str("C21"), Ok(MidiNote(8)));
}

#[test]
fn shifted_notes_stay_in_range() {
    assert_eq!(MidiNote(60).shifted(2), MidiNote(62));
    assert_eq!(MidiNote(60).shifted(-12), MidiNote(48));
    assert_eq!(MidiNote(30).shifted(-20), MidiNote(24));
    assert_eq!(MidiNote(100).shifted(20), MidiNote(107));
    assert_eq!(MidiNote(0).shifted(0), MidiNote(24));
}
