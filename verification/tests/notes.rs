use step_sequencer::note::{is_valid_note, is_valid_slot, sounding_note};

#[test]
fn note_validity() {
    assert!(is_valid_note(0, 0));
    assert!(is_valid_note(127, 127));
    assert!(!is_valid_note(128, 0));
    assert!(!is_valid_note(0, 128));
    assert!(is_valid_slot(None));
    assert!(is_valid_slot(Some((60, 100))));
    assert!(!is_valid_slot(Some((200, 100))));
}

#[test]
fn zero_velocity_sounds_nothing() {
    assert_eq!(sounding_note(None), None);
    assert_eq!(sounding_note(Some((60, 0))), None);
    assert_eq!(sounding_note(Some((60, 1))), Some((60, 1)));
}
