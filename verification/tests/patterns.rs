use step_sequencer::sequence::{MidiOut, Sequence};
use step_sequencer::ui::display_note;

#[test]
fn new_sequence_has_sixteen_empty_steps() {
    let seq = Sequence::new("Sequence-0".to_string());
    assert_eq!(seq.len(), 16);
    assert!(seq.is_empty());
    assert_eq!(seq.name, "Sequence-0");
    assert_eq!(seq.midi_out, None);
    assert!(seq.notes.iter().all(|slot| slot.is_none()));
}

#[test]
fn sequence_with_a_note_is_not_empty() {
    let mut seq = Sequence::new("lead".to_string());
    seq.notes[3] = Some((60, 100));
    assert!(!seq.is_empty());
    assert_eq!(seq.len(), 16);
}

#[test]
fn sequence_without_steps_is_empty() {
    let seq = Sequence::with_len("none".to_string(), 0);
    assert_eq!(seq.len(), 0);
    assert!(seq.is_empty());
}

#[test]
fn midi_out_channel_bounds() {
    assert_eq!(
        MidiOut::new("synth".to_string(), 15),
        Some(MidiOut { dev: "synth".to_string(), channel: 15 })
    );
    assert_eq!(MidiOut::new("synth".to_string(), 16), None);
}

#[test]
fn display_note_names() {
    assert_eq!(display_note(60), "C-5");
    assert_eq!(display_note(0), "C-0");
    assert_eq!(display_note(61), "C#5");
    assert_eq!(display_note(127), "G-A");
    assert_eq!(display_note(119), "B-9");
    assert_eq!(display_note(255), "D#15");
}
