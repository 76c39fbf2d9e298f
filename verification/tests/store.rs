use step_sequencer::error::SequencerError;
use step_sequencer::sequence::{MidiOut, Sequence};
use step_sequencer::store::PatternStore;

#[test]
fn store_create_assigns_ascending_ids() {
    let mut store = PatternStore::new();
    assert_eq!(store.len(), 0);
    assert_eq!(store.create_sequence("a".to_string()), 0);
    assert_eq!(store.create_sequence("b".to_string()), 1);
    assert_eq!(store.create_sequence("c".to_string()), 2);
    assert_eq!(store.len(), 3);
    assert_eq!(store.ids(), &vec![0, 1, 2]);
    assert_eq!(store.next_id(), 3);
    let b = store.get(1).unwrap();
    assert_eq!(b.name, "b");
    assert_eq!(b.len(), 16);
    assert!(b.is_empty());
    assert_eq!(b.midi_out, None);
}

#[test]
fn store_ids_are_never_reused() {
    let mut store = PatternStore::new();
    let a = store.create_sequence("a".to_string());
    let b = store.create_sequence("b".to_string());
    assert_eq!(store.delete_sequence(b), Ok(()));
    let c = store.create_sequence("c".to_string());
    assert_ne!(c, a);
    assert_ne!(c, b);
    assert_eq!(c, 2);
    assert_eq!(store.delete_sequence(a), Ok(()));
    assert_eq!(store.create_sequence("d".to_string()), 3);
    assert_eq!(store.ids(), &vec![2, 3]);
}

#[test]
fn store_delete_unknown_is_not_found() {
    let mut store = PatternStore::new();
    store.create_sequence("a".to_string());
    assert_eq!(store.delete_sequence(7), Err(SequencerError::NotFound));
    assert_eq!(store.len(), 1);
    assert_eq!(store.delete_sequence(0), Ok(()));
    assert_eq!(store.delete_sequence(0), Err(SequencerError::NotFound));
    assert!(!store.contains(0));
    assert_eq!(store.find(0), None);
}

#[test]
fn store_delete_keeps_the_others() {
    let mut store = PatternStore::new();
    for name in ["a", "b", "c", "d"] {
        store.create_sequence(name.to_string());
    }
    store.set_step(2, 5, Some((64, 90))).unwrap();
    assert_eq!(store.delete_sequence(1), Ok(()));
    assert_eq!(store.ids(), &vec![0, 2, 3]);
    assert_eq!(store.find(2), Some(1));
    assert_eq!(store.get(2).unwrap().name, "c");
    assert_eq!(store.get_step(2, 5), Ok(Some((64, 90))));
    assert_eq!(store.get(3).unwrap().name, "d");
}

#[test]
fn store_set_step_then_get_step() {
    let mut store = PatternStore::new();
    let id = store.create_sequence("a".to_string());
    assert_eq!(store.get_step(id, 0), Ok(None));
    assert_eq!(store.set_step(id, 0, Some((60, 100))), Ok(()));
    assert_eq!(store.get_step(id, 0), Ok(Some((60, 100))));
    assert_eq!(store.set_step(id, 15, Some((127, 127))), Ok(()));
    assert_eq!(store.get_step(id, 15), Ok(Some((127, 127))));
    assert_eq!(store.set_step(id, 0, None), Ok(()));
    assert_eq!(store.get_step(id, 0), Ok(None));
    assert_eq!(store.get_step(id, 1), Ok(None));
}

#[test]
fn store_set_step_keeps_a_zero_velocity_as_written() {
    let mut store = PatternStore::new();
    let id = store.create_sequence("a".to_string());
    assert_eq!(store.set_step(id, 4, Some((60, 0))), Ok(()));
    assert_eq!(store.get_step(id, 4), Ok(Some((60, 0))));
}

#[test]
fn store_set_step_errors_in_order() {
    let mut store = PatternStore::new();
    let id = store.create_sequence("a".to_string());
    assert_eq!(store.set_step(9, 99, Some((200, 200))), Err(SequencerError::NotFound));
    assert_eq!(store.set_step(id, 16, Some((200, 200))), Err(SequencerError::OutOfRange));
    assert_eq!(store.set_step(id, 16, None), Err(SequencerError::OutOfRange));
    assert_eq!(store.set_step(id, 3, Some((128, 100))), Err(SequencerError::InvalidNote));
    assert_eq!(store.set_step(id, 3, Some((60, 128))), Err(SequencerError::InvalidNote));
    assert_eq!(store.set_step(id, 3, Some((255, 255))), Err(SequencerError::InvalidNote));
}

#[test]
fn store_rejected_write_changes_nothing() {
    let mut store = PatternStore::new();
    let id = store.create_sequence("a".to_string());
    store.set_step(id, 3, Some((60, 100))).unwrap();
    let before = store.get(id).unwrap().clone();
    assert!(store.set_step(id, 3, Some((128, 1))).is_err());
    assert!(store.set_step(id, 16, Some((1, 1))).is_err());
    assert!(store.set_step(id + 1, 3, Some((1, 1))).is_err());
    assert_eq!(store.get(id).unwrap(), &before);
    assert_eq!(store.len(), 1);
}

#[test]
fn store_get_step_errors() {
    let mut store = PatternStore::new();
    let id = store.create_sequence("a".to_string());
    assert_eq!(store.get_step(5, 0), Err(SequencerError::NotFound));
    assert_eq!(store.get_step(5, 100), Err(SequencerError::NotFound));
    assert_eq!(store.get_step(id, 16), Err(SequencerError::OutOfRange));
    assert_eq!(store.get_step(id, 15), Ok(None));
}

#[test]
fn store_rename_and_set_output() {
    let mut store = PatternStore::new();
    let id = store.create_sequence("a".to_string());
    assert_eq!(store.rename(id, "bass".to_string()), Ok(()));
    assert_eq!(store.get(id).unwrap().name, "bass");
    assert_eq!(store.rename(3, "x".to_string()), Err(SequencerError::NotFound));
    let out = MidiOut { dev: "synth".to_string(), channel: 9 };
    assert_eq!(store.set_output(id, Some(out.clone())), Ok(()));
    assert_eq!(store.get(id).unwrap().midi_out, Some(out));
    assert_eq!(store.set_output(id, None), Ok(()));
    assert_eq!(store.get(id).unwrap().midi_out, None);
    assert_eq!(store.set_output(3, None), Err(SequencerError::NotFound));
    assert_eq!(store.get(id).unwrap().name, "bass");
}

#[test]
fn store_insert_sequence_checks_the_notes() {
    let mut store = PatternStore::new();
    let mut good = Sequence::with_len("short".to_string(), 3);
    good.notes[1] = Some((10, 20));
    assert_eq!(store.insert_sequence(good.clone()), Ok(0));
    assert_eq!(store.get(0).unwrap(), &good);
    let mut bad = Sequence::with_len("bad".to_string(), 3);
    bad.notes[2] = Some((200, 20));
    assert_eq!(store.insert_sequence(bad), Err(SequencerError::InvalidNote));
    assert_eq!(store.len(), 1);
    assert_eq!(store.next_id(), 1);
    assert_eq!(store.get_step(0, 3), Err(SequencerError::OutOfRange));
}

#[test]
fn store_sequences_snapshot_is_in_creation_order() {
    let mut store = PatternStore::new();
    store.create_sequence("a".to_string());
    store.create_sequence("b".to_string());
    let names: Vec<&str> = store.sequences().iter().map(|s| s.name.as_str()).collect();
    assert_eq!(names, vec!["a", "b"]);
}
