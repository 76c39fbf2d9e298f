use step_sequencer::error::SequencerError;
use step_sequencer::event::{Dispatch, MidiEvent, TickReport};
use step_sequencer::sequence::MidiOut;
use step_sequencer::sequencer::Sequencer;

fn on(sequence: u64, pitch: u8, velocity: u8, device: &str, channel: u8) -> Dispatch {
    Dispatch {
        sequence,
        event: MidiEvent::NoteOn { pitch, velocity, device: device.to_string(), channel },
    }
}

fn off(sequence: u64, pitch: u8, device: &str, channel: u8) -> Dispatch {
    Dispatch { sequence, event: MidiEvent::NoteOff { pitch, device: device.to_string(), channel } }
}

/// Fires tick number `n` (from 1) of a sequencer started at time 0 and 120 bpm.
fn tick(seq: &mut Sequencer, n: u64) -> TickReport {
    seq.poll(n * 125).expect("a tick is due")
}

#[test]
fn sequencer_starts_with_one_empty_sequence() {
    let seq = Sequencer::new();
    assert_eq!(seq.store().len(), 1);
    assert_eq!(seq.store().ids(), &vec![0]);
    let first = seq.store().get(0).unwrap();
    assert_eq!(first.name, "Sequence-0");
    assert_eq!(first.len(), 16);
    assert!(first.is_empty());
    assert_eq!(first.midi_out, None);
    assert_eq!(seq.bpm(), 120);
    assert!(!seq.is_playing());
    assert_eq!(seq.transport().playing(), Vec::<u64>::new());
    assert_eq!(seq.current_step(), 0);
    assert_eq!(seq.next_deadline(), None);
    assert!(seq.can_create());
}

#[test]
fn one_note_pattern_over_sixteen_ticks() {
    let mut seq = Sequencer::new();
    seq.set_step(0, 0, Some((60, 100))).unwrap();
    assert_eq!(seq.play(0, 0), Ok(()));
    let mut all = Vec::new();
    for n in 1..=16 {
        let report = tick(&mut seq, n);
        assert!(report.dropped.is_empty());
        all.push(report.events);
    }
    assert_eq!(all[0], vec![on(0, 60, 100, "Default", 0)]);
    assert_eq!(all[1], vec![off(0, 60, "Default", 0)]);
    for events in &all[2..] {
        assert!(events.is_empty());
    }
    // Wraparound: the pattern repeats.
    assert_eq!(tick(&mut seq, 17).events, vec![on(0, 60, 100, "Default", 0)]);
    assert_eq!(tick(&mut seq, 18).events, vec![off(0, 60, "Default", 0)]);
    for n in 19..=32 {
        assert!(tick(&mut seq, n).events.is_empty());
    }
    assert_eq!(tick(&mut seq, 33).events, vec![on(0, 60, 100, "Default", 0)]);
}

#[test]
fn play_emits_nothing_and_starts_at_step_zero() {
    let mut seq = Sequencer::new();
    seq.set_step(0, 0, Some((60, 100))).unwrap();
    seq.set_step(0, 1, Some((62, 90))).unwrap();
    assert_eq!(seq.play(0, 5000), Ok(()));
    assert!(seq.is_playing());
    assert_eq!(seq.transport().playing(), vec![0]);
    assert_eq!(seq.transport().current_step(0), Some(0));
    assert_eq!(seq.next_deadline(), Some(5125));
    assert_eq!(seq.poll(5124), None);
    let report = seq.poll(5125).unwrap();
    assert_eq!(report.events, vec![on(0, 60, 100, "Default", 0)]);
    assert_eq!(seq.transport().current_step(0), Some(0));
    let report = seq.poll(5250).unwrap();
    assert_eq!(report.events, vec![off(0, 60, "Default", 0), on(0, 62, 90, "Default", 0)]);
    assert_eq!(seq.transport().current_step(0), Some(1));
}

#[test]
fn play_unknown_sequence_is_not_found() {
    let mut seq = Sequencer::new();
    assert_eq!(seq.play(4, 0), Err(SequencerError::NotFound));
    assert!(!seq.is_playing());
    assert_eq!(seq.next_deadline(), None);
    assert_eq!(seq.stop(4), Err(SequencerError::NotFound));
}

#[test]
fn play_twice_keeps_the_position() {
    let mut seq = Sequencer::new();
    seq.play(0, 0).unwrap();
    tick(&mut seq, 1);
    tick(&mut seq, 2);
    tick(&mut seq, 3);
    assert_eq!(seq.transport().current_step(0), Some(2));
    assert_eq!(seq.play(0, 400), Ok(()));
    assert_eq!(seq.transport().current_step(0), Some(2));
    assert_eq!(seq.next_deadline(), Some(500));
}

#[test]
fn stop_emits_the_note_off_at_once() {
    let mut seq = Sequencer::new();
    seq.set_step(0, 0, Some((60, 100))).unwrap();
    seq.play(0, 0).unwrap();
    assert_eq!(tick(&mut seq, 1).events, vec![on(0, 60, 100, "Default", 0)]);
    assert_eq!(seq.stop(0), Ok(vec![off(0, 60, "Default", 0)]));
    assert!(!seq.is_playing());
    assert_eq!(seq.transport().current_step(0), None);
    // The clock is suspended: no tick, however late.
    assert_eq!(seq.next_deadline(), None);
    assert_eq!(seq.poll(1_000_000), None);
    // A second stop has nothing to flush.
    assert_eq!(seq.stop(0), Ok(vec![]));
}

#[test]
fn stop_of_a_silent_sequence_emits_nothing() {
    let mut seq = Sequencer::new();
    seq.set_step(0, 0, Some((60, 100))).unwrap();
    seq.play(0, 0).unwrap();
    tick(&mut seq, 1);
    tick(&mut seq, 2);
    assert_eq!(seq.stop(0), Ok(vec![]));
}

#[test]
fn restart_begins_at_step_zero_on_a_fresh_schedule() {
    let mut seq = Sequencer::new();
    seq.set_step(0, 0, Some((60, 100))).unwrap();
    seq.set_step(0, 3, Some((70, 80))).unwrap();
    seq.play(0, 0).unwrap();
    for n in 1..=3 {
        tick(&mut seq, n);
    }
    seq.stop(0).unwrap();
    seq.play(0, 1010).unwrap();
    assert_eq!(seq.next_deadline(), Some(1135));
    assert_eq!(seq.poll(1134), None);
    assert_eq!(seq.poll(1135).unwrap().events, vec![on(0, 60, 100, "Default", 0)]);
}

#[test]
fn delete_of_a_sounding_sequence_flushes_its_note_off() {
    let mut seq = Sequencer::new();
    let id = seq.create_sequence("lead".to_string());
    assert_eq!(id, 1);
    seq.set_step(id, 0, Some((72, 64))).unwrap();
    seq.play(id, 0).unwrap();
    assert_eq!(tick(&mut seq, 1).events, vec![on(1, 72, 64, "Default", 0)]);
    assert_eq!(seq.delete_sequence(id), Ok(vec![off(1, 72, "Default", 0)]));
    assert_eq!(seq.get_step(id, 0), Err(SequencerError::NotFound));
    assert!(!seq.store().contains(id));
    assert!(!seq.transport().is_playing(id));
    assert!(!seq.is_playing());
    assert_eq!(seq.poll(10_000), None);
    assert_eq!(seq.delete_sequence(id), Err(SequencerError::NotFound));
    assert_eq!(seq.play(id, 0), Err(SequencerError::NotFound));
}

#[test]
fn delete_of_a_stopped_sequence_emits_nothing() {
    let mut seq = Sequencer::new();
    let id = seq.create_sequence("lead".to_string());
    seq.play(0, 0).unwrap();
    assert_eq!(seq.delete_sequence(id), Ok(vec![]));
    assert!(seq.is_playing());
    assert_eq!(seq.store().ids(), &vec![0]);
    assert_eq!(seq.delete_sequence(9), Err(SequencerError::NotFound));
}

#[test]
fn rebinding_mid_note_sends_the_note_off_to_the_old_destination() {
    let mut seq = Sequencer::new();
    seq.set_step(0, 0, Some((60, 100))).unwrap();
    seq.set_step(0, 1, Some((62, 100))).unwrap();
    seq.set_step(0, 2, Some((64, 100))).unwrap();
    seq.set_output(0, Some(MidiOut { dev: "old".to_string(), channel: 1 })).unwrap();
    seq.play(0, 0).unwrap();
    assert_eq!(tick(&mut seq, 1).events, vec![on(0, 60, 100, "old", 1)]);
    seq.set_output(0, Some(MidiOut { dev: "new".to_string(), channel: 2 })).unwrap();
    assert_eq!(tick(&mut seq, 2).events, vec![off(0, 60, "old", 1), on(0, 62, 100, "new", 2)]);
    assert_eq!(tick(&mut seq, 3).events, vec![off(0, 62, "new", 2), on(0, 64, 100, "new", 2)]);
    seq.set_output(0, None).unwrap();
    assert_eq!(seq.stop(0), Ok(vec![off(0, 64, "new", 2)]));
}

#[test]
fn zero_velocity_is_silence() {
    let mut seq = Sequencer::new();
    seq.set_step(0, 0, Some((60, 0))).unwrap();
    seq.set_step(0, 1, Some((61, 1))).unwrap();
    seq.play(0, 0).unwrap();
    let report = tick(&mut seq, 1);
    assert!(report.events.is_empty());
    assert!(report.dropped.is_empty());
    assert_eq!(tick(&mut seq, 2).events, vec![on(0, 61, 1, "Default", 0)]);
}

#[test]
fn unavailable_output_drops_the_note_and_plays_on() {
    let mut seq = Sequencer::new();
    let b = seq.create_sequence("b".to_string());
    seq.set_step(0, 0, Some((60, 100))).unwrap();
    seq.set_step(0, 1, Some((61, 100))).unwrap();
    seq.set_step(b, 0, Some((40, 50))).unwrap();
    seq.set_output(0, Some(MidiOut { dev: "gone".to_string(), channel: 4 })).unwrap();
    seq.set_available("gone".to_string(), false);
    seq.play(0, 0).unwrap();
    seq.play(b, 0).unwrap();
    let report = tick(&mut seq, 1);
    assert_eq!(report.events, vec![on(1, 40, 50, "Default", 0)]);
    assert_eq!(report.dropped, vec![0]);
    // Nothing was recorded as sounding for the dropped note: no note-off follows.
    seq.set_available("gone".to_string(), true);
    let report = tick(&mut seq, 2);
    assert_eq!(report.events, vec![on(0, 61, 100, "gone", 4), off(1, 40, "Default", 0)]);
    assert!(report.dropped.is_empty());
}

#[test]
fn note_off_is_emitted_though_the_device_went_away() {
    let mut seq = Sequencer::new();
    seq.set_step(0, 0, Some((60, 100))).unwrap();
    seq.set_step(0, 1, Some((61, 100))).unwrap();
    seq.play(0, 0).unwrap();
    assert_eq!(tick(&mut seq, 1).events, vec![on(0, 60, 100, "Default", 0)]);
    seq.set_available("Default".to_string(), false);
    let report = tick(&mut seq, 2);
    assert_eq!(report.events, vec![off(0, 60, "Default", 0)]);
    assert_eq!(report.dropped, vec![0]);
    assert_eq!(seq.stop(0), Ok(vec![]));
}

#[test]
fn tick_goes_through_the_sequences_in_ascending_order_of_id() {
    let mut seq = Sequencer::new();
    let b = seq.create_sequence("b".to_string());
    let c = seq.create_sequence("c".to_string());
    for id in [0, b, c] {
        seq.set_step(id, 0, Some((60 + id as u8, 100))).unwrap();
        seq.set_step(id, 1, Some((70 + id as u8, 100))).unwrap();
    }
    // Started in another order than that of the ids.
    seq.play(c, 0).unwrap();
    seq.play(0, 0).unwrap();
    seq.play(b, 0).unwrap();
    assert_eq!(seq.transport().playing(), vec![0, 1, 2]);
    assert_eq!(
        tick(&mut seq, 1).events,
        vec![
            on(0, 60, 100, "Default", 0),
            on(1, 61, 100, "Default", 0),
            on(2, 62, 100, "Default", 0),
        ]
    );
    assert_eq!(
        tick(&mut seq, 2).events,
        vec![
            off(0, 60, "Default", 0),
            on(0, 70, 100, "Default", 0),
            off(1, 61, "Default", 0),
            on(1, 71, 100, "Default", 0),
            off(2, 62, "Default", 0),
            on(2, 72, 100, "Default", 0),
        ]
    );
}

#[test]
fn a_late_start_joins_the_running_clock_at_step_zero() {
    let mut seq = Sequencer::new();
    let b = seq.create_sequence("b".to_string());
    seq.set_step(b, 0, Some((50, 50))).unwrap();
    seq.play(0, 0).unwrap();
    tick(&mut seq, 1);
    tick(&mut seq, 2);
    seq.play(b, 300).unwrap();
    // The clock keeps its schedule.
    assert_eq!(seq.next_deadline(), Some(375));
    assert_eq!(tick(&mut seq, 3).events, vec![on(1, 50, 50, "Default", 0)]);
    assert_eq!(seq.transport().current_step(0), Some(2));
    assert_eq!(seq.transport().current_step(b), Some(0));
}

#[test]
fn stopping_one_of_two_keeps_the_clock_running() {
    let mut seq = Sequencer::new();
    let b = seq.create_sequence("b".to_string());
    seq.play(0, 0).unwrap();
    seq.play(b, 0).unwrap();
    tick(&mut seq, 1);
    seq.stop(0).unwrap();
    assert!(seq.is_playing());
    assert_eq!(seq.next_deadline(), Some(250));
    seq.stop(b).unwrap();
    assert!(!seq.is_playing());
    assert_eq!(seq.next_deadline(), None);
}

#[test]
fn stop_all_flushes_every_sounding_note() {
    let mut seq = Sequencer::new();
    let b = seq.create_sequence("b".to_string());
    let c = seq.create_sequence("c".to_string());
    seq.set_step(0, 0, Some((60, 100))).unwrap();
    seq.set_step(c, 0, Some((62, 100))).unwrap();
    seq.set_output(c, Some(MidiOut { dev: "synth".to_string(), channel: 7 })).unwrap();
    seq.play(0, 0).unwrap();
    seq.play(b, 0).unwrap();
    seq.play(c, 0).unwrap();
    tick(&mut seq, 1);
    assert_eq!(seq.stop_all(), vec![off(0, 60, "Default", 0), off(2, 62, "synth", 7)]);
    assert!(!seq.is_playing());
    assert_eq!(seq.next_deadline(), None);
    assert_eq!(seq.stop_all(), vec![]);
}

#[test]
fn set_bpm_mid_playback_changes_later_intervals_only() {
    let mut seq = Sequencer::new();
    seq.play(0, 0).unwrap();
    assert!(seq.poll(125).is_some());
    seq.set_bpm(60);
    assert_eq!(seq.bpm(), 60);
    assert_eq!(seq.next_deadline(), Some(250));
    assert!(seq.poll(249).is_none());
    assert!(seq.poll(250).is_some());
    assert_eq!(seq.next_deadline(), Some(500));
    assert!(seq.poll(499).is_none());
    assert!(seq.poll(500).is_some());
    assert_eq!(seq.transport().current_step(0), Some(2));
}

#[test]
fn a_late_poll_advances_one_step() {
    let mut seq = Sequencer::new();
    seq.play(0, 0).unwrap();
    assert!(seq.poll(1000).is_some());
    assert_eq!(seq.transport().current_step(0), Some(0));
    assert!(seq.poll(1000).is_none());
    assert_eq!(seq.next_deadline(), Some(1125));
}
