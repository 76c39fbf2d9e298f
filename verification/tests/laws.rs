use step_sequencer::event::{Dispatch, MidiEvent};
use step_sequencer::sequence::{MidiOut, Sequence};
use step_sequencer::sequencer::Sequencer;
use step_sequencer::store::PatternStore;
use step_sequencer::router::OutputRouter;
use step_sequencer::transport::Transport;

fn count(events: &[Dispatch], id: u64) -> (usize, usize) {
    let ons = events
        .iter()
        .filter(|d| d.sequence == id && matches!(d.event, MidiEvent::NoteOn { .. }))
        .count();
    let offs = events
        .iter()
        .filter(|d| d.sequence == id && matches!(d.event, MidiEvent::NoteOff { .. }))
        .count();
    (ons, offs)
}

#[test]
fn note_offs_never_outnumber_note_ons_along_a_run() {
    let mut seq = Sequencer::new();
    let b = seq.create_sequence("b".to_string());
    for step in [0usize, 1, 2, 5, 15] {
        seq.set_step(0, step, Some((60 + step as u8, 100))).unwrap();
    }
    for step in [0usize, 4, 8, 12] {
        seq.set_step(b, step, Some((36, 127))).unwrap();
    }
    let mut trace: Vec<Dispatch> = Vec::new();
    seq.play(0, 0).unwrap();
    let mut now = 0;
    for round in 0..80u64 {
        now += 125;
        if round == 3 {
            seq.play(b, now - 1).unwrap();
        }
        if round == 30 {
            trace.extend(seq.stop(0).unwrap());
            let (ons, offs) = count(&trace, 0);
            assert_eq!(ons, offs);
        }
        if round == 41 {
            seq.play(0, now - 1).unwrap();
        }
        if round == 50 {
            seq.set_output(0, Some(MidiOut { dev: "x".to_string(), channel: 1 })).unwrap();
        }
        if let Some(report) = seq.poll(now) {
            for event in report.events {
                trace.push(event);
                for id in [0, b] {
                    let (ons, offs) = count(&trace, id);
                    assert!(offs <= ons);
                    assert!(ons <= offs + 1);
                }
            }
        }
    }
    trace.extend(seq.delete_sequence(b).unwrap());
    let (ons, offs) = count(&trace, b);
    assert_eq!(ons, offs);
    assert!(ons > 0);
    trace.extend(seq.stop_all());
    let (ons, offs) = count(&trace, 0);
    assert_eq!(ons, offs);
    assert!(ons > 0);
}

fn events_of_b(edit_a: bool) -> Vec<Dispatch> {
    let mut seq = Sequencer::new();
    let b = seq.create_sequence("b".to_string());
    seq.set_step(0, 2, Some((60, 100))).unwrap();
    for step in [0usize, 3, 4, 9] {
        seq.set_step(b, step, Some((40 + step as u8, 90))).unwrap();
    }
    seq.play(0, 0).unwrap();
    seq.play(b, 0).unwrap();
    let mut out = Vec::new();
    for n in 1..=40u64 {
        if edit_a && n % 3 == 0 {
            seq.set_step(0, (n % 16) as usize, Some((n as u8, 100))).unwrap();
        }
        if edit_a && n == 20 {
            seq.set_step(0, 2, None).unwrap();
        }
        let report = seq.poll(n * 125).unwrap();
        out.extend(report.events.into_iter().filter(|d| d.sequence == b));
    }
    out
}

#[test]
fn editing_one_sequence_leaves_the_events_of_another() {
    let plain = events_of_b(false);
    let edited = events_of_b(true);
    assert!(!plain.is_empty());
    assert_eq!(plain, edited);
}

#[test]
fn written_slot_reads_back_during_playback() {
    let mut seq = Sequencer::new();
    let b = seq.create_sequence("b".to_string());
    seq.play(b, 0).unwrap();
    seq.poll(125).unwrap();
    seq.set_step(0, 7, Some((99, 33))).unwrap();
    assert_eq!(seq.get_step(0, 7), Ok(Some((99, 33))));
    assert_eq!(seq.get_step(0, 6), Ok(None));
    assert_eq!(seq.get_step(b, 7), Ok(None));
    seq.poll(250).unwrap();
    assert_eq!(seq.get_step(0, 7), Ok(Some((99, 33))));
}

#[test]
fn patterns_of_different_lengths_keep_their_own_phase() {
    let mut store = PatternStore::new();
    let mut three = Sequence::with_len("three".to_string(), 3);
    three.notes[0] = Some((30, 100));
    let mut four = Sequence::with_len("four".to_string(), 4);
    four.notes[0] = Some((40, 100));
    let a = store.insert_sequence(three).unwrap();
    let b = store.insert_sequence(four).unwrap();
    let router = OutputRouter::new();
    let mut transport = Transport::new();
    transport.play(a, &store);
    transport.play(b, &store);
    let mut a_on = Vec::new();
    let mut b_on = Vec::new();
    for n in 0..24 {
        for d in transport.tick(&store, &router).events {
            if let MidiEvent::NoteOn { .. } = d.event {
                if d.sequence == a {
                    a_on.push(n);
                } else {
                    b_on.push(n);
                }
            }
        }
        assert_eq!(transport.current_step(a), Some(n % 3));
        assert_eq!(transport.current_step(b), Some(n % 4));
    }
    assert_eq!(a_on, vec![0, 3, 6, 9, 12, 15, 18, 21]);
    assert_eq!(b_on, vec![0, 4, 8, 12, 16, 20]);
}

#[test]
fn pattern_without_steps_plays_silence() {
    let mut store = PatternStore::new();
    let id = store.insert_sequence(Sequence::with_len("none".to_string(), 0)).unwrap();
    let router = OutputRouter::new();
    let mut transport = Transport::new();
    transport.play(id, &store);
    for _ in 0..3 {
        let report = transport.tick(&store, &router);
        assert!(report.events.is_empty());
        assert!(report.dropped.is_empty());
        assert_eq!(transport.current_step(id), Some(0));
    }
    assert!(transport.stop(id, &store).is_empty());
}

#[test]
fn shown_step_is_the_greatest_among_sixteen_step_patterns() {
    let mut seq = Sequencer::new();
    let b = seq.create_sequence("b".to_string());
    seq.play(0, 0).unwrap();
    for n in 1..=6u64 {
        seq.poll(n * 125).unwrap();
    }
    assert_eq!(seq.current_step(), 5);
    seq.play(b, 751).unwrap();
    assert_eq!(seq.current_step(), 5);
    seq.poll(875).unwrap();
    assert_eq!(seq.transport().current_step(0), Some(6));
    assert_eq!(seq.transport().current_step(b), Some(0));
    assert_eq!(seq.current_step(), 6);
    seq.stop(0).unwrap();
    assert_eq!(seq.current_step(), 0);
    seq.poll(1000).unwrap();
    seq.poll(1125).unwrap();
    assert_eq!(seq.current_step(), 2);
    // The last value stays when nothing plays any more.
    seq.stop(b).unwrap();
    assert_eq!(seq.current_step(), 2);
    seq.poll(5000);
    assert_eq!(seq.current_step(), 2);
}

#[test]
fn shown_step_ignores_patterns_of_other_lengths() {
    let mut store = PatternStore::new();
    let short = store.insert_sequence(Sequence::with_len("short".to_string(), 5)).unwrap();
    let full = store.create_sequence("full".to_string());
    let router = OutputRouter::new();
    let mut transport = Transport::new();
    transport.play(short, &store);
    for _ in 0..4 {
        transport.tick(&store, &router);
    }
    assert_eq!(transport.current_step(short), Some(3));
    assert_eq!(transport.shown_step(), 0);
    transport.play(full, &store);
    transport.tick(&store, &router);
    transport.tick(&store, &router);
    assert_eq!(transport.current_step(short), Some(0));
    assert_eq!(transport.current_step(full), Some(1));
    assert_eq!(transport.shown_step(), 1);
}
