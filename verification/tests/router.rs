use step_sequencer::error::SequencerError;
use step_sequencer::router::OutputRouter;
use step_sequencer::sequence::{MidiOut, Sequence};

#[test]
fn router_resolves_unbound_sequence_to_default() {
    let router = OutputRouter::new();
    let seq = Sequence::new("a".to_string());
    assert_eq!(router.resolve(&seq), Ok(MidiOut { dev: "Default".to_string(), channel: 0 }));
    assert_eq!(router.default_output(), &MidiOut { dev: "Default".to_string(), channel: 0 });
}

#[test]
fn router_resolves_bound_sequence_to_its_output() {
    let router = OutputRouter::with_default_device("main".to_string());
    let mut seq = Sequence::new("a".to_string());
    assert_eq!(router.resolve(&seq), Ok(MidiOut { dev: "main".to_string(), channel: 0 }));
    seq.midi_out = Some(MidiOut { dev: "synth".to_string(), channel: 3 });
    assert_eq!(router.resolve(&seq), Ok(MidiOut { dev: "synth".to_string(), channel: 3 }));
}

#[test]
fn router_reports_unavailable_device() {
    let mut router = OutputRouter::new();
    let mut seq = Sequence::new("a".to_string());
    seq.midi_out = Some(MidiOut { dev: "synth".to_string(), channel: 3 });
    router.set_available("synth".to_string(), false);
    assert!(!router.is_available(&"synth".to_string()));
    assert!(router.is_available(&"Default".to_string()));
    assert_eq!(router.resolve(&seq), Err(SequencerError::OutputUnavailable));
    seq.midi_out = None;
    assert_eq!(router.resolve(&seq), Ok(MidiOut { dev: "Default".to_string(), channel: 0 }));
    router.set_available("Default".to_string(), false);
    assert_eq!(router.resolve(&seq), Err(SequencerError::OutputUnavailable));
}

#[test]
fn router_device_comes_back() {
    let mut router = OutputRouter::new();
    router.set_available("synth".to_string(), false);
    router.set_available("synth".to_string(), false);
    router.set_available("drums".to_string(), false);
    router.set_available("synth".to_string(), true);
    assert!(router.is_available(&"synth".to_string()));
    assert!(!router.is_available(&"drums".to_string()));
    router.set_available("never seen".to_string(), true);
    assert!(router.is_available(&"never seen".to_string()));
    assert!(!router.is_available(&"drums".to_string()));
}
