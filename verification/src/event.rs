//! The MIDI events that the sequencer emits.

use vstd::prelude::*;
use crate::sequence::Destination;

verus! {

/// A MIDI event as a mathematical value.
pub enum EventView {
    NoteOn { pitch: u8, velocity: u8, dest: Destination },
    NoteOff { pitch: u8, dest: Destination },
}

/// A MIDI event on its way to a channel of a device.
#[derive(Debug, PartialEq, Eq)]
pub enum MidiEvent {
    NoteOn { pitch: u8, velocity: u8, device: String, channel: u8 },
    NoteOff { pitch: u8, device: String, channel: u8 },
}

impl View for MidiEvent {
    type V = EventView;

    open spec fn view(&self) -> EventView {
        match *self {
            MidiEvent::NoteOn { pitch, velocity, device, channel } => EventView::NoteOn {
                pitch,
                velocity,
                dest: Destination { device: device@, channel },
            },
            MidiEvent::NoteOff { pitch, device, channel } => EventView::NoteOff {
                pitch,
                dest: Destination { device: device@, channel },
            },
        }
    }
}

/// An emitted event together with the sequence that it comes from, as a
/// mathematical value.
pub struct DispatchView {
    pub sequence: u64,
    pub event: EventView,
}

/// An emitted event together with the id of the sequence that it comes from.
#[derive(Debug, PartialEq, Eq)]
pub struct Dispatch {
    pub sequence: u64,
    pub event: MidiEvent,
}

impl View for Dispatch {
    type V = DispatchView;

    open spec fn view(&self) -> DispatchView {
        DispatchView { sequence: self.sequence, event: self.event@ }
    }
}

/// The events that a row of dispatches stands for.
pub open spec fn dispatch_views(events: Seq<Dispatch>) -> Seq<DispatchView> {
    Seq::new(events.len(), |i: int| events[i]@)
}

/// The note-off of `pitch` from `sequence` on `dest`.
pub open spec fn note_off(sequence: u64, pitch: u8, dest: Destination) -> DispatchView {
    DispatchView { sequence, event: EventView::NoteOff { pitch, dest } }
}

/// The note-on of `pitch` at `velocity` from `sequence` on `dest`.
pub open spec fn note_on(sequence: u64, pitch: u8, velocity: u8, dest: Destination) -> DispatchView {
    DispatchView { sequence, event: EventView::NoteOn { pitch, velocity, dest } }
}

/// What one tick gives the caller: the events to deliver, in order, and the
/// ids of the sequences whose note-on was dropped because their destination
/// is out of reach.
#[derive(Debug, PartialEq, Eq)]
pub struct TickReport {
    pub events: Vec<Dispatch>,
    pub dropped: Vec<u64>,
}

} // verus!
