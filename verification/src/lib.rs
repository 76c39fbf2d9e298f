//! A multi-pattern MIDI step sequencer engine.
//!
//! The crate holds the pattern data model, the per-sequence transport state
//! machine, the output router, the deadline-based playback clock and the
//! text that a front end shows for them. Every operation is a total function
//! on an explicitly owned state object; the caller supplies the time and
//! delivers the emitted MIDI events.

pub mod app;
pub mod clock;
pub mod error;
pub mod event;
pub mod independence;
pub mod laws;
pub mod note;
pub mod playing;
pub mod router;
pub mod sequence;
pub mod sequencer;
pub mod store;
pub mod text;
pub mod transport;
pub mod ui;

pub use note::{MidiNote, MidiVelocity, Slot};
pub use sequence::{MidiOut, Sequence, Sequences};
