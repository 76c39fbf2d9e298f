//! Notes and step slots.

use vstd::prelude::*;

verus! {

/// A MIDI pitch number.
pub type MidiNote = u8;

/// A MIDI velocity.
pub type MidiVelocity = u8;

/// One step of a pattern: empty, or a pitch with its velocity.
pub type Slot = Option<(MidiNote, MidiVelocity)>;

/// The largest value of a MIDI data byte.
pub const MAX_DATA: u8 = 127;

/// Whether a pitch and a velocity both lie in the MIDI data range.
pub open spec fn note_in_range(pitch: u8, velocity: u8) -> bool {
    pitch <= 127 && velocity <= 127
}

/// Whether a slot is empty or holds a note in the MIDI data range.
pub open spec fn slot_in_range(slot: Slot) -> bool {
    match slot {
        Some((pitch, velocity)) => note_in_range(pitch, velocity),
        None => true,
    }
}

/// The note that a slot sounds when it is played: the slot's own note,
/// except that a velocity of zero stands for silence.
pub open spec fn audible(slot: Slot) -> Slot {
    match slot {
        Some((pitch, velocity)) => if velocity == 0 {
            None
        } else {
            Some((pitch, velocity))
        },
        None => None,
    }
}

/// The pitch of the note in a slot.
pub open spec fn pitch_of(slot: Slot) -> u8 {
    match slot {
        Some((pitch, _)) => pitch,
        None => 0,
    }
}

/// The velocity of the note in a slot; zero for an empty slot.
pub open spec fn velocity_of(slot: Slot) -> u8 {
    match slot {
        Some((_, velocity)) => velocity,
        None => 0,
    }
}

/// Tests whether a pitch and a velocity both lie in the MIDI data range.
pub fn is_valid_note(pitch: MidiNote, velocity: MidiVelocity) -> (ok: bool)
    ensures
        ok == note_in_range(pitch, velocity),
{
    pitch <= MAX_DATA && velocity <= MAX_DATA
}

/// Tests whether a slot may be stored in a pattern.
pub fn is_valid_slot(slot: Slot) -> (ok: bool)
    ensures
        ok == slot_in_range(slot),
{
    match slot {
        Some((pitch, velocity)) => is_valid_note(pitch, velocity),
        None => true,
    }
}

/// The note to strike for a slot, if any: a velocity of zero is silence.
pub fn sounding_note(slot: Slot) -> (note: Slot)
    ensures
        note == audible(slot),
{
    match slot {
        Some((pitch, velocity)) => if velocity == 0 {
            None
        } else {
            Some((pitch, velocity))
        },
        None => None,
    }
}

} // verus!
