//! Patterns and their output bindings.

use vstd::prelude::*;
use crate::note::{Slot, slot_in_range};

verus! {

/// The sequences of a project, in creation order.
pub type Sequences = Vec<Sequence>;

/// The number of steps of a newly created pattern.
pub const DEFAULT_STEPS: usize = 16;

/// The highest MIDI channel.
pub const MAX_CHANNEL: u8 = 15;

/// A MIDI destination as a mathematical value: a device name and a channel.
pub struct Destination {
    pub device: Seq<char>,
    pub channel: u8,
}

/// A MIDI destination: a device identifier and a channel on it.
#[derive(Debug, PartialEq, Eq)]
pub struct MidiOut {
    pub dev: String,
    pub channel: u8,
}

impl View for MidiOut {
    type V = Destination;

    open spec fn view(&self) -> Destination {
        Destination { device: self.dev@, channel: self.channel }
    }
}

impl Clone for MidiOut {
    fn clone(&self) -> (copy: Self)
        ensures
            copy == *self,
    {
        MidiOut { dev: self.dev.clone(), channel: self.channel }
    }
}

/// The destination that an optional binding stands for, if any.
pub open spec fn binding_view(binding: Option<MidiOut>) -> Option<Destination> {
    match binding {
        Some(out) => Some(out@),
        None => None,
    }
}

impl MidiOut {
    /// Whether the channel is one of the sixteen MIDI channels.
    pub open spec fn valid(&self) -> bool {
        self.channel <= 15
    }

    /// A destination on `dev`, or nothing when `channel` is not a MIDI channel.
    pub fn new(dev: String, channel: u8) -> (out: Option<MidiOut>)
        ensures
            channel <= 15 ==> out == Some(MidiOut { dev, channel }),
            channel > 15 ==> out is None,
    {
        if channel <= MAX_CHANNEL {
            Some(MidiOut { dev, channel })
        } else {
            None
        }
    }

    /// Tests whether the channel is one of the sixteen MIDI channels.
    pub fn is_valid(&self) -> (ok: bool)
        ensures
            ok == self.valid(),
    {
        self.channel <= MAX_CHANNEL
    }
}

/// A pattern as a mathematical value.
pub struct Pattern {
    pub notes: Seq<Slot>,
    pub name: Seq<char>,
    pub output: Option<Destination>,
}

impl Pattern {
    /// Whether every slot is empty or holds a note in the MIDI data range.
    pub open spec fn in_range(self) -> bool {
        forall|i: int| 0 <= i < self.notes.len() ==> slot_in_range(#[trigger] self.notes[i])
    }

    /// Whether no slot holds a note.
    pub open spec fn blank(self) -> bool {
        forall|i: int| 0 <= i < self.notes.len() ==> (#[trigger] self.notes[i]) is None
    }

    /// The pattern of `len` empty slots called `name`, bound to no output.
    pub open spec fn fresh(name: Seq<char>, len: nat) -> Pattern {
        Pattern { notes: Seq::new(len, |i: int| None::<(u8, u8)>), name, output: None }
    }
}

/// A named row of step slots with an optional output binding.
#[derive(Debug, PartialEq, Eq)]
pub struct Sequence {
    pub notes: Vec<Slot>,
    pub name: String,
    pub midi_out: Option<MidiOut>,
}

impl View for Sequence {
    type V = Pattern;

    open spec fn view(&self) -> Pattern {
        Pattern { notes: self.notes@, name: self.name@, output: binding_view(self.midi_out) }
    }
}

impl Clone for Sequence {
    fn clone(&self) -> (copy: Self)
        ensures
            copy@ == self@,
    {
        let mut notes: Vec<Slot> = Vec::new();
        let mut i: usize = 0;
        while i < self.notes.len()
            invariant
                i <= self.notes@.len(),
                notes@ == self.notes@.take(i as int),
            decreases self.notes@.len() - i,
        {
            notes.push(self.notes[i]);
            i += 1;
            assert(notes@ =~= self.notes@.take(i as int));
        }
        assert(notes@ =~= self.notes@);
        let midi_out = match &self.midi_out {
            Some(out) => Some(out.clone()),
            None => None,
        };
        Sequence { notes, name: self.name.clone(), midi_out }
    }
}

impl Sequence {
    /// A pattern of sixteen empty slots, bound to no output.
    pub fn new(name: String) -> (seq: Self)
        ensures
            seq@ == Pattern::fresh(name@, 16),
    {
        Sequence::with_len(name, DEFAULT_STEPS)
    }

    /// A pattern of `len` empty slots, bound to no output.
    pub fn with_len(name: String, len: usize) -> (seq: Self)
        ensures
            seq@ == Pattern::fresh(name@, len as nat),
    {
        let mut notes: Vec<Slot> = Vec::new();
        let mut i: usize = 0;
        while i < len
            invariant
                i <= len,
                notes@ == Seq::new(i as nat, |k: int| None::<(u8, u8)>),
            decreases len - i,
        {
            notes.push(None);
            i += 1;
            assert(notes@ =~= Seq::new(i as nat, |k: int| None::<(u8, u8)>));
        }
        Sequence { notes, name, midi_out: None }
    }

    /// The number of steps.
    pub fn len(&self) -> (n: usize)
        ensures
            n == self@.notes.len(),
    {
        self.notes.len()
    }

    /// Whether no step holds a note; so of a pattern without steps.
    pub fn is_empty(&self) -> (empty: bool)
        ensures
            empty == self@.blank(),
    {
        let mut i: usize = 0;
        while i < self.notes.len()
            invariant
                i <= self.notes@.len(),
                forall|k: int| 0 <= k < i ==> (#[trigger] self.notes@[k]) is None,
            decreases self.notes@.len() - i,
        {
            if self.notes[i].is_some() {
                return false;
            }
            i += 1;
        }
        true
    }

    /// Whether every slot is empty or holds a note in the MIDI data range.
    pub fn is_in_range(&self) -> (ok: bool)
        ensures
            ok == self@.in_range(),
    {
        let mut i: usize = 0;
        while i < self.notes.len()
            invariant
                i <= self.notes@.len(),
                forall|k: int| 0 <= k < i ==> slot_in_range(#[trigger] self.notes@[k]),
            decreases self.notes@.len() - i,
        {
            if !crate::note::is_valid_slot(self.notes[i]) {
                assert(!slot_in_range(self@.notes[i as int]));
                return false;
            }
            i += 1;
        }
        true
    }
}

} // verus!
