//! The output router: where the events of a sequence go.

use vstd::prelude::*;
use crate::error::SequencerError;
use crate::sequence::{Destination, MidiOut, Pattern, Sequence};

verus! {

/// A router as a mathematical value: the destination of sequences bound to
/// no output, and the devices that accept no events at present.
pub struct RouterView {
    pub fallback: Destination,
    pub offline: Set<Seq<char>>,
}

impl RouterView {
    /// The destination that a pattern's events go to: its own output if it
    /// is bound to one, the default otherwise.
    pub open spec fn effective(self, pattern: Pattern) -> Destination {
        match pattern.output {
            Some(dest) => dest,
            None => self.fallback,
        }
    }

    /// Whether a device accepts events.
    pub open spec fn available(self, device: Seq<char>) -> bool {
        !self.offline.contains(device)
    }

    /// The effective destination of a pattern, or the failure to reach it.
    pub open spec fn resolve(self, pattern: Pattern) -> Result<Destination, SequencerError> {
        if self.available(self.effective(pattern).device) {
            Ok(self.effective(pattern))
        } else {
            Err(SequencerError::OutputUnavailable)
        }
    }

    /// The router after a device is reported to accept events, or not to.
    pub open spec fn with_availability(self, device: Seq<char>, available: bool) -> RouterView {
        RouterView {
            fallback: self.fallback,
            offline: if available {
                self.offline.remove(device)
            } else {
                self.offline.insert(device)
            },
        }
    }
}

/// Maps each sequence to a MIDI destination and knows which devices are
/// out of reach.
#[derive(Debug)]
pub struct OutputRouter {
    default_out: MidiOut,
    offline: Vec<String>,
}

impl View for OutputRouter {
    type V = RouterView;

    closed spec fn view(&self) -> RouterView {
        RouterView {
            fallback: self.default_out@,
            offline: Set::new(
                |device: Seq<char>|
                    exists|i: int| 0 <= i < self.offline@.len() && self.offline@[i]@ == device,
            ),
        }
    }
}

impl OutputRouter {
    /// A router whose default is channel 0 of the device `Default`, with
    /// every device available.
    pub fn new() -> (router: Self)
        ensures
            router@.fallback == (Destination { device: "Default"@, channel: 0 }),
            router@.offline == Set::<Seq<char>>::empty(),
    {
        OutputRouter::with_default_device(String::from_str("Default"))
    }

    /// A router whose default is channel 0 of `device`, with every device
    /// available.
    pub fn with_default_device(device: String) -> (router: Self)
        ensures
            router@.fallback == (Destination { device: device@, channel: 0 }),
            router@.offline == Set::<Seq<char>>::empty(),
    {
        let router = OutputRouter {
            default_out: MidiOut { dev: device, channel: 0 },
            offline: Vec::new(),
        };
        assert(router@.offline =~= Set::<Seq<char>>::empty());
        router
    }

    /// The destination of sequences bound to no output.
    pub fn default_output(&self) -> (out: &MidiOut)
        ensures
            out@ == self@.fallback,
    {
        &self.default_out
    }

    /// Where `device` stands in the list of devices out of reach.
    fn offline_index(&self, device: &String) -> (found: Option<usize>)
        ensures
            match found {
                Some(i) => i < self.offline@.len() && self.offline@[i as int]@ == device@,
                None => self@.available(device@),
            },
    {
        let mut i: usize = 0;
        while i < self.offline.len()
            invariant
                i <= self.offline@.len(),
                forall|k: int| 0 <= k < i ==> self.offline@[k]@ != device@,
            decreases self.offline@.len() - i,
        {
            if self.offline[i] == *device {
                return Some(i);
            }
            i += 1;
        }
        None
    }

    /// Whether a device accepts events.
    pub fn is_available(&self, device: &String) -> (available: bool)
        ensures
            available == self@.available(device@),
    {
        self.offline_index(device).is_none()
    }

    /// Records that a device accepts events, or that it does not.
    pub fn set_available(&mut self, device: String, available: bool)
        ensures
            final(self)@ == old(self)@.with_availability(device@, available),
    {
        if available {
            loop
                invariant
                    self.default_out == old(self).default_out,
                    forall|d: Seq<char>|
                        d != device@ ==> (self@.offline.contains(d) <==> old(self)@.offline.contains(
                            d,
                        )),
                ensures
                    self@.available(device@),
                decreases self.offline@.len(),
            {
                match self.offline_index(&device) {
                    Some(i) => {
                        let ghost before = self.offline@;
                        self.offline.remove(i);
                        assert forall|d: Seq<char>| d != device@ implies (self@.offline.contains(d)
                            <==> old(self)@.offline.contains(d)) by {
                            if old(self)@.offline.contains(d) {
                                let k = choose|k: int|
                                    0 <= k < before.len() && before[k]@ == d;
                                if k < i {
                                    assert(self.offline@[k]@ == d);
                                } else {
                                    assert(self.offline@[k - 1]@ == d);
                                }
                            }
                            if self@.offline.contains(d) {
                                let k = choose|k: int|
                                    0 <= k < self.offline@.len() && self.offline@[k]@ == d;
                                if k < i {
                                    assert(before[k]@ == d);
                                } else {
                                    assert(before[k + 1]@ == d);
                                }
                            }
                        }
                    },
                    None => {
                        break ;
                    },
                }
            }
            assert(self@.offline =~= old(self)@.offline.remove(device@));
        } else {
            if self.offline_index(&device).is_none() {
                let ghost before = self.offline@;
                self.offline.push(device);
                assert(self.offline@[before.len() as int]@ == device@);
                assert forall|d: Seq<char>| self@.offline.contains(d) <==> (old(
                    self,
                )@.offline.contains(d) || d == device@) by {
                    if old(self)@.offline.contains(d) {
                        let k = choose|k: int| 0 <= k < before.len() && before[k]@ == d;
                        assert(self.offline@[k]@ == d);
                    }
                }
            }
            assert(self@.offline =~= old(self)@.offline.insert(device@));
        }
    }

    /// The destination of a sequence's events: its own output if it is bound
    /// to one, the default otherwise; a failure when that device is out of
    /// reach.
    pub fn resolve(&self, sequence: &Sequence) -> (result: Result<MidiOut, SequencerError>)
        ensures
            match self@.resolve(sequence@) {
                Ok(dest) => result is Ok && result->Ok_0@ == dest,
                Err(e) => result == Err::<MidiOut, SequencerError>(e),
            },
    {
        let out = match &sequence.midi_out {
            Some(out) => out,
            None => &self.default_out,
        };
        if self.is_available(&out.dev) {
            Ok(out.clone())
        } else {
            Err(SequencerError::OutputUnavailable)
        }
    }
}

} // verus!
