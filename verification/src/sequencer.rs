//! The sequencer: the pattern store, the transport, the router and the
//! clock as one state object, and the commands on it.

use vstd::prelude::*;
use crate::clock::{Clock, ClockView};
use crate::error::{outcome, SequencerError};
use crate::event::{dispatch_views, Dispatch, DispatchView, TickReport};
use crate::laws::{lemma_apply_wf, lemma_stop_wf, Command};
use crate::note::Slot;
use crate::router::{OutputRouter, RouterView};
use crate::sequence::{binding_view, Destination, MidiOut, Pattern};
use crate::store::{PatternStore, StoreView};
use crate::transport::{Transport, TransportView};

verus! {

/// The sequencer as a mathematical value.
pub struct SequencerView {
    pub store: StoreView,
    pub transport: TransportView,
    pub router: RouterView,
    pub clock: ClockView,
}

impl SequencerView {
    /// The sequencer at the start: one empty sequence called `Sequence-0`
    /// under id 0, nothing playing, every device available, the clock
    /// suspended at 120 beats per minute.
    pub open spec fn initial() -> SequencerView {
        SequencerView {
            store: StoreView::empty().insert(Pattern::fresh("Sequence-0"@, 16)),
            transport: TransportView::initial(),
            router: RouterView {
                fallback: Destination { device: "Default"@, channel: 0 },
                offline: Set::empty(),
            },
            clock: ClockView::initial(),
        }
    }

    /// Every part is well formed, every playing sequence exists, and the
    /// clock runs exactly while a sequence plays.
    pub open spec fn wf(self) -> bool {
        &&& self.store.wf()
        &&& self.transport.wf()
        &&& self.transport.consistent(self.store)
        &&& self.clock.wf()
        &&& self.clock.running <==> self.transport.voices.len() > 0
    }

    /// After a sequence called `name` is created: unchanged once the ids
    /// are used up.
    pub open spec fn create_sequence(self, name: Seq<char>) -> SequencerView {
        if self.store.has_room() {
            SequencerView { store: self.store.insert(Pattern::fresh(name, 16)), ..self }
        } else {
            self
        }
    }

    /// The events that deleting `id` emits: the note-off of its sounding
    /// note.
    pub open spec fn delete_events(self, id: u64) -> Seq<DispatchView> {
        self.transport.stop_events(id)
    }

    /// After `id` is deleted: stopped first, then removed; the clock is
    /// suspended when nothing plays any more.
    pub open spec fn delete_sequence(self, id: u64) -> SequencerView {
        if self.store.contains(id) {
            SequencerView { store: self.store.remove(id), ..self.stop(id) }
        } else {
            self
        }
    }

    /// After a write to step `index` of `id`.
    pub open spec fn set_step(self, id: u64, index: int, slot: Slot) -> SequencerView {
        SequencerView { store: self.store.set_step(id, index, slot), ..self }
    }

    /// After `id` is renamed.
    pub open spec fn rename(self, id: u64, name: Seq<char>) -> SequencerView {
        SequencerView { store: self.store.rename(id, name), ..self }
    }

    /// After the output of `id` is bound anew.
    pub open spec fn set_output(self, id: u64, output: Option<Destination>) -> SequencerView {
        SequencerView { store: self.store.set_output(id, output), ..self }
    }

    /// After `id` is started at time `now`: a suspended clock starts on a
    /// schedule anchored at `now`.
    pub open spec fn play(self, id: u64, now: nat) -> SequencerView {
        let transport = self.transport.play(id, self.store);
        SequencerView {
            transport,
            clock: if !self.clock.running && transport.voices.len() > 0 {
                self.clock.start(now)
            } else {
                self.clock
            },
            ..self
        }
    }

    /// The events that stopping `id` emits: the note-off of its sounding
    /// note.
    pub open spec fn stop_events(self, id: u64) -> Seq<DispatchView> {
        self.transport.stop_events(id)
    }

    /// After `id` is stopped: the clock is suspended when nothing plays any
    /// more.
    pub open spec fn stop(self, id: u64) -> SequencerView {
        let transport = self.transport.stop(id, self.store);
        SequencerView {
            transport,
            clock: if transport.voices.len() == 0 {
                self.clock.suspend()
            } else {
                self.clock
            },
            ..self
        }
    }

    /// After every sequence is stopped.
    pub open spec fn stop_all(self) -> SequencerView {
        SequencerView {
            transport: self.transport.stop_all(),
            clock: self.clock.suspend(),
            ..self
        }
    }

    /// After the tempo is set.
    pub open spec fn set_bpm(self, bpm: nat) -> SequencerView {
        SequencerView { clock: self.clock.set_bpm(bpm), ..self }
    }

    /// After a device is reported to accept events, or not to.
    pub open spec fn set_available(self, device: Seq<char>, available: bool) -> SequencerView {
        SequencerView { router: self.router.with_availability(device, available), ..self }
    }

    /// After the clock is polled at `now`: one tick where one is due.
    pub open spec fn poll(self, now: nat) -> SequencerView {
        if self.clock.due(now) {
            SequencerView {
                clock: self.clock.fire(now),
                transport: self.transport.tick(self.store, self.router),
                ..self
            }
        } else {
            self
        }
    }

    /// The events that a poll at `now` emits.
    pub open spec fn poll_events(self, now: nat) -> Seq<DispatchView> {
        if self.clock.due(now) {
            self.transport.tick_events(self.store, self.router)
        } else {
            Seq::empty()
        }
    }

    /// The ids whose note a poll at `now` drops.
    pub open spec fn poll_dropped(self, now: nat) -> Seq<u64> {
        if self.clock.due(now) {
            self.transport.tick_dropped(self.store, self.router)
        } else {
            Seq::empty()
        }
    }
}

/// The sequencer: patterns, transport, routing and clock under one owner.
#[derive(Debug)]
pub struct Sequencer {
    store: PatternStore,
    transport: Transport,
    router: OutputRouter,
    clock: Clock,
}

impl View for Sequencer {
    type V = SequencerView;

    closed spec fn view(&self) -> SequencerView {
        SequencerView {
            store: self.store@,
            transport: self.transport@,
            router: self.router@,
            clock: self.clock@,
        }
    }
}

impl Sequencer {
    /// The invariant of the sequencer.
    pub open spec fn wf(&self) -> bool {
        self@.wf()
    }

    /// A sequencer with one empty sequence called `Sequence-0`, nothing
    /// playing, at 120 beats per minute.
    pub fn new() -> (sequencer: Self)
        ensures
            sequencer.wf(),
            sequencer@ == SequencerView::initial(),
    {
        let mut store = PatternStore::new();
        proof {
            StoreView::empty().lemma_insert(Pattern::fresh("Sequence-0"@, 16));
        }
        store.create_sequence(String::from_str("Sequence-0"));
        Sequencer {
            store,
            transport: Transport::new(),
            router: OutputRouter::new(),
            clock: Clock::new(),
        }
    }

    /// The pattern store, for display.
    pub fn store(&self) -> (store: &PatternStore)
        ensures
            store@ == self@.store,
    {
        &self.store
    }

    /// The transport, for display.
    pub fn transport(&self) -> (transport: &Transport)
        ensures
            transport@ == self@.transport,
    {
        &self.transport
    }

    /// The output router.
    pub fn router(&self) -> (router: &OutputRouter)
        ensures
            router@ == self@.router,
    {
        &self.router
    }

    /// The playback clock.
    pub fn clock(&self) -> (clock: &Clock)
        ensures
            clock@ == self@.clock,
    {
        &self.clock
    }

    /// The tempo in beats per minute.
    pub fn bpm(&self) -> (bpm: usize)
        ensures
            bpm == self@.clock.bpm,
    {
        self.clock.bpm()
    }

    /// Whether any sequence plays.
    pub fn is_playing(&self) -> (playing: bool)
        ensures
            playing == (self@.transport.voices.len() > 0),
    {
        self.transport.playing_count() > 0
    }

    /// The step shown to observers: the greatest step among the playing
    /// patterns of sixteen steps, or the last such step when none plays.
    pub fn current_step(&self) -> (step: usize)
        ensures
            step == self@.transport.shown_step,
    {
        self.transport.shown_step()
    }

    /// Whether another sequence can be created.
    pub fn can_create(&self) -> (room: bool)
        ensures
            room == self@.store.has_room(),
    {
        self.store.next_id() < u64::MAX
    }

    /// Suspends the clock when nothing plays.
    fn settle(&mut self)
        requires
            old(self).clock.wf(),
        ensures
            final(self).store == old(self).store,
            final(self).transport == old(self).transport,
            final(self).router == old(self).router,
            final(self).clock.wf(),
            final(self).clock@ == if old(self).transport@.voices.len() == 0 {
                old(self).clock@.suspend()
            } else {
                old(self).clock@
            },
    {
        if self.transport.playing_count() == 0 {
            self.clock.suspend();
        }
    }

    /// Creates a sequence of sixteen empty steps called `name`, bound to no
    /// output and stopped, and returns its id.
    pub fn create_sequence(&mut self, name: String) -> (id: u64)
        requires
            old(self).wf(),
            old(self)@.store.has_room(),
        ensures
            final(self).wf(),
            final(self)@ == old(self)@.create_sequence(name@),
            id == old(self)@.store.next_id,
            !old(self)@.store.contains(id),
            final(self)@.store.contains(id),
            final(self)@.store.pattern(id) == Pattern::fresh(name@, 16),
    {
        proof {
            self@.store.lemma_insert(Pattern::fresh(name@, 16));
            lemma_apply_wf(self@, Command::Create { name: name@ });
        }
        self.store.create_sequence(name)
    }

    /// Deletes the sequence `id`. A playing sequence is stopped first, and
    /// the note-off of its sounding note is returned.
    pub fn delete_sequence(&mut self, id: u64) -> (result: Result<Vec<Dispatch>, SequencerError>)
        requires
            old(self).wf(),
        ensures
            final(self).wf(),
            final(self)@ == old(self)@.delete_sequence(id),
            !final(self)@.store.contains(id),
            !final(self)@.transport.is_playing(id),
            match result {
                Ok(events) => old(self)@.store.contains(id) && dispatch_views(events@) == old(
                    self,
                )@.delete_events(id),
                Err(e) => !old(self)@.store.contains(id) && e == SequencerError::NotFound,
            },
    {
        proof {
            lemma_apply_wf(self@, Command::Delete { id });
            lemma_stop_wf(self@, id);
            if self@.transport.is_playing(id) {
                self@.transport.lemma_playing(id);
            }
        }
        if !self.store.contains(id) {
            return Err(SequencerError::NotFound);
        }
        let events = self.transport.stop(id, &self.store);
        self.settle();
        match self.store.delete_sequence(id) {
            Ok(()) => Ok(events),
            Err(e) => Err(e),
        }
    }

    /// Reads the slot at step `index` of the sequence `id`.
    pub fn get_step(&self, id: u64, index: usize) -> (result: Result<Slot, SequencerError>)
        requires
            self.wf(),
        ensures
            match self@.store.step_failure(id, index as int) {
                Some(e) => result == Err::<Slot, SequencerError>(e),
                None => result == Ok::<Slot, SequencerError>(
                    self@.store.pattern(id).notes[index as int],
                ),
            },
    {
        self.store.get_step(id, index)
    }

    /// Replaces the slot at step `index` of the sequence `id`. A rejected
    /// write leaves the sequencer as it is.
    pub fn set_step(&mut self, id: u64, index: usize, slot: Slot) -> (result: Result<
        (),
        SequencerError,
    >)
        requires
            old(self).wf(),
        ensures
            final(self).wf(),
            result == outcome(old(self)@.store.set_step_failure(id, index as int, slot)),
            final(self)@ == old(self)@.set_step(id, index as int, slot),
    {
        proof {
            lemma_apply_wf(self@, Command::SetStep { id, index: index as int, slot });
        }
        self.store.set_step(id, index, slot)
    }

    /// Gives the sequence `id` another name.
    pub fn rename(&mut self, id: u64, name: String) -> (result: Result<(), SequencerError>)
        requires
            old(self).wf(),
        ensures
            final(self).wf(),
            result == outcome(old(self)@.store.lookup_failure(id)),
            final(self)@ == old(self)@.rename(id, name@),
    {
        proof {
            lemma_apply_wf(self@, Command::Rename { id, name: name@ });
        }
        self.store.rename(id, name)
    }

    /// Binds the sequence `id` to an output, or with `None` to the default.
    /// A note that sounds keeps the destination it was switched on at.
    pub fn set_output(&mut self, id: u64, output: Option<MidiOut>) -> (result: Result<
        (),
        SequencerError,
    >)
        requires
            old(self).wf(),
        ensures
            final(self).wf(),
            result == outcome(old(self)@.store.lookup_failure(id)),
            final(self)@ == old(self)@.set_output(id, binding_view(output)),
    {
        proof {
            lemma_apply_wf(self@, Command::SetOutput { id, output: binding_view(output) });
        }
        self.store.set_output(id, output)
    }

    /// Starts the sequence `id` at step 0. Nothing is emitted: its first
    /// note sounds at the next tick. When nothing played, the clock starts
    /// on a schedule anchored at `now`. A sequence that plays already stays
    /// as it is.
    pub fn play(&mut self, id: u64, now: u64) -> (result: Result<(), SequencerError>)
        requires
            old(self).wf(),
        ensures
            final(self).wf(),
            result == outcome(old(self)@.store.lookup_failure(id)),
            final(self)@ == old(self)@.play(id, now as nat),
            result is Ok ==> final(self)@.transport.is_playing(id),
    {
        proof {
            lemma_apply_wf(self@, Command::Play { id, now });
            if self@.store.contains(id) && !self@.transport.is_playing(id) {
                self@.transport.lemma_play(id, self@.store);
            }
        }
        if !self.store.contains(id) {
            return Err(SequencerError::NotFound);
        }
        self.transport.play(id, &self.store);
        if !self.clock.is_running() && self.transport.playing_count() > 0 {
            self.clock.start(now);
        }
        Ok(())
    }

    /// Stops the sequence `id` and returns the note-off of its sounding
    /// note, if there is one. When nothing plays any more, the clock is
    /// suspended.
    pub fn stop(&mut self, id: u64) -> (result: Result<Vec<Dispatch>, SequencerError>)
        requires
            old(self).wf(),
        ensures
            final(self).wf(),
            !final(self)@.transport.is_playing(id),
            match result {
                Ok(events) => old(self)@.store.contains(id) && final(self)@ == old(self)@.stop(id)
                    && dispatch_views(events@) == old(self)@.stop_events(id),
                Err(e) => !old(self)@.store.contains(id) && e == SequencerError::NotFound
                    && final(self)@ == old(self)@,
            },
    {
        proof {
            lemma_stop_wf(self@, id);
            if self@.transport.is_playing(id) {
                self@.transport.lemma_playing(id);
            }
        }
        if !self.store.contains(id) {
            return Err(SequencerError::NotFound);
        }
        let events = self.transport.stop(id, &self.store);
        self.settle();
        Ok(events)
    }

    /// Stops every sequence and returns the note-offs of the sounding
    /// notes: what to do before the sequencer is dropped.
    pub fn stop_all(&mut self) -> (events: Vec<Dispatch>)
        requires
            old(self).wf(),
        ensures
            final(self).wf(),
            final(self)@ == old(self)@.stop_all(),
            dispatch_views(events@) == old(self)@.transport.stop_all_events(),
    {
        let events = self.transport.stop_all();
        self.clock.suspend();
        events
    }

    /// Sets the tempo, brought within 20 to 999 beats per minute. The
    /// pending tick keeps its deadline.
    pub fn set_bpm(&mut self, bpm: usize)
        requires
            old(self).wf(),
        ensures
            final(self).wf(),
            final(self)@ == old(self)@.set_bpm(bpm as nat),
    {
        self.clock.set_bpm(bpm);
    }

    /// Records that a device accepts events, or that it does not.
    pub fn set_available(&mut self, device: String, available: bool)
        requires
            old(self).wf(),
        ensures
            final(self).wf(),
            final(self)@ == old(self)@.set_available(device@, available),
    {
        self.router.set_available(device, available);
    }

    /// The deadline of the pending tick, for the caller to wait until.
    pub fn next_deadline(&self) -> (deadline: Option<u64>)
        requires
            self.wf(),
        ensures
            deadline == if self@.clock.running && self@.clock.deadline() <= u64::MAX {
                Some(self@.clock.deadline() as u64)
            } else {
                None
            },
    {
        self.clock.next_deadline()
    }

    /// Asks the clock at `now`. Where a tick is due, every playing sequence
    /// advances by one step and the events are returned; otherwise nothing
    /// changes.
    pub fn poll(&mut self, now: u64) -> (report: Option<TickReport>)
        requires
            old(self).wf(),
        ensures
            final(self).wf(),
            final(self)@ == old(self)@.poll(now as nat),
            report is Some <==> old(self)@.clock.due(now as nat),
            report is Some ==> dispatch_views(report->0.events@) == old(self)@.poll_events(
                now as nat,
            ) && report->0.dropped@ == old(self)@.poll_dropped(now as nat),
    {
        if !self.clock.poll(now) {
            return None;
        }
        let report = self.transport.tick(&self.store, &self.router);
        proof {
            lemma_apply_wf(old(self)@, Command::Poll { now });
        }
        Some(report)
    }
}

} // verus!
