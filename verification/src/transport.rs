//! The transport: which sequences play, where each stands, and the events
//! that a tick, a stop or a deletion emits.

use vstd::prelude::*;
use crate::event::{dispatch_views, note_off, note_on, Dispatch, DispatchView, MidiEvent, TickReport};
use crate::note::{audible, pitch_of, sounding_note, velocity_of, Slot};
use crate::router::{OutputRouter, RouterView};
use crate::sequence::{Destination, MidiOut, Pattern};
use crate::store::{PatternStore, StoreView};

verus! {

/// The pattern length whose step the transport shows to observers.
pub const DISPLAY_STEPS: usize = 16;

/// A note that was switched on and not yet off, as a mathematical value.
pub struct SoundingView {
    pub pitch: u8,
    pub dest: Destination,
}

/// A playing sequence as a mathematical value: its id, the step it stands
/// at, whether a tick has reached it since it was started, and its sounding
/// note.
pub struct VoiceView {
    pub id: u64,
    pub step: nat,
    pub started: bool,
    pub sounding: Option<SoundingView>,
}

impl VoiceView {
    /// A sequence that was just started: at step 0, silent.
    pub open spec fn fresh(id: u64) -> VoiceView {
        VoiceView { id, step: 0, started: false, sounding: None }
    }

    /// Whether the step lies within a pattern of `len` steps.
    pub open spec fn fits(self, len: nat) -> bool {
        self.step < len || (len == 0 && self.step == 0)
    }

    /// The note-off of the sounding note, if there is one.
    pub open spec fn release(self) -> Seq<DispatchView> {
        match self.sounding {
            Some(s) => seq![note_off(self.id, s.pitch, s.dest)],
            None => Seq::empty(),
        }
    }

    /// The step that the next tick plays: step 0 for the first tick after
    /// the start, the following step modulo the length after that.
    pub open spec fn next_step(self, len: nat) -> nat {
        if len == 0 || !self.started {
            0
        } else {
            (self.step + 1) % len
        }
    }

    /// The note that the next tick strikes, if any.
    pub open spec fn struck(self, pattern: Pattern) -> Slot {
        if self.next_step(pattern.notes.len()) < pattern.notes.len() {
            audible(pattern.notes[self.next_step(pattern.notes.len()) as int])
        } else {
            None
        }
    }

    /// Whether the next tick switches a note on.
    pub open spec fn strikes(self, pattern: Pattern, router: RouterView) -> bool {
        self.struck(pattern) is Some && router.resolve(pattern) is Ok
    }

    /// Whether the next tick drops a note because its destination is out of
    /// reach.
    pub open spec fn tick_dropped(self, pattern: Pattern, router: RouterView) -> bool {
        self.struck(pattern) is Some && router.resolve(pattern) is Err
    }

    /// The note-on of the next tick, if it switches a note on.
    pub open spec fn attack(self, pattern: Pattern, router: RouterView) -> Seq<DispatchView> {
        if self.strikes(pattern, router) {
            seq![
                note_on(
                    self.id,
                    pitch_of(self.struck(pattern)),
                    velocity_of(self.struck(pattern)),
                    router.effective(pattern),
                ),
            ]
        } else {
            Seq::empty()
        }
    }

    /// The events of the next tick: the note-off of the sounding note, then
    /// the note-on of the new step.
    pub open spec fn tick_events(self, pattern: Pattern, router: RouterView) -> Seq<DispatchView> {
        self.release() + self.attack(pattern, router)
    }

    /// The voice after the next tick. A dropped note is not recorded as
    /// sounding.
    pub open spec fn tick(self, pattern: Pattern, router: RouterView) -> VoiceView {
        VoiceView {
            id: self.id,
            step: self.next_step(pattern.notes.len()),
            started: true,
            sounding: if self.strikes(pattern, router) {
                Some(
                    SoundingView {
                        pitch: pitch_of(self.struck(pattern)),
                        dest: router.effective(pattern),
                    },
                )
            } else {
                None
            },
        }
    }
}

/// The transport as a mathematical value: the playing sequences in ascending
/// order of id, and the step shown to observers.
pub struct TransportView {
    pub voices: Seq<VoiceView>,
    pub shown_step: nat,
}

impl TransportView {
    /// Nothing plays; step 0 is shown.
    pub open spec fn initial() -> TransportView {
        TransportView { voices: Seq::empty(), shown_step: 0 }
    }

    /// The ids ascend strictly, so no sequence plays twice.
    pub open spec fn wf(self) -> bool {
        forall|i: int, j: int|
            0 <= i < j < self.voices.len() ==> self.voices[i].id < self.voices[j].id
    }

    /// Every playing sequence exists in `store` and stands within its
    /// pattern.
    pub open spec fn consistent(self, store: StoreView) -> bool {
        forall|i: int|
            0 <= i < self.voices.len() ==> store.contains((#[trigger] self.voices[i]).id)
                && self.voices[i].fits(store.pattern(self.voices[i].id).notes.len())
    }

    /// Whether the sequence `id` plays.
    pub open spec fn is_playing(self, id: u64) -> bool {
        exists|k: int| 0 <= k < self.voices.len() && self.voices[k].id == id
    }

    /// Where the playing sequence `id` stands among the voices.
    pub open spec fn position(self, id: u64) -> int {
        choose|k: int| 0 <= k < self.voices.len() && self.voices[k].id == id
    }

    /// The voice of the playing sequence `id`.
    pub open spec fn voice(self, id: u64) -> VoiceView {
        self.voices[self.position(id)]
    }

    /// Whether a note of the sequence `id` sounds.
    pub open spec fn is_sounding(self, id: u64) -> bool {
        self.is_playing(id) && self.voice(id).sounding is Some
    }

    /// Whether `k` is where a voice with this id belongs: after the smaller
    /// ids and before the others.
    pub open spec fn is_rank(self, id: u64, k: int) -> bool {
        &&& 0 <= k <= self.voices.len()
        &&& forall|i: int| 0 <= i < k ==> (#[trigger] self.voices[i]).id < id
        &&& forall|i: int| k <= i < self.voices.len() ==> (#[trigger] self.voices[i]).id >= id
    }

    /// Where a voice with this id belongs.
    pub open spec fn rank(self, id: u64) -> int {
        choose|k: int| self.is_rank(id, k)
    }

    /// The greatest step among the first `n` voices whose pattern has
    /// sixteen steps, if there is such a voice.
    pub open spec fn lead_upto(self, store: StoreView, n: int) -> Option<nat>
        decreases n,
    {
        if n <= 0 {
            None
        } else {
            let rest = self.lead_upto(store, n - 1);
            let v = self.voices[n - 1];
            if store.pattern(v.id).notes.len() == 16 {
                match rest {
                    Some(m) => if v.step > m {
                        Some(v.step)
                    } else {
                        Some(m)
                    },
                    None => Some(v.step),
                }
            } else {
                rest
            }
        }
    }

    /// The transport with the shown step brought up to date: the greatest
    /// step among the playing patterns of sixteen steps, or the step shown
    /// before where there is none.
    pub open spec fn refresh(self, store: StoreView) -> TransportView {
        TransportView {
            voices: self.voices,
            shown_step: match self.lead_upto(store, self.voices.len() as int) {
                Some(m) => m,
                None => self.shown_step,
            },
        }
    }

    /// The transport after `id` is started: unchanged where the sequence
    /// does not exist or plays already.
    pub open spec fn play(self, id: u64, store: StoreView) -> TransportView {
        if !store.contains(id) || self.is_playing(id) {
            self
        } else {
            TransportView {
                voices: self.voices.insert(self.rank(id), VoiceView::fresh(id)),
                shown_step: self.shown_step,
            }.refresh(store)
        }
    }

    /// The events that stopping `id` emits: the note-off of its sounding
    /// note.
    pub open spec fn stop_events(self, id: u64) -> Seq<DispatchView> {
        if self.is_playing(id) {
            self.voice(id).release()
        } else {
            Seq::empty()
        }
    }

    /// The transport after `id` is stopped: unchanged where it does not play.
    pub open spec fn stop(self, id: u64, store: StoreView) -> TransportView {
        if self.is_playing(id) {
            TransportView {
                voices: self.voices.remove(self.position(id)),
                shown_step: self.shown_step,
            }.refresh(store)
        } else {
            self
        }
    }

    /// The voices after a tick: each advanced against its own pattern.
    pub open spec fn ticked(self, store: StoreView, router: RouterView) -> Seq<VoiceView> {
        Seq::new(
            self.voices.len(),
            |i: int| self.voices[i].tick(store.pattern(self.voices[i].id), router),
        )
    }

    /// The transport after a tick.
    pub open spec fn tick(self, store: StoreView, router: RouterView) -> TransportView {
        TransportView { voices: self.ticked(store, router), shown_step: self.shown_step }.refresh(
            store,
        )
    }

    /// The events that a tick emits for the first `n` voices, voice by
    /// voice in ascending order of id.
    pub open spec fn tick_events_upto(self, store: StoreView, router: RouterView, n: int) -> Seq<
        DispatchView,
    >
        decreases n,
    {
        if n <= 0 {
            Seq::empty()
        } else {
            self.tick_events_upto(store, router, n - 1) + self.voices[n - 1].tick_events(
                store.pattern(self.voices[n - 1].id),
                router,
            )
        }
    }

    /// The events that a tick emits.
    pub open spec fn tick_events(self, store: StoreView, router: RouterView) -> Seq<DispatchView> {
        self.tick_events_upto(store, router, self.voices.len() as int)
    }

    /// The ids among the first `n` voices whose note a tick drops.
    pub open spec fn tick_dropped_upto(self, store: StoreView, router: RouterView, n: int) -> Seq<
        u64,
    >
        decreases n,
    {
        if n <= 0 {
            Seq::empty()
        } else if self.voices[n - 1].tick_dropped(store.pattern(self.voices[n - 1].id), router) {
            self.tick_dropped_upto(store, router, n - 1).push(self.voices[n - 1].id)
        } else {
            self.tick_dropped_upto(store, router, n - 1)
        }
    }

    /// The ids whose note a tick drops, in ascending order.
    pub open spec fn tick_dropped(self, store: StoreView, router: RouterView) -> Seq<u64> {
        self.tick_dropped_upto(store, router, self.voices.len() as int)
    }

    /// The note-offs of the first `n` voices.
    pub open spec fn release_upto(self, n: int) -> Seq<DispatchView>
        decreases n,
    {
        if n <= 0 {
            Seq::empty()
        } else {
            self.release_upto(n - 1) + self.voices[n - 1].release()
        }
    }

    /// The events that stopping every sequence emits.
    pub open spec fn stop_all_events(self) -> Seq<DispatchView> {
        self.release_upto(self.voices.len() as int)
    }

    /// The transport after every sequence is stopped: the shown step stays.
    pub open spec fn stop_all(self) -> TransportView {
        TransportView { voices: Seq::empty(), shown_step: self.shown_step }
    }

    /// Ids occur once: the voice at index `k` is the one found under its id.
    pub proof fn lemma_position(self, k: int)
        requires
            self.wf(),
            0 <= k < self.voices.len(),
        ensures
            self.is_playing(self.voices[k].id),
            self.position(self.voices[k].id) == k,
            self.voice(self.voices[k].id) == self.voices[k],
    {
        let p = self.position(self.voices[k].id);
        assert(0 <= p < self.voices.len() && self.voices[p].id == self.voices[k].id);
        if p < k {
            assert(self.voices[p].id < self.voices[k].id);
        } else if k < p {
            assert(self.voices[k].id < self.voices[p].id);
        }
    }

    /// A voice with a new id belongs somewhere.
    pub proof fn lemma_rank_exists(self, id: u64)
        requires
            self.wf(),
        ensures
            self.is_rank(id, self.rank(id)),
    {
        self.lemma_rank_upto(id, self.voices.len() as int);
    }

    /// Whether `k` parts the ids below `id` from the others among the first
    /// `n` voices.
    pub open spec fn parts(self, id: u64, k: int, n: int) -> bool {
        &&& 0 <= k <= n
        &&& forall|i: int| 0 <= i < k ==> (#[trigger] self.voices[i]).id < id
        &&& forall|i: int| k <= i < n ==> (#[trigger] self.voices[i]).id >= id
    }

    /// Among the first `n` voices there is a place that parts the ids below
    /// `id` from the others.
    proof fn lemma_rank_upto(self, id: u64, n: int)
        requires
            self.wf(),
            0 <= n <= self.voices.len(),
        ensures
            exists|k: int| self.parts(id, k, n),
            n == self.voices.len() ==> self.is_rank(id, self.rank(id)),
        decreases n,
    {
        if n == 0 {
            assert(self.parts(id, 0, 0));
        } else {
            let m = n - 1;
            self.lemma_rank_upto(id, m);
            let k = choose|k: int| self.parts(id, k, m);
            if self.voices[n - 1].id >= id {
                assert(self.parts(id, k, n));
            } else {
                assert forall|i: int| 0 <= i < n implies (#[trigger] self.voices[i]).id < id by {
                    if i < n - 1 {
                        assert(self.voices[i].id < self.voices[n - 1].id);
                    }
                }
                assert(self.parts(id, n, n));
            }
        }
        if n == self.voices.len() {
            let k = choose|k: int| self.parts(id, k, n);
            assert(self.is_rank(id, k));
        }
    }

    /// There is one place where a voice with a given id belongs.
    pub proof fn lemma_rank(self, id: u64, k: int)
        requires
            self.wf(),
            self.is_rank(id, k),
        ensures
            self.rank(id) == k,
    {
        let r = self.rank(id);
        assert(self.is_rank(id, r));
        if r < k {
            assert(self.voices[r].id < id);
            assert(self.voices[r].id >= id);
        } else if k < r {
            assert(self.voices[k].id < id);
            assert(self.voices[k].id >= id);
        }
    }
}

/// A note that was switched on and not yet off.
#[derive(Debug)]
pub struct Sounding {
    pitch: u8,
    out: MidiOut,
}

impl View for Sounding {
    type V = SoundingView;

    closed spec fn view(&self) -> SoundingView {
        SoundingView { pitch: self.pitch, dest: self.out@ }
    }
}

/// The view of an optional sounding note.
pub closed spec fn sounding_view(sounding: Option<Sounding>) -> Option<SoundingView> {
    match sounding {
        Some(s) => Some(s@),
        None => None,
    }
}

/// A playing sequence.
#[derive(Debug)]
pub struct Voice {
    id: u64,
    step: usize,
    started: bool,
    sounding: Option<Sounding>,
}

impl View for Voice {
    type V = VoiceView;

    closed spec fn view(&self) -> VoiceView {
        VoiceView {
            id: self.id,
            step: self.step as nat,
            started: self.started,
            sounding: sounding_view(self.sounding),
        }
    }
}

/// The voices that a row of playing sequences stands for.
pub open spec fn voice_views(voices: Seq<Voice>) -> Seq<VoiceView> {
    Seq::new(voices.len(), |i: int| voices[i]@)
}

/// The play/stop state of every sequence and the step shown to observers.
#[derive(Debug)]
pub struct Transport {
    voices: Vec<Voice>,
    shown_step: usize,
}

impl View for Transport {
    type V = TransportView;

    closed spec fn view(&self) -> TransportView {
        TransportView { voices: voice_views(self.voices@), shown_step: self.shown_step as nat }
    }
}

impl Voice {
    /// Writes the note-off of the sounding note, if there is one, to the end
    /// of `events`.
    fn push_release(&self, events: &mut Vec<Dispatch>)
        ensures
            dispatch_views(final(events)@) == dispatch_views(old(events)@) + self@.release(),
    {
        match &self.sounding {
            Some(s) => {
                events.push(
                    Dispatch {
                        sequence: self.id,
                        event: MidiEvent::NoteOff {
                            pitch: s.pitch,
                            device: s.out.dev.clone(),
                            channel: s.out.channel,
                        },
                    },
                );
                assert(dispatch_views(events@) =~= dispatch_views(old(events)@)
                    + self@.release());
            },
            None => {
                assert(dispatch_views(events@) =~= dispatch_views(old(events)@)
                    + self@.release());
            },
        }
    }
}

impl Transport {
    /// The invariant of the transport.
    pub open spec fn wf(&self) -> bool {
        self@.wf()
    }

    /// A transport in which nothing plays.
    pub fn new() -> (transport: Self)
        ensures
            transport.wf(),
            transport@ == TransportView::initial(),
    {
        let transport = Transport { voices: Vec::new(), shown_step: 0 };
        assert(transport@.voices =~= Seq::empty());
        transport
    }

    /// The number of playing sequences.
    pub fn playing_count(&self) -> (n: usize)
        ensures
            n == self@.voices.len(),
    {
        self.voices.len()
    }

    /// The step shown to observers.
    pub fn shown_step(&self) -> (step: usize)
        ensures
            step == self@.shown_step,
    {
        self.shown_step
    }

    /// Where the voice of `id` stands, or where it belongs.
    fn locate(&self, id: u64) -> (place: (usize, bool))
        requires
            self.wf(),
        ensures
            place.1 == self@.is_playing(id),
            place.1 ==> place.0 == self@.position(id),
            !place.1 ==> place.0 == self@.rank(id) && self@.is_rank(id, place.0 as int),
            place.0 <= self@.voices.len(),
            place.1 ==> place.0 < self@.voices.len(),
    {
        let mut i: usize = 0;
        while i < self.voices.len()
            invariant
                self.wf(),
                i <= self.voices@.len(),
                forall|k: int| 0 <= k < i ==> (#[trigger] self@.voices[k]).id < id,
            decreases self.voices@.len() - i,
        {
            if self.voices[i].id == id {
                proof {
                    assert(self@.voices[i as int].id == id);
                    self@.lemma_position(i as int);
                }
                return (i, true);
            }
            if self.voices[i].id > id {
                proof {
                    assert(self@.voices[i as int].id > id);
                    assert forall|k: int| i <= k < self@.voices.len() implies (
                    #[trigger] self@.voices[k]).id >= id by {
                        if k > i {
                            assert(self@.voices[i as int].id < self@.voices[k].id);
                        }
                    }
                    assert(self@.is_rank(id, i as int));
                    self@.lemma_rank(id, i as int);
                    if self@.is_playing(id) {
                        let p = self@.position(id);
                        assert(self@.voices[p].id == id);
                    }
                }
                return (i, false);
            }
            proof {
                assert(self@.voices[i as int].id < id);
            }
            i += 1;
        }
        proof {
            assert(self@.is_rank(id, i as int));
            self@.lemma_rank(id, i as int);
            if self@.is_playing(id) {
                let p = self@.position(id);
                assert(self@.voices[p].id == id);
            }
        }
        (i, false)
    }

    /// Whether the sequence `id` plays.
    pub fn is_playing(&self, id: u64) -> (playing: bool)
        requires
            self.wf(),
        ensures
            playing == self@.is_playing(id),
    {
        self.locate(id).1
    }

    /// The step at which the playing sequence `id` stands.
    pub fn current_step(&self, id: u64) -> (step: Option<usize>)
        requires
            self.wf(),
        ensures
            step is Some <==> self@.is_playing(id),
            step is Some ==> step->0 == self@.voice(id).step,
    {
        let (k, found) = self.locate(id);
        if found {
            Some(self.voices[k].step)
        } else {
            None
        }
    }

    /// The ids of the playing sequences in ascending order.
    pub fn playing(&self) -> (ids: Vec<u64>)
        ensures
            ids@.len() == self@.voices.len(),
            forall|i: int| 0 <= i < ids@.len() ==> ids@[i] == (#[trigger] self@.voices[i]).id,
    {
        let mut ids: Vec<u64> = Vec::new();
        let mut i: usize = 0;
        while i < self.voices.len()
            invariant
                i <= self.voices@.len(),
                ids@.len() == i,
                forall|k: int| 0 <= k < i ==> ids@[k] == (#[trigger] self@.voices[k]).id,
            decreases self.voices@.len() - i,
        {
            ids.push(self.voices[i].id);
            i += 1;
        }
        ids
    }

    /// Brings the shown step up to date.
    fn refresh(&mut self, store: &PatternStore)
        requires
            old(self).wf(),
            store.wf(),
            old(self)@.consistent(store@),
        ensures
            final(self)@ == old(self)@.refresh(store@),
    {
        let mut lead: Option<usize> = None;
        let mut i: usize = 0;
        while i < self.voices.len()
            invariant
                store.wf(),
                self@.consistent(store@),
                i <= self.voices@.len(),
                match lead {
                    Some(m) => self@.lead_upto(store@, i as int) == Some(m as nat),
                    None => self@.lead_upto(store@, i as int) is None,
                },
            decreases self.voices@.len() - i,
        {
            let id: u64 = self.voices[i].id;
            let step: usize = self.voices[i].step;
            proof {
                assert(self@.voices[i as int].id == id);
                assert(self@.voices[i as int].step == step);
            }
            let seq = store.get(id).unwrap();
            if seq.notes.len() == DISPLAY_STEPS {
                lead = match lead {
                    Some(m) => if step > m {
                        Some(step)
                    } else {
                        Some(m)
                    },
                    None => Some(step),
                };
            }
            i += 1;
        }
        match lead {
            Some(m) => {
                self.shown_step = m;
            },
            None => {},
        }
    }

    /// Starts the sequence `id` at step 0. Nothing is emitted: its first
    /// note sounds at the next tick. A sequence that plays already, or that
    /// `store` does not contain, leaves the transport as it is.
    pub fn play(&mut self, id: u64, store: &PatternStore)
        requires
            old(self).wf(),
            store.wf(),
            old(self)@.consistent(store@),
        ensures
            final(self).wf(),
            final(self)@.consistent(store@),
            final(self)@ == old(self)@.play(id, store@),
    {
        if !store.contains(id) {
            return ;
        }
        let (k, found) = self.locate(id);
        if found {
            return ;
        }
        let voice = Voice { id, step: 0, started: false, sounding: None };
        let ghost before = self@;
        self.voices.insert(k, voice);
        proof {
            before.lemma_play(id, store@);
            assert(self@.voices =~= before.voices.insert(k as int, VoiceView::fresh(id)));
        }
        self.refresh(store);
    }

    /// Stops the sequence `id` and returns the note-off of its sounding
    /// note, if there is one. A sequence that does not play leaves the
    /// transport as it is and emits nothing.
    pub fn stop(&mut self, id: u64, store: &PatternStore) -> (events: Vec<Dispatch>)
        requires
            old(self).wf(),
            store.wf(),
            old(self)@.consistent(store@),
        ensures
            final(self).wf(),
            final(self)@.consistent(store@),
            final(self)@ == old(self)@.stop(id, store@),
            dispatch_views(events@) == old(self)@.stop_events(id),
            !final(self)@.is_playing(id),
    {
        let mut events: Vec<Dispatch> = Vec::new();
        assert(dispatch_views(events@) =~= Seq::empty());
        let (k, found) = self.locate(id);
        if !found {
            return events;
        }
        let ghost before = self@;
        let voice = self.voices.remove(k);
        voice.push_release(&mut events);
        proof {
            before.lemma_stop(id, store@);
            assert(voice@ == before.voices[k as int]);
            assert(self@.voices =~= before.voices.remove(k as int));
        }
        self.refresh(store);
        events
    }

    /// Stops every sequence and returns the note-offs of the sounding
    /// notes, in ascending order of id.
    pub fn stop_all(&mut self) -> (events: Vec<Dispatch>)
        requires
            old(self).wf(),
        ensures
            final(self).wf(),
            final(self)@ == old(self)@.stop_all(),
            dispatch_views(events@) == old(self)@.stop_all_events(),
    {
        let mut events: Vec<Dispatch> = Vec::new();
        assert(dispatch_views(events@) =~= Seq::empty());
        let mut i: usize = 0;
        while i < self.voices.len()
            invariant
                i <= self.voices@.len(),
                self@ == old(self)@,
                dispatch_views(events@) == self@.release_upto(i as int),
            decreases self.voices@.len() - i,
        {
            self.voices[i].push_release(&mut events);
            proof {
                assert(self@.voices[i as int] == self.voices@[i as int]@);
            }
            i += 1;
        }
        self.voices = Vec::new();
        assert(self@.voices =~= Seq::empty());
        events
    }

    /// Advances every playing sequence by one step, in ascending order of
    /// id. For each: the note-off of its sounding note; then the step that
    /// follows, modulo the pattern's length, or step 0 at the first tick
    /// after its start; then the note-on of the slot there, if it holds a
    /// note of velocity above zero. A note whose destination is out of reach
    /// is dropped and its sequence listed: it is neither emitted nor
    /// recorded as sounding, and the other sequences play on.
    pub fn tick(&mut self, store: &PatternStore, router: &OutputRouter) -> (report: TickReport)
        requires
            old(self).wf(),
            store.wf(),
            old(self)@.consistent(store@),
        ensures
            final(self).wf(),
            final(self)@.consistent(store@),
            final(self)@ == old(self)@.tick(store@, router@),
            dispatch_views(report.events@) == old(self)@.tick_events(store@, router@),
            report.dropped@ == old(self)@.tick_dropped(store@, router@),
    {
        let mut events: Vec<Dispatch> = Vec::new();
        let mut dropped: Vec<u64> = Vec::new();
        assert(dispatch_views(events@) =~= Seq::empty());
        let ghost before = self@;
        let n = self.voices.len();
        let mut i: usize = 0;
        while i < n
            invariant
                store.wf(),
                before.wf(),
                before.consistent(store@),
                before == old(self)@,
                n == before.voices.len(),
                self@.voices.len() == n,
                self@.shown_step == before.shown_step,
                i <= n,
                forall|k: int|
                    0 <= k < i ==> (#[trigger] self@.voices[k]) == before.voices[k].tick(
                        store@.pattern(before.voices[k].id),
                        router@,
                    ),
                forall|k: int| i <= k < n ==> (#[trigger] self@.voices[k]) == before.voices[k],
                dispatch_views(events@) == before.tick_events_upto(store@, router@, i as int),
                dropped@ == before.tick_dropped_upto(store@, router@, i as int),
            decreases n - i,
        {
            let ghost voice = before.voices[i as int];
            let ghost row = self.voices@;
            proof {
                assert(self@.voices[i as int] == voice);
                assert(self.voices@[i as int]@ == voice);
            }
            let id: u64 = self.voices[i].id;
            let seq = store.get(id).unwrap();
            let ghost pattern = store@.pattern(id);
            self.voices[i].push_release(&mut events);
            let len: usize = seq.notes.len();
            let step: usize = if len == 0 || !self.voices[i].started {
                0
            } else {
                (self.voices[i].step + 1) % len
            };
            assert(step == voice.next_step(pattern.notes.len()));
            let note: Slot = if step < len {
                sounding_note(seq.notes[step])
            } else {
                None
            };
            assert(note == voice.struck(pattern));
            let sounding: Option<Sounding> = match note {
                Some((pitch, velocity)) => match router.resolve(seq) {
                    Ok(out) => {
                        let ghost sofar = dispatch_views(events@);
                        events.push(
                            Dispatch {
                                sequence: id,
                                event: MidiEvent::NoteOn {
                                    pitch,
                                    velocity,
                                    device: out.dev.clone(),
                                    channel: out.channel,
                                },
                            },
                        );
                        assert(dispatch_views(events@) =~= sofar + voice.attack(pattern, router@));
                        Some(Sounding { pitch, out })
                    },
                    Err(_) => {
                        dropped.push(id);
                        assert(dispatch_views(events@) =~= dispatch_views(events@) + voice.attack(
                            pattern,
                            router@,
                        ));
                        None
                    },
                },
                None => {
                    assert(dispatch_views(events@) =~= dispatch_views(events@) + voice.attack(
                        pattern,
                        router@,
                    ));
                    None
                },
            };
            self.voices[i] = Voice { id, step, started: true, sounding };
            proof {
                assert(self.voices@ == row.update(i as int, self.voices@[i as int]));
                assert(self.voices@[i as int]@ == voice.tick(pattern, router@));
                assert(dispatch_views(events@) =~= before.tick_events_upto(
                    store@,
                    router@,
                    i as int,
                ) + voice.tick_events(pattern, router@));
                assert forall|k: int| 0 <= k < i + 1 implies (#[trigger] self@.voices[k])
                    == before.voices[k].tick(store@.pattern(before.voices[k].id), router@) by {
                    if k < i {
                        assert(self.voices@[k] == row[k]);
                        assert(self@.voices[k] == voice_views(row)[k]);
                    }
                }
                assert forall|k: int| i + 1 <= k < n implies (#[trigger] self@.voices[k])
                    == before.voices[k] by {
                    assert(self.voices@[k] == row[k]);
                    assert(self@.voices[k] == voice_views(row)[k]);
                }
            }
            i += 1;
        }
        proof {
            assert(self@.voices =~= before.ticked(store@, router@));
            before.lemma_tick(store@, router@);
        }
        self.refresh(store);
        TickReport { events, dropped }
    }
}

} // verus!
