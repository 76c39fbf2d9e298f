//! What holds along every run of the sequencer.

use vstd::prelude::*;
use crate::clock::{clamp_bpm, interval_ms, lemma_boundary, lemma_interval_bounds, ClockView};
use crate::event::{note_off, DispatchView, EventView};
use crate::note::Slot;
use crate::router::RouterView;
use crate::sequence::{Destination, Pattern};
use crate::sequencer::SequencerView;
use crate::store::StoreView;
use crate::error::SequencerError;
use crate::transport::{SoundingView, TransportView, VoiceView};

verus! {

/// A command to the sequencer, or a poll of its clock, as a mathematical
/// value.
pub enum Command {
    Create { name: Seq<char> },
    Delete { id: u64 },
    Rename { id: u64, name: Seq<char> },
    SetStep { id: u64, index: int, slot: Slot },
    SetOutput { id: u64, output: Option<Destination> },
    Play { id: u64, now: u64 },
    Stop { id: u64 },
    StopAll,
    SetBpm { bpm: nat },
    SetAvailable { device: Seq<char>, available: bool },
    Poll { now: u64 },
}

/// The sequencer after a command.
pub open spec fn apply(s: SequencerView, c: Command) -> SequencerView {
    match c {
        Command::Create { name } => s.create_sequence(name),
        Command::Delete { id } => s.delete_sequence(id),
        Command::Rename { id, name } => s.rename(id, name),
        Command::SetStep { id, index, slot } => s.set_step(id, index, slot),
        Command::SetOutput { id, output } => s.set_output(id, output),
        Command::Play { id, now } => s.play(id, now as nat),
        Command::Stop { id } => if s.store.contains(id) {
            s.stop(id)
        } else {
            s
        },
        Command::StopAll => s.stop_all(),
        Command::SetBpm { bpm } => s.set_bpm(bpm),
        Command::SetAvailable { device, available } => s.set_available(device, available),
        Command::Poll { now } => s.poll(now as nat),
    }
}

/// The events that a command emits.
pub open spec fn emitted(s: SequencerView, c: Command) -> Seq<DispatchView> {
    match c {
        Command::Delete { id } => if s.store.contains(id) {
            s.delete_events(id)
        } else {
            Seq::empty()
        },
        Command::Stop { id } => if s.store.contains(id) {
            s.stop_events(id)
        } else {
            Seq::empty()
        },
        Command::StopAll => s.transport.stop_all_events(),
        Command::Poll { now } => s.poll_events(now as nat),
        _ => Seq::empty(),
    }
}

/// The sequencer after a row of commands.
pub open spec fn run(s: SequencerView, cmds: Seq<Command>) -> SequencerView
    decreases cmds.len(),
{
    if cmds.len() == 0 {
        s
    } else {
        apply(run(s, cmds.drop_last()), cmds.last())
    }
}

/// All the events that a row of commands emits, in order.
pub open spec fn trace(s: SequencerView, cmds: Seq<Command>) -> Seq<DispatchView>
    decreases cmds.len(),
{
    if cmds.len() == 0 {
        Seq::empty()
    } else {
        trace(s, cmds.drop_last()) + emitted(run(s, cmds.drop_last()), cmds.last())
    }
}

/// Whether a note of `id` sounds after `events`, when `start` says whether
/// one sounded before them.
pub open spec fn sounding_after(events: Seq<DispatchView>, id: u64, start: bool) -> bool
    decreases events.len(),
{
    if events.len() == 0 {
        start
    } else if events.last().sequence == id {
        events.last().event is NoteOn
    } else {
        sounding_after(events.drop_last(), id, start)
    }
}

/// Whether the events of `id` alternate: a note-on only while no note of
/// `id` sounds, a note-off only while one does.
pub open spec fn paired(events: Seq<DispatchView>, id: u64, start: bool) -> bool
    decreases events.len(),
{
    if events.len() == 0 {
        true
    } else {
        &&& paired(events.drop_last(), id, start)
        &&& events.last().sequence == id ==> (events.last().event is NoteOn) != sounding_after(
            events.drop_last(),
            id,
            start,
        )
    }
}

/// The number of note-ons of `id` among `events`.
pub open spec fn count_on(events: Seq<DispatchView>, id: u64) -> nat
    decreases events.len(),
{
    if events.len() == 0 {
        0
    } else if events.last().sequence == id && events.last().event is NoteOn {
        count_on(events.drop_last(), id) + 1
    } else {
        count_on(events.drop_last(), id)
    }
}

/// The number of note-offs of `id` among `events`.
pub open spec fn count_off(events: Seq<DispatchView>, id: u64) -> nat
    decreases events.len(),
{
    if events.len() == 0 {
        0
    } else if events.last().sequence == id && events.last().event is NoteOff {
        count_off(events.drop_last(), id) + 1
    } else {
        count_off(events.drop_last(), id)
    }
}

/// One for a sounding note, zero for silence.
pub open spec fn as_count(sounding: bool) -> int {
    if sounding {
        1
    } else {
        0
    }
}

/// Events that alternate one after the other alternate as a whole.
pub proof fn lemma_paired_concat(a: Seq<DispatchView>, b: Seq<DispatchView>, id: u64, start: bool)
    ensures
        sounding_after(a + b, id, start) == sounding_after(b, id, sounding_after(a, id, start)),
        paired(a + b, id, start) == (paired(a, id, start) && paired(
            b,
            id,
            sounding_after(a, id, start),
        )),
    decreases b.len(),
{
    if b.len() == 0 {
        assert(a + b =~= a);
    } else {
        assert((a + b).drop_last() =~= a + b.drop_last());
        assert((a + b).last() == b.last());
        lemma_paired_concat(a, b.drop_last(), id, start);
    }
}

/// What a single event does for `id`.
pub proof fn lemma_single(e: DispatchView, id: u64, start: bool)
    ensures
        paired(seq![e], id, start) == (e.sequence == id ==> (e.event is NoteOn) != start),
        sounding_after(seq![e], id, start) == if e.sequence == id {
            e.event is NoteOn
        } else {
            start
        },
{
    reveal_with_fuel(paired, 2);
    reveal_with_fuel(sounding_after, 2);
    assert(seq![e].drop_last() =~= Seq::empty());
    assert(seq![e].last() == e);
}

/// Events of other sequences change nothing for `id`.
pub proof fn lemma_foreign(events: Seq<DispatchView>, id: u64, start: bool)
    requires
        forall|i: int| 0 <= i < events.len() ==> (#[trigger] events[i]).sequence != id,
    ensures
        paired(events, id, start),
        sounding_after(events, id, start) == start,
    decreases events.len(),
{
    if events.len() > 0 {
        let rest = events.drop_last();
        assert(events.last() == events[events.len() - 1]);
        assert forall|i: int| 0 <= i < rest.len() implies (#[trigger] rest[i]).sequence != id by {
            assert(rest[i] == events[i]);
        }
        lemma_foreign(rest, id, start);
    }
}

/// Where the events of `id` alternate, its note-ons and note-offs differ by
/// the note that sounds at the end less the note that sounded at the start.
pub proof fn lemma_counts(events: Seq<DispatchView>, id: u64, start: bool)
    requires
        paired(events, id, start),
    ensures
        count_on(events, id) - count_off(events, id) == as_count(
            sounding_after(events, id, start),
        ) - as_count(start),
    decreases events.len(),
{
    if events.len() > 0 {
        lemma_counts(events.drop_last(), id, start);
    }
}

/// Where the events of `id` alternate, so do those of every prefix.
pub proof fn lemma_paired_prefix(events: Seq<DispatchView>, id: u64, start: bool, k: int)
    requires
        paired(events, id, start),
        0 <= k <= events.len(),
    ensures
        paired(events.take(k), id, start),
    decreases events.len(),
{
    if k == events.len() {
        assert(events.take(k) =~= events);
    } else {
        assert(events.take(k) =~= events.drop_last().take(k));
        lemma_paired_prefix(events.drop_last(), id, start, k);
    }
}

/// The events of one voice's tick alternate for every sequence, and leave
/// sounding exactly the note that the voice records.
pub proof fn lemma_voice_tick_pairs(v: VoiceView, pattern: Pattern, router: RouterView, id: u64)
    ensures
        v.id != id ==> forall|start: bool|
            #![trigger paired(v.tick_events(pattern, router), id, start)]
            paired(v.tick_events(pattern, router), id, start) && sounding_after(
                v.tick_events(pattern, router),
                id,
                start,
            ) == start,
        v.id == id ==> paired(v.tick_events(pattern, router), id, v.sounding is Some)
            && sounding_after(v.tick_events(pattern, router), id, v.sounding is Some) == (v.tick(
            pattern,
            router,
        ).sounding is Some),
{
    let off = v.release();
    let on = v.attack(pattern, router);
    if v.id != id {
        assert forall|start: bool|
            #![trigger paired(v.tick_events(pattern, router), id, start)]
            paired(v.tick_events(pattern, router), id, start) && sounding_after(
                v.tick_events(pattern, router),
                id,
                start,
            ) == start by {
            lemma_foreign(v.tick_events(pattern, router), id, start);
        }
    } else {
        let start = v.sounding is Some;
        lemma_paired_concat(off, on, id, start);
        if v.sounding is Some {
            lemma_single(off[0], id, start);
            assert(off =~= seq![off[0]]);
        }
        assert(paired(off, id, start));
        assert(!sounding_after(off, id, start));
        if v.strikes(pattern, router) {
            lemma_single(on[0], id, false);
            assert(on =~= seq![on[0]]);
        }
    }
}

/// The events of one voice's release alternate for every sequence, and
/// leave its own sequence silent.
pub proof fn lemma_release_pairs(v: VoiceView, id: u64)
    ensures
        v.id != id ==> forall|start: bool|
            #![trigger paired(v.release(), id, start)]
            paired(v.release(), id, start) && sounding_after(v.release(), id, start) == start,
        v.id == id ==> paired(v.release(), id, v.sounding is Some) && !sounding_after(
            v.release(),
            id,
            v.sounding is Some,
        ),
{
    let off = v.release();
    if v.id != id {
        assert forall|start: bool|
            #![trigger paired(v.release(), id, start)]
            paired(v.release(), id, start) && sounding_after(v.release(), id, start) == start by {
            lemma_foreign(v.release(), id, start);
        }
    } else {
        if v.sounding is Some {
            lemma_single(off[0], id, true);
            assert(off =~= seq![off[0]]);
        }
    }
}

/// The events of a tick alternate for `id`, and leave sounding exactly the
/// note that its voice records after the tick.
pub proof fn lemma_tick_pairs(
    t: TransportView,
    store: StoreView,
    router: RouterView,
    id: u64,
    n: int,
)
    requires
        t.wf(),
        0 <= n <= t.voices.len(),
    ensures
        paired(t.tick_events_upto(store, router, n), id, t.is_sounding(id)),
        sounding_after(t.tick_events_upto(store, router, n), id, t.is_sounding(id)) == if t.is_playing(
            id,
        ) && t.position(id) < n {
            t.voice(id).tick(store.pattern(id), router).sounding is Some
        } else {
            t.is_sounding(id)
        },
    decreases n,
{
    if n > 0 {
        lemma_tick_pairs(t, store, router, id, n - 1);
        let v = t.voices[n - 1];
        let before = t.tick_events_upto(store, router, n - 1);
        let here = v.tick_events(store.pattern(v.id), router);
        let start = t.is_sounding(id);
        let mid = sounding_after(before, id, start);
        lemma_paired_concat(before, here, id, start);
        lemma_voice_tick_pairs(v, store.pattern(v.id), router, id);
        t.lemma_position(n - 1);
        if v.id == id {
            assert(t.position(id) == n - 1);
            assert(mid == start);
            assert(start == (v.sounding is Some));
        } else {
            assert(paired(here, id, mid));
            if t.is_playing(id) {
                t.lemma_playing(id);
                assert(t.position(id) != n - 1);
            }
        }
    }
}

/// The events of stopping every sequence alternate for `id`, and leave it
/// silent.
pub proof fn lemma_release_all_pairs(t: TransportView, id: u64, n: int)
    requires
        t.wf(),
        0 <= n <= t.voices.len(),
    ensures
        paired(t.release_upto(n), id, t.is_sounding(id)),
        sounding_after(t.release_upto(n), id, t.is_sounding(id)) == if t.is_playing(id)
            && t.position(id) < n {
            false
        } else {
            t.is_sounding(id)
        },
    decreases n,
{
    if n > 0 {
        lemma_release_all_pairs(t, id, n - 1);
        let v = t.voices[n - 1];
        let before = t.release_upto(n - 1);
        let here = v.release();
        let start = t.is_sounding(id);
        let mid = sounding_after(before, id, start);
        lemma_paired_concat(before, here, id, start);
        lemma_release_pairs(v, id);
        t.lemma_position(n - 1);
        if v.id == id {
            assert(t.position(id) == n - 1);
            assert(mid == start);
            assert(start == (v.sounding is Some));
        } else {
            assert(paired(here, id, mid));
            if t.is_playing(id) {
                t.lemma_playing(id);
                assert(t.position(id) != n - 1);
            }
        }
    }
}

/// The sequencer at the start is well formed.
pub proof fn lemma_initial_wf()
    ensures
        SequencerView::initial().wf(),
        forall|id: u64| !(#[trigger] SequencerView::initial().transport.is_playing(id)),
{
    StoreView::empty().lemma_insert(Pattern::fresh("Sequence-0"@, 16));
    lemma_interval_bounds(120);
}

/// Every command keeps the sequencer well formed.
pub proof fn lemma_apply_wf(s: SequencerView, c: Command)
    requires
        s.wf(),
    ensures
        apply(s, c).wf(),
{
    let after = apply(s, c);
    match c {
        Command::Create { name } => {
            if s.store.has_room() {
                s.store.lemma_insert(Pattern::fresh(name, 16));
                lemma_carry(s.transport, s.store, after.store);
            }
        },
        Command::Delete { id } => {
            if s.store.contains(id) {
                lemma_stop_wf(s, id);
                let stopped = s.stop(id);
                stopped.store.lemma_remove(id);
                assert forall|i: int| 0 <= i < stopped.transport.voices.len() implies (
                #[trigger] stopped.transport.voices[i]).id != id by {
                    if stopped.transport.voices[i].id == id {
                        assert(stopped.transport.is_playing(id));
                    }
                }
                assert forall|i: int|
                    0 <= i < after.transport.voices.len() implies after.store.contains(
                    (#[trigger] after.transport.voices[i]).id,
                ) && after.transport.voices[i].fits(
                    after.store.pattern(after.transport.voices[i].id).notes.len(),
                ) by {
                    let v = stopped.transport.voices[i];
                    assert(stopped.store.contains(v.id));
                    assert(after.store.contains(v.id));
                }
            }
        },
        Command::Rename { id, name } => {
            if s.store.contains(id) {
                lemma_edit_wf(s, id, s.store.pattern(id).with_name(name));
            }
        },
        Command::SetStep { id, index, slot } => {
            if s.store.set_step_failure(id, index, slot) is None {
                s.store.lemma_contains(id);
                assert(s.store.patterns[s.store.position(id)].in_range());
                lemma_edit_wf(s, id, s.store.pattern(id).with_slot(index, slot));
            }
        },
        Command::SetOutput { id, output } => {
            if s.store.contains(id) {
                lemma_edit_wf(s, id, s.store.pattern(id).with_output(output));
            }
        },
        Command::Play { id, now } => {
            if s.store.contains(id) && !s.transport.is_playing(id) {
                s.transport.lemma_play(id, s.store);
                lemma_interval_bounds(s.clock.bpm);
            }
        },
        Command::Stop { id } => {
            if s.store.contains(id) {
                lemma_stop_wf(s, id);
            }
        },
        Command::StopAll => {},
        Command::SetBpm { bpm } => {},
        Command::SetAvailable { device, available } => {},
        Command::Poll { now } => {
            if s.clock.due(now as nat) {
                s.transport.lemma_tick(s.store, s.router);
                lemma_boundary(s.clock, now as nat);
                lemma_interval_bounds(s.clock.bpm);
            }
        },
    }
}

/// A transport that is consistent with a store is consistent with every
/// store that holds the same playing sequences at the same lengths.
pub proof fn lemma_carry(t: TransportView, before: StoreView, after: StoreView)
    requires
        t.consistent(before),
        forall|id: u64|
            before.contains(id) ==> #[trigger] after.contains(id) && after.pattern(id).notes.len()
                == before.pattern(id).notes.len(),
    ensures
        t.consistent(after),
{
    assert forall|i: int| 0 <= i < t.voices.len() implies after.contains(
        (#[trigger] t.voices[i]).id,
    ) && t.voices[i].fits(after.pattern(t.voices[i].id).notes.len()) by {
        assert(before.contains(t.voices[i].id));
        assert(after.contains(t.voices[i].id));
    }
}

/// Replacing the pattern of `id` by one of the same length keeps the
/// sequencer well formed.
pub proof fn lemma_edit_wf(s: SequencerView, id: u64, pattern: Pattern)
    requires
        s.wf(),
        s.store.contains(id),
        pattern.notes.len() == s.store.pattern(id).notes.len(),
        pattern.in_range(),
    ensures
        (SequencerView { store: s.store.replace(id, pattern), ..s }).wf(),
{
    s.store.lemma_replace(id, pattern);
    let after = s.store.replace(id, pattern);
    assert forall|other: u64| s.store.contains(other) implies #[trigger] after.contains(other)
        && after.pattern(other).notes.len() == s.store.pattern(other).notes.len() by {
        if other != id {
            assert(after.pattern(other) == s.store.pattern(other));
        }
    }
    lemma_carry(s.transport, s.store, after);
}

/// Stopping a sequence keeps the sequencer well formed.
pub proof fn lemma_stop_wf(s: SequencerView, id: u64)
    requires
        s.wf(),
    ensures
        s.stop(id).wf(),
        !s.stop(id).transport.is_playing(id),
{
    if s.transport.is_playing(id) {
        s.transport.lemma_stop(id, s.store);
    }
}

/// The events of one command alternate for `id`, and leave sounding
/// exactly the note that the transport records after it.
pub proof fn lemma_step_pairs(s: SequencerView, c: Command, id: u64)
    requires
        s.wf(),
    ensures
        paired(emitted(s, c), id, s.transport.is_sounding(id)),
        sounding_after(emitted(s, c), id, s.transport.is_sounding(id)) == apply(
            s,
            c,
        ).transport.is_sounding(id),
{
    let t = s.transport;
    match c {
        Command::Play { id: started, now } => {
            if s.store.contains(started) && !t.is_playing(started) {
                t.lemma_play(started, s.store);
            }
        },
        Command::Stop { id: stopped } => {
            if s.store.contains(stopped) {
                lemma_stop_pairs(s, stopped, id);
            }
        },
        Command::Delete { id: stopped } => {
            if s.store.contains(stopped) {
                lemma_stop_pairs(s, stopped, id);
            }
        },
        Command::StopAll => {
            lemma_release_all_pairs(t, id, t.voices.len() as int);
            if s.stop_all().transport.is_playing(id) {
                s.stop_all().transport.lemma_playing(id);
            }
            if t.is_playing(id) {
                t.lemma_playing(id);
            }
        },
        Command::Poll { now } => {
            if s.clock.due(now as nat) {
                lemma_tick_pairs(t, s.store, s.router, id, t.voices.len() as int);
                t.lemma_tick(s.store, s.router);
                if t.is_playing(id) {
                    t.lemma_playing(id);
                }
            }
        },
        _ => {},
    }
}

/// The events of stopping `stopped` alternate for `id`, and leave sounding
/// exactly the note that the transport records after it.
pub proof fn lemma_stop_pairs(s: SequencerView, stopped: u64, id: u64)
    requires
        s.wf(),
    ensures
        paired(s.stop_events(stopped), id, s.transport.is_sounding(id)),
        sounding_after(s.stop_events(stopped), id, s.transport.is_sounding(id)) == s.stop(
            stopped,
        ).transport.is_sounding(id),
{
    let t = s.transport;
    if t.is_playing(stopped) {
        t.lemma_stop(stopped, s.store);
        t.lemma_playing(stopped);
        lemma_release_pairs(t.voice(stopped), id);
        if stopped != id {
            assert(paired(t.voice(stopped).release(), id, t.is_sounding(id)));
        }
    }
}

/// Along every run from a well-formed state, the events of each sequence
/// alternate, and a note of it sounds at the end exactly when the transport
/// records one.
pub proof fn lemma_run_pairs(s: SequencerView, cmds: Seq<Command>, id: u64)
    requires
        s.wf(),
    ensures
        run(s, cmds).wf(),
        paired(trace(s, cmds), id, s.transport.is_sounding(id)),
        sounding_after(trace(s, cmds), id, s.transport.is_sounding(id)) == run(
            s,
            cmds,
        ).transport.is_sounding(id),
    decreases cmds.len(),
{
    if cmds.len() > 0 {
        let before = cmds.drop_last();
        lemma_run_pairs(s, before, id);
        lemma_apply_wf(run(s, before), cmds.last());
        lemma_step_pairs(run(s, before), cmds.last(), id);
        lemma_paired_concat(
            trace(s, before),
            emitted(run(s, before), cmds.last()),
            id,
            s.transport.is_sounding(id),
        );
    }
}

/// From the start on, whatever the commands and at every moment, the events
/// of a sequence alternate between note-on and note-off, beginning with a
/// note-on: no note-on is emitted while a note of the sequence sounds, and
/// no note-off while none does.
pub proof fn law_events_alternate(cmds: Seq<Command>, id: u64, k: int)
    requires
        0 <= k <= trace(SequencerView::initial(), cmds).len(),
    ensures
        paired(trace(SequencerView::initial(), cmds).take(k), id, false),
{
    lemma_initial_wf();
    lemma_run_pairs(SequencerView::initial(), cmds, id);
    lemma_paired_prefix(trace(SequencerView::initial(), cmds), id, false, k);
}

/// From the start on, whatever the commands and at every moment, the
/// note-offs emitted for a sequence do not outnumber its note-ons, and the
/// note-ons lead by one at most.
pub proof fn law_note_offs_never_outnumber_note_ons(cmds: Seq<Command>, id: u64, k: int)
    requires
        0 <= k <= trace(SequencerView::initial(), cmds).len(),
    ensures
        count_off(trace(SequencerView::initial(), cmds).take(k), id) <= count_on(
            trace(SequencerView::initial(), cmds).take(k),
            id,
        ) <= count_off(trace(SequencerView::initial(), cmds).take(k), id) + 1,
{
    law_events_alternate(cmds, id, k);
    lemma_counts(trace(SequencerView::initial(), cmds).take(k), id, false);
}

/// From the start on, whatever the commands, every sequence that plays
/// exists in the store, and the clock runs exactly while a sequence plays.
pub proof fn law_playing_sequences_exist(cmds: Seq<Command>, id: u64)
    ensures
        run(SequencerView::initial(), cmds).transport.is_playing(id) ==> run(
            SequencerView::initial(),
            cmds,
        ).store.contains(id),
        run(SequencerView::initial(), cmds).clock.running <==> exists|playing: u64|
            run(SequencerView::initial(), cmds).transport.is_playing(playing),
{
    let s = run(SequencerView::initial(), cmds);
    lemma_initial_wf();
    lemma_run_pairs(SequencerView::initial(), cmds, id);
    if s.transport.is_playing(id) {
        s.transport.lemma_playing(id);
    }
    if s.clock.running {
        assert(s.transport.voices[0].id == s.transport.voices[0].id);
        assert(s.transport.is_playing(s.transport.voices[0].id));
    }
    if exists|playing: u64| s.transport.is_playing(playing) {
        let playing = choose|playing: u64| s.transport.is_playing(playing);
        s.transport.lemma_playing(playing);
    }
}

/// From the start on, whenever a sequence does not play, as after it was
/// stopped or deleted, it has been sent as many note-offs as note-ons.
pub proof fn law_stopped_sequence_is_silent(cmds: Seq<Command>, id: u64)
    ensures
        !run(SequencerView::initial(), cmds).transport.is_playing(id) ==> count_on(
            trace(SequencerView::initial(), cmds),
            id,
        ) == count_off(trace(SequencerView::initial(), cmds), id),
        cmds.len() > 0 && (cmds.last() == (Command::Stop { id }) || cmds.last() == (Command::Delete {
            id,
        }) || cmds.last() == Command::StopAll) ==> !run(
            SequencerView::initial(),
            cmds,
        ).transport.is_playing(id),
{
    let start = SequencerView::initial();
    lemma_initial_wf();
    lemma_run_pairs(start, cmds, id);
    lemma_counts(trace(start, cmds), id, false);
    if cmds.len() > 0 {
        let s = run(start, cmds.drop_last());
        lemma_run_pairs(start, cmds.drop_last(), id);
        if cmds.last() == (Command::Stop { id }) || cmds.last() == (Command::Delete { id }) {
            lemma_stop_wf(s, id);
            if !s.store.contains(id) && s.transport.is_playing(id) {
                s.transport.lemma_playing(id);
            }
        } else if cmds.last() == Command::StopAll {
            if s.stop_all().transport.is_playing(id) {
                s.stop_all().transport.lemma_playing(id);
            }
        }
    }
}

/// Whether an event is what its sequence's voice and pattern call for: a
/// note-on carries the note that the voice strikes and goes to the
/// destination that the pattern resolves to, which is in reach; a note-off
/// carries the sounding note and goes to the destination at which that note
/// was switched on.
pub open spec fn called_for(
    e: DispatchView,
    t: TransportView,
    store: StoreView,
    router: RouterView,
) -> bool {
    &&& t.is_playing(e.sequence)
    &&& match e.event {
        EventView::NoteOn { pitch, velocity, dest } => {
            &&& t.voice(e.sequence).struck(store.pattern(e.sequence)) == Some((pitch, velocity))
            &&& dest == router.effective(store.pattern(e.sequence))
            &&& router.available(dest.device)
        },
        EventView::NoteOff { pitch, dest } => t.voice(e.sequence).sounding == Some(
            SoundingView { pitch, dest },
        ),
    }
}

/// Every event of a tick is called for by the state before the tick.
pub proof fn lemma_tick_origin(
    t: TransportView,
    store: StoreView,
    router: RouterView,
    n: int,
    i: int,
)
    requires
        t.wf(),
        0 <= n <= t.voices.len(),
        0 <= i < t.tick_events_upto(store, router, n).len(),
    ensures
        called_for(t.tick_events_upto(store, router, n)[i], t, store, router),
    decreases n,
{
    if n > 0 {
        let before = t.tick_events_upto(store, router, n - 1);
        let v = t.voices[n - 1];
        if i < before.len() {
            lemma_tick_origin(t, store, router, n - 1, i);
        } else {
            t.lemma_position(n - 1);
        }
    }
}

/// Every note-on of a tick goes to the destination that its sequence
/// resolves to at that tick: its own output if it is bound to one, the
/// default otherwise. Every note-off goes to the destination at which its
/// note was switched on, whatever the sequence is bound to by then.
pub proof fn law_events_reach_their_destination(s: SequencerView, now: u64, i: int)
    requires
        s.wf(),
        0 <= i < s.poll_events(now as nat).len(),
    ensures
        called_for(s.poll_events(now as nat)[i], s.transport, s.store, s.router),
{
    lemma_tick_origin(s.transport, s.store, s.router, s.transport.voices.len() as int, i);
}

/// Binding a sequence to another output while its note sounds leaves the
/// note where it was switched on: the note-off, at the next tick or at a
/// stop, goes to the old destination. The note-ons from then on go to the
/// new one.
pub proof fn law_rebinding_moves_later_notes_only(
    s: SequencerView,
    id: u64,
    output: Option<Destination>,
)
    requires
        s.wf(),
        s.transport.is_sounding(id),
    ensures
        s.set_output(id, output).transport == s.transport,
        s.set_output(id, output).stop_events(id) == seq![
            note_off(
                id,
                s.transport.voice(id).sounding->0.pitch,
                s.transport.voice(id).sounding->0.dest,
            ),
        ],
        s.set_output(id, output).transport.voice(id).tick_events(
            s.set_output(id, output).store.pattern(id),
            s.router,
        )[0] == note_off(
            id,
            s.transport.voice(id).sounding->0.pitch,
            s.transport.voice(id).sounding->0.dest,
        ),
        s.set_output(id, output).router.effective(s.set_output(id, output).store.pattern(id))
            == match output {
            Some(dest) => dest,
            None => s.router.fallback,
        },
{
    s.transport.lemma_playing(id);
    assert(s.store.contains(id));
    let p = s.store.pattern(id).with_output(output);
    s.store.lemma_contains(id);
    assert(s.store.patterns[s.store.position(id)].in_range());
    assert(p.in_range());
    s.store.lemma_replace(id, p);
}

/// Deleting a sequence emits the note-off of its sounding note in the same
/// step in which the sequence leaves the store: whoever finds the sequence
/// gone has been handed the note-off.
pub proof fn law_delete_flushes_the_sounding_note(s: SequencerView, id: u64, index: int)
    requires
        s.wf(),
        s.store.contains(id),
    ensures
        emitted(s, Command::Delete { id }) == if s.transport.is_sounding(id) {
            seq![
                note_off(
                    id,
                    s.transport.voice(id).sounding->0.pitch,
                    s.transport.voice(id).sounding->0.dest,
                ),
            ]
        } else {
            Seq::empty()
        },
        !apply(s, Command::Delete { id }).store.contains(id),
        !apply(s, Command::Delete { id }).transport.is_playing(id),
        apply(s, Command::Delete { id }).store.step_failure(id, index) == Some(
            SequencerError::NotFound,
        ),
{
    lemma_stop_wf(s, id);
    s.stop(id).store.lemma_remove(id);
    if s.transport.is_playing(id) {
        s.transport.lemma_playing(id);
    }
}

/// A change of tempo leaves the pending tick at its deadline, whatever the
/// time at which the clock is asked; the intervals after that tick follow
/// the new tempo.
pub proof fn law_tempo_change_spares_the_pending_tick(clock: ClockView, bpm: nat, now: nat)
    requires
        clock.wf(),
    ensures
        clock.set_bpm(bpm).wf(),
        clock.set_bpm(bpm).deadline() == clock.deadline(),
        clock.set_bpm(bpm).due(now) == clock.due(now),
        clock.set_bpm(bpm).poll(now).anchor == clock.poll(now).anchor,
        clock.due(now) ==> clock.set_bpm(bpm).poll(now).interval == interval_ms(clamp_bpm(bpm)),
{
}

/// One poll fires one tick at most, and a tick whenever one is due. The
/// boundary that it reaches lies on the schedule, at or after the deadline
/// and not after `now`: no deadline fires twice. At an unchanged tempo the
/// next deadline lies after `now`: the boundaries missed by a late poll are
/// passed over, not replayed.
pub proof fn law_late_ticks_coalesce(clock: ClockView, now: nat)
    requires
        clock.wf(),
        clock.due(now),
    ensures
        clock.deadline() <= clock.poll(now).anchor <= now,
        (clock.poll(now).anchor - clock.anchor) % (clock.interval as int) == 0,
        clock.poll(now).deadline() > clock.deadline(),
        clock.interval == interval_ms(clock.bpm) ==> !clock.poll(now).due(now),
{
    lemma_boundary(clock, now);
    lemma_interval_bounds(clock.bpm);
}

} // verus!
