//! Sequences do not disturb each other: what one sequence emits does not
//! depend on what another holds.

use vstd::prelude::*;
use crate::event::DispatchView;
use crate::laws::{apply, emitted, lemma_apply_wf, run, trace, Command};
use crate::note::Slot;
use crate::router::RouterView;
use crate::sequencer::SequencerView;
use crate::store::StoreView;
use crate::transport::{TransportView, VoiceView};

verus! {

/// The events of `id` among `events`, in order.
pub open spec fn events_of(events: Seq<DispatchView>, id: u64) -> Seq<DispatchView>
    decreases events.len(),
{
    if events.len() == 0 {
        Seq::empty()
    } else if events.last().sequence == id {
        events_of(events.drop_last(), id).push(events.last())
    } else {
        events_of(events.drop_last(), id)
    }
}

/// Whether two stores hold the same sequences under the same ids, with the
/// same patterns but for the content of the pattern of `a`, which has the
/// same length in both.
pub open spec fn stores_alike(x: StoreView, y: StoreView, a: u64) -> bool {
    &&& x.ids == y.ids
    &&& x.next_id == y.next_id
    &&& x.patterns.len() == y.patterns.len()
    &&& forall|i: int|
        0 <= i < x.patterns.len() ==> (#[trigger] x.patterns[i]).notes.len()
            == y.patterns[i].notes.len() && (x.ids[i] != a ==> x.patterns[i] == y.patterns[i])
}

/// Whether two rows of voices play the same sequences at the same steps,
/// with the same sounding notes but for the note of `a`.
pub open spec fn voices_alike(x: Seq<VoiceView>, y: Seq<VoiceView>, a: u64) -> bool {
    &&& x.len() == y.len()
    &&& forall|i: int|
        0 <= i < x.len() ==> (#[trigger] x[i]).id == y[i].id && x[i].step == y[i].step
            && x[i].started == y[i].started && (x[i].id != a ==> x[i] == y[i])
}

/// Whether two sequencers are in the same state but for the content of the
/// pattern of `a` and the note of `a` that sounds.
pub open spec fn alike(s: SequencerView, r: SequencerView, a: u64) -> bool {
    &&& s.router == r.router
    &&& s.clock == r.clock
    &&& stores_alike(s.store, r.store, a)
    &&& voices_alike(s.transport.voices, r.transport.voices, a)
    &&& s.transport.shown_step == r.transport.shown_step
}

/// The events of `id` among two rows of events are those among the first,
/// then those among the second.
pub proof fn lemma_events_of_concat(a: Seq<DispatchView>, b: Seq<DispatchView>, id: u64)
    ensures
        events_of(a + b, id) == events_of(a, id) + events_of(b, id),
    decreases b.len(),
{
    if b.len() == 0 {
        assert(a + b =~= a);
        assert(events_of(a, id) + events_of(b, id) =~= events_of(a, id));
    } else {
        assert((a + b).drop_last() =~= a + b.drop_last());
        assert((a + b).last() == b.last());
        lemma_events_of_concat(a, b.drop_last(), id);
        if b.last().sequence == id {
            assert((events_of(a, id) + events_of(b.drop_last(), id)).push(b.last()) =~= events_of(
                a,
                id,
            ) + events_of(b.drop_last(), id).push(b.last()));
        }
    }
}

/// Among the events of other sequences there is none of `id`.
pub proof fn lemma_events_of_foreign(events: Seq<DispatchView>, id: u64)
    requires
        forall|i: int| 0 <= i < events.len() ==> (#[trigger] events[i]).sequence != id,
    ensures
        events_of(events, id) == Seq::<DispatchView>::empty(),
    decreases events.len(),
{
    if events.len() > 0 {
        let rest = events.drop_last();
        assert(events.last() == events[events.len() - 1]);
        assert forall|i: int| 0 <= i < rest.len() implies (#[trigger] rest[i]).sequence != id by {
            assert(rest[i] == events[i]);
        }
        lemma_events_of_foreign(rest, id);
    }
}

/// In stores that are alike, a sequence has the same position and the same
/// length, and every sequence but `a` the same pattern.
pub proof fn lemma_patterns_alike(x: StoreView, y: StoreView, a: u64, id: u64)
    requires
        x.wf(),
        y.wf(),
        stores_alike(x, y, a),
        x.contains(id),
    ensures
        y.contains(id),
        y.position(id) == x.position(id),
        y.pattern(id).notes.len() == x.pattern(id).notes.len(),
        id != a ==> y.pattern(id) == x.pattern(id),
{
    x.lemma_contains(id);
    let k = x.position(id);
    assert(x.patterns[k].notes.len() == y.patterns[k].notes.len());
}

/// Transports that are alike over stores that are alike show the same step.
pub proof fn lemma_lead_alike(
    t: TransportView,
    u: TransportView,
    x: StoreView,
    y: StoreView,
    a: u64,
    n: int,
)
    requires
        x.wf(),
        y.wf(),
        stores_alike(x, y, a),
        t.consistent(x),
        voices_alike(t.voices, u.voices, a),
        0 <= n <= t.voices.len(),
    ensures
        t.lead_upto(x, n) == u.lead_upto(y, n),
    decreases n,
{
    if n > 0 {
        lemma_lead_alike(t, u, x, y, a, n - 1);
        let v = t.voices[n - 1];
        assert(u.voices[n - 1].id == v.id);
        assert(x.contains(v.id));
        lemma_patterns_alike(x, y, a, v.id);
    }
}

/// Bringing the shown step up to date keeps transports alike.
pub proof fn lemma_refresh_alike(t: TransportView, u: TransportView, x: StoreView, y: StoreView, a: u64)
    requires
        x.wf(),
        y.wf(),
        stores_alike(x, y, a),
        t.consistent(x),
        voices_alike(t.voices, u.voices, a),
        t.shown_step == u.shown_step,
    ensures
        t.refresh(x).shown_step == u.refresh(y).shown_step,
        voices_alike(t.refresh(x).voices, u.refresh(y).voices, a),
{
    lemma_lead_alike(t, u, x, y, a, t.voices.len() as int);
}

/// Transports that are alike play the same sequences at the same
/// positions, and a new voice belongs at the same place in both.
pub proof fn lemma_places_alike(t: TransportView, u: TransportView, a: u64, id: u64)
    requires
        t.wf(),
        u.wf(),
        voices_alike(t.voices, u.voices, a),
    ensures
        t.is_playing(id) == u.is_playing(id),
        t.is_playing(id) ==> t.position(id) == u.position(id) && (id != a ==> t.voice(id)
            == u.voice(id)),
        t.rank(id) == u.rank(id),
{
    assert forall|i: int| 0 <= i < t.voices.len() implies (#[trigger] u.voices[i]).id
        == t.voices[i].id by {
        assert(t.voices[i].id == u.voices[i].id);
    }
    t.lemma_same_ids(u);
    if t.is_playing(id) {
        t.lemma_playing(id);
        let k = t.position(id);
        assert(t.voices[k].id == id);
    }
    t.lemma_rank_exists(id);
    let k = t.rank(id);
    assert(u.is_rank(id, k)) by {
        assert forall|i: int| 0 <= i < k implies (#[trigger] u.voices[i]).id < id by {
            assert(t.voices[i].id < id);
        }
        assert forall|i: int| k <= i < u.voices.len() implies (#[trigger] u.voices[i]).id >= id by {
            assert(t.voices[i].id >= id);
        }
    }
    u.lemma_rank(id, k);
}

/// A tick of transports that are alike emits the same events for every
/// sequence but `a`.
pub proof fn lemma_tick_events_alike(
    t: TransportView,
    u: TransportView,
    x: StoreView,
    y: StoreView,
    router: RouterView,
    a: u64,
    b: u64,
    n: int,
)
    requires
        x.wf(),
        y.wf(),
        stores_alike(x, y, a),
        t.consistent(x),
        voices_alike(t.voices, u.voices, a),
        a != b,
        0 <= n <= t.voices.len(),
    ensures
        events_of(t.tick_events_upto(x, router, n), b) == events_of(
            u.tick_events_upto(y, router, n),
            b,
        ),
    decreases n,
{
    if n > 0 {
        lemma_tick_events_alike(t, u, x, y, router, a, b, n - 1);
        let v = t.voices[n - 1];
        let w = u.voices[n - 1];
        assert(w.id == v.id);
        assert(x.contains(v.id));
        lemma_patterns_alike(x, y, a, v.id);
        let mine = v.tick_events(x.pattern(v.id), router);
        let theirs = w.tick_events(y.pattern(w.id), router);
        lemma_events_of_concat(t.tick_events_upto(x, router, n - 1), mine, b);
        lemma_events_of_concat(u.tick_events_upto(y, router, n - 1), theirs, b);
        if v.id == a {
            lemma_events_of_foreign(mine, b);
            lemma_events_of_foreign(theirs, b);
        }
    }
}

/// Stopping everything in transports that are alike emits the same events
/// for every sequence but `a`.
pub proof fn lemma_release_alike(t: TransportView, u: TransportView, a: u64, b: u64, n: int)
    requires
        voices_alike(t.voices, u.voices, a),
        a != b,
        0 <= n <= t.voices.len(),
    ensures
        events_of(t.release_upto(n), b) == events_of(u.release_upto(n), b),
    decreases n,
{
    if n > 0 {
        lemma_release_alike(t, u, a, b, n - 1);
        let v = t.voices[n - 1];
        let w = u.voices[n - 1];
        assert(w.id == v.id);
        lemma_events_of_concat(t.release_upto(n - 1), v.release(), b);
        lemma_events_of_concat(u.release_upto(n - 1), w.release(), b);
        if v.id == a {
            lemma_events_of_foreign(v.release(), b);
            lemma_events_of_foreign(w.release(), b);
        }
    }
}

/// Stopping a sequence in sequencers that are alike keeps them alike and
/// emits the same events for every sequence but `a`.
pub proof fn lemma_stop_alike(s: SequencerView, r: SequencerView, a: u64, id: u64, b: u64)
    requires
        s.wf(),
        r.wf(),
        alike(s, r, a),
        a != b,
    ensures
        alike(s.stop(id), r.stop(id), a),
        events_of(s.stop_events(id), b) == events_of(r.stop_events(id), b),
{
    let t = s.transport;
    let u = r.transport;
    lemma_places_alike(t, u, a, id);
    if t.is_playing(id) {
        let k = t.position(id);
        t.lemma_playing(id);
        u.lemma_playing(id);
        t.lemma_stop(id, s.store);
        u.lemma_stop(id, r.store);
        let t1 = TransportView { voices: t.voices.remove(k), shown_step: t.shown_step };
        let u1 = TransportView { voices: u.voices.remove(k), shown_step: u.shown_step };
        assert(voices_alike(t1.voices, u1.voices, a)) by {
            assert forall|i: int| 0 <= i < t1.voices.len() implies (#[trigger] t1.voices[i]).id
                == u1.voices[i].id && t1.voices[i].step == u1.voices[i].step && t1.voices[i].started
                == u1.voices[i].started && (t1.voices[i].id != a ==> t1.voices[i]
                == u1.voices[i]) by {
                let j = if i < k { i } else { i + 1 };
                assert(t1.voices[i] == t.voices[j]);
                assert(u1.voices[i] == u.voices[j]);
            }
        }
        assert(t1.consistent(s.store)) by {
            assert(t1.refresh(s.store).consistent(s.store));
        }
        lemma_refresh_alike(t1, u1, s.store, r.store, a);
        if id == a {
            lemma_events_of_foreign(t.voice(id).release(), b);
            lemma_events_of_foreign(u.voice(id).release(), b);
        }
    }
}

/// Creating a sequence keeps sequencers alike.
pub proof fn lemma_create_alike(s: SequencerView, r: SequencerView, a: u64, name: Seq<char>)
    requires
        s.wf(),
        r.wf(),
        alike(s, r, a),
    ensures
        alike(s.create_sequence(name), r.create_sequence(name), a),
{
    if s.store.has_room() {
        let x = s.create_sequence(name).store;
        let y = r.create_sequence(name).store;
        let n = s.store.patterns.len() as int;
        assert forall|i: int| 0 <= i < x.patterns.len() implies (#[trigger] x.patterns[i]).notes.len()
            == y.patterns[i].notes.len() && (x.ids[i] != a ==> x.patterns[i] == y.patterns[i]) by {
            if i < n {
                assert(x.patterns[i] == s.store.patterns[i]);
                assert(y.patterns[i] == r.store.patterns[i]);
                assert(x.ids[i] == s.store.ids[i]);
            }
        }
    }
}

/// Deleting a sequence keeps sequencers alike and emits the same events for
/// every sequence but `a`.
pub proof fn lemma_delete_alike(s: SequencerView, r: SequencerView, a: u64, id: u64, b: u64)
    requires
        s.wf(),
        r.wf(),
        alike(s, r, a),
        a != b,
        s.store.contains(id),
    ensures
        alike(s.delete_sequence(id), r.delete_sequence(id), a),
        events_of(s.delete_events(id), b) == events_of(r.delete_events(id), b),
{
    lemma_stop_alike(s, r, a, id, b);
    let k = s.store.position(id);
    s.store.lemma_contains(id);
    let x = s.delete_sequence(id).store;
    let y = r.delete_sequence(id).store;
    assert forall|i: int| 0 <= i < x.patterns.len() implies (#[trigger] x.patterns[i]).notes.len()
        == y.patterns[i].notes.len() && (x.ids[i] != a ==> x.patterns[i] == y.patterns[i]) by {
        let j = if i < k { i } else { i + 1 };
        assert(x.patterns[i] == s.store.patterns[j]);
        assert(y.patterns[i] == r.store.patterns[j]);
        assert(x.ids[i] == s.store.ids[j]);
    }
}

/// Starting a sequence keeps sequencers alike.
pub proof fn lemma_play_alike(s: SequencerView, r: SequencerView, a: u64, id: u64, now: nat)
    requires
        s.wf(),
        r.wf(),
        alike(s, r, a),
    ensures
        alike(s.play(id, now), r.play(id, now), a),
{
    let t = s.transport;
    let u = r.transport;
    lemma_places_alike(t, u, a, id);
    if s.store.contains(id) && !t.is_playing(id) {
        let k = t.rank(id);
        t.lemma_play(id, s.store);
        u.lemma_play(id, r.store);
        let t1 = TransportView {
            voices: t.voices.insert(k, VoiceView::fresh(id)),
            shown_step: t.shown_step,
        };
        let u1 = TransportView {
            voices: u.voices.insert(k, VoiceView::fresh(id)),
            shown_step: u.shown_step,
        };
        t.lemma_rank_exists(id);
        assert(voices_alike(t1.voices, u1.voices, a)) by {
            assert forall|i: int| 0 <= i < t1.voices.len() implies (#[trigger] t1.voices[i]).id
                == u1.voices[i].id && t1.voices[i].step == u1.voices[i].step && t1.voices[i].started
                == u1.voices[i].started && (t1.voices[i].id != a ==> t1.voices[i]
                == u1.voices[i]) by {
                if i < k {
                    assert(t1.voices[i] == t.voices[i]);
                    assert(u1.voices[i] == u.voices[i]);
                } else if i > k {
                    assert(t1.voices[i] == t.voices[i - 1]);
                    assert(u1.voices[i] == u.voices[i - 1]);
                }
            }
        }
        assert(t1.consistent(s.store)) by {
            assert(t1.refresh(s.store).consistent(s.store));
        }
        lemma_refresh_alike(t1, u1, s.store, r.store, a);
    }
}

/// A tick keeps sequencers alike and emits the same events for every
/// sequence but `a`.
pub proof fn lemma_poll_alike(s: SequencerView, r: SequencerView, a: u64, now: nat, b: u64)
    requires
        s.wf(),
        r.wf(),
        alike(s, r, a),
        a != b,
    ensures
        alike(s.poll(now), r.poll(now), a),
        events_of(s.poll_events(now), b) == events_of(r.poll_events(now), b),
{
    let t = s.transport;
    let u = r.transport;
    if s.clock.due(now) {
        lemma_tick_events_alike(t, u, s.store, r.store, s.router, a, b, t.voices.len() as int);
        t.lemma_tick(s.store, s.router);
        u.lemma_tick(r.store, r.router);
        let t1 = TransportView { voices: t.ticked(s.store, s.router), shown_step: t.shown_step };
        let u1 = TransportView { voices: u.ticked(r.store, r.router), shown_step: u.shown_step };
        assert(voices_alike(t1.voices, u1.voices, a)) by {
            assert forall|i: int| 0 <= i < t1.voices.len() implies (#[trigger] t1.voices[i]).id
                == u1.voices[i].id && t1.voices[i].step == u1.voices[i].step && t1.voices[i].started
                == u1.voices[i].started && (t1.voices[i].id != a ==> t1.voices[i]
                == u1.voices[i]) by {
                let v = t.voices[i];
                assert(u.voices[i].id == v.id);
                assert(s.store.contains(v.id));
                lemma_patterns_alike(s.store, r.store, a, v.id);
            }
        }
        assert(t1.consistent(s.store)) by {
            assert(t1.refresh(s.store).consistent(s.store));
        }
        lemma_refresh_alike(t1, u1, s.store, r.store, a);
    }
}

/// The same command keeps sequencers alike and emits the same events for
/// every sequence but `a`.
pub proof fn lemma_step_alike(s: SequencerView, r: SequencerView, a: u64, c: Command, b: u64)
    requires
        s.wf(),
        r.wf(),
        alike(s, r, a),
        a != b,
    ensures
        alike(apply(s, c), apply(r, c), a),
        events_of(emitted(s, c), b) == events_of(emitted(r, c), b),
{
    match c {
        Command::Create { name } => {
            lemma_create_alike(s, r, a, name);
        },
        Command::Delete { id } => {
            if s.store.contains(id) {
                lemma_delete_alike(s, r, a, id, b);
            }
        },
        Command::Rename { id, name } => {
            lemma_edit_alike(s, r, a, c, id);
        },
        Command::SetStep { id, index, slot } => {
            lemma_edit_alike(s, r, a, c, id);
        },
        Command::SetOutput { id, output } => {
            lemma_edit_alike(s, r, a, c, id);
        },
        Command::Play { id, now } => {
            lemma_play_alike(s, r, a, id, now as nat);
        },
        Command::Stop { id } => {
            if s.store.contains(id) {
                lemma_stop_alike(s, r, a, id, b);
            }
        },
        Command::StopAll => {
            lemma_release_alike(
                s.transport,
                r.transport,
                a,
                b,
                s.transport.voices.len() as int,
            );
        },
        Command::SetBpm { bpm } => {},
        Command::SetAvailable { device, available } => {},
        Command::Poll { now } => {
            lemma_poll_alike(s, r, a, now as nat, b);
        },
    }
}

/// The same edit of a pattern keeps sequencers alike.
pub proof fn lemma_edit_alike(s: SequencerView, r: SequencerView, a: u64, c: Command, id: u64)
    requires
        s.wf(),
        r.wf(),
        alike(s, r, a),
        c is Rename && c->Rename_id == id || c is SetStep && c->SetStep_id == id || c is SetOutput
            && c->SetOutput_id == id,
    ensures
        alike(apply(s, c), apply(r, c), a),
{
    if s.store.contains(id) {
        lemma_patterns_alike(s.store, r.store, a, id);
        let k = s.store.position(id);
        s.store.lemma_contains(id);
        let x = apply(s, c).store;
        let y = apply(r, c).store;
        assert(x.ids == s.store.ids);
        assert(y.ids == r.store.ids);
        assert forall|i: int| 0 <= i < x.patterns.len() implies (#[trigger] x.patterns[i]).notes.len()
            == y.patterns[i].notes.len() && (x.ids[i] != a ==> x.patterns[i] == y.patterns[i]) by {
            assert(s.store.patterns[i].notes.len() == r.store.patterns[i].notes.len());
            if i != k {
                assert(x.patterns[i] == s.store.patterns[i]);
                assert(y.patterns[i] == r.store.patterns[i]);
            }
        }
    }
}

/// The same commands keep sequencers alike and emit the same events for
/// every sequence but `a`.
pub proof fn lemma_run_alike(s: SequencerView, r: SequencerView, a: u64, cmds: Seq<Command>, b: u64)
    requires
        s.wf(),
        r.wf(),
        alike(s, r, a),
        a != b,
    ensures
        run(s, cmds).wf(),
        run(r, cmds).wf(),
        alike(run(s, cmds), run(r, cmds), a),
        events_of(trace(s, cmds), b) == events_of(trace(r, cmds), b),
    decreases cmds.len(),
{
    if cmds.len() > 0 {
        let before = cmds.drop_last();
        lemma_run_alike(s, r, a, before, b);
        lemma_apply_wf(run(s, before), cmds.last());
        lemma_apply_wf(run(r, before), cmds.last());
        lemma_step_alike(run(s, before), run(r, before), a, cmds.last(), b);
        lemma_events_of_concat(trace(s, before), emitted(run(s, before), cmds.last()), b);
        lemma_events_of_concat(trace(r, before), emitted(run(r, before), cmds.last()), b);
    }
}

/// A write to a step of sequence `a` changes no event that any other
/// sequence emits from then on, whatever the commands that follow.
pub proof fn law_edit_leaves_other_sequences_alone(
    s: SequencerView,
    a: u64,
    index: int,
    slot: Slot,
    cmds: Seq<Command>,
    b: u64,
)
    requires
        s.wf(),
        a != b,
    ensures
        events_of(trace(s.set_step(a, index, slot), cmds), b) == events_of(trace(s, cmds), b),
{
    let c = Command::SetStep { id: a, index, slot };
    let edited = s.set_step(a, index, slot);
    lemma_apply_wf(s, c);
    assert(edited == apply(s, c));
    assert(alike(edited, s, a)) by {
        if s.store.set_step_failure(a, index, slot) is None {
            let k = s.store.position(a);
            s.store.lemma_contains(a);
            assert forall|i: int| 0 <= i < edited.store.patterns.len() implies (
            #[trigger] edited.store.patterns[i]).notes.len() == s.store.patterns[i].notes.len() && (
            edited.store.ids[i] != a ==> edited.store.patterns[i] == s.store.patterns[i]) by {
                if i != k {
                    assert(edited.store.patterns[i] == s.store.patterns[i]);
                }
            }
        }
    }
    lemma_run_alike(edited, s, a, cmds, b);
}

/// A slot that was written is the slot that is read, and the write changes
/// no other slot of any sequence.
pub proof fn law_written_slot_reads_back(
    s: SequencerView,
    a: u64,
    index: int,
    slot: Slot,
    id: u64,
    step: int,
)
    requires
        s.wf(),
        s.store.set_step_failure(a, index, slot) is None,
        s.store.step_failure(id, step) is None,
    ensures
        s.set_step(a, index, slot).store.step_failure(id, step) is None,
        s.set_step(a, index, slot).store.pattern(id).notes[step] == if id == a && step == index {
            slot
        } else {
            s.store.pattern(id).notes[step]
        },
{
    let p = s.store.pattern(a).with_slot(index, slot);
    s.store.lemma_contains(a);
    assert(s.store.patterns[s.store.position(a)].in_range());
    assert(p.in_range());
    s.store.lemma_replace(a, p);
    if id != a {
        assert(s.store.replace(a, p).pattern(id) == s.store.pattern(id));
    }
}

} // verus!
