//! What starting, stopping and ticking do to each playing sequence.

use vstd::prelude::*;
use crate::router::RouterView;
use crate::store::StoreView;
use crate::transport::{TransportView, VoiceView};

verus! {

impl TransportView {
    /// A playing sequence stands at its position.
    pub proof fn lemma_playing(self, id: u64)
        requires
            self.is_playing(id),
        ensures
            0 <= self.position(id) < self.voices.len(),
            self.voices[self.position(id)].id == id,
            self.voice(id).id == id,
    {
    }

    /// Two transports with the same ids in the same places play the same
    /// sequences at the same positions.
    pub proof fn lemma_same_ids(self, other: TransportView)
        requires
            self.wf(),
            self.voices.len() == other.voices.len(),
            forall|i: int|
                0 <= i < self.voices.len() ==> (#[trigger] other.voices[i]).id == self.voices[i].id,
        ensures
            other.wf(),
            forall|id: u64| #[trigger] other.is_playing(id) == self.is_playing(id),
            forall|id: u64| self.is_playing(id) ==> #[trigger] other.position(id) == self.position(id),
    {
        assert forall|i: int, j: int| 0 <= i < j < other.voices.len() implies other.voices[i].id
            < other.voices[j].id by {
            assert(self.voices[i].id < self.voices[j].id);
        }
        assert forall|id: u64| #[trigger] other.is_playing(id) == self.is_playing(id) by {
            if other.is_playing(id) {
                let k = other.position(id);
                assert(self.voices[k].id == id);
            }
            if self.is_playing(id) {
                let k = self.position(id);
                assert(other.voices[k].id == id);
            }
        }
        assert forall|id: u64| self.is_playing(id) implies #[trigger] other.position(id)
            == self.position(id) by {
            let k = self.position(id);
            assert(other.voices[k].id == id);
            other.lemma_position(k);
        }
    }

    /// The step that `lead_upto` gives is the greatest among the first `n`
    /// voices whose pattern has sixteen steps: one of them stands at it, and
    /// none stands beyond it. It gives nothing exactly when there is no such
    /// voice.
    pub proof fn lemma_lead_is_greatest(self, store: StoreView, n: int)
        requires
            0 <= n <= self.voices.len(),
        ensures
            match self.lead_upto(store, n) {
                Some(m) => {
                    &&& exists|i: int|
                        0 <= i < n && store.pattern((#[trigger] self.voices[i]).id).notes.len() == 16
                            && self.voices[i].step == m
                    &&& forall|i: int|
                        0 <= i < n && store.pattern((#[trigger] self.voices[i]).id).notes.len() == 16
                            ==> self.voices[i].step <= m
                },
                None => forall|i: int|
                    0 <= i < n ==> store.pattern((#[trigger] self.voices[i]).id).notes.len() != 16,
            },
        decreases n,
    {
        if n > 0 {
            self.lemma_lead_is_greatest(store, n - 1);
            let v = self.voices[n - 1];
            match self.lead_upto(store, n - 1) {
                Some(m) => {
                    let i = choose|i: int|
                        0 <= i < n - 1 && store.pattern((#[trigger] self.voices[i]).id).notes.len()
                            == 16 && self.voices[i].step == m;
                    assert(store.pattern(self.voices[i].id).notes.len() == 16);
                },
                None => {},
            }
            if store.pattern(v.id).notes.len() == 16 {
                assert(store.pattern(self.voices[n - 1].id).notes.len() == 16);
            }
        }
    }

    /// Bringing the shown step up to date leaves the voices alone.
    pub proof fn lemma_refresh(self, store: StoreView)
        ensures
            self.refresh(store).voices == self.voices,
            self.refresh(store).wf() == self.wf(),
            self.refresh(store).consistent(store) == self.consistent(store),
            forall|id: u64| #[trigger] self.refresh(store).is_playing(id) == self.is_playing(id),
            forall|id: u64| #[trigger] self.refresh(store).voice(id) == self.voice(id),
            forall|id: u64| #[trigger] self.refresh(store).is_sounding(id) == self.is_sounding(id),
    {
    }

    /// Starting a stopped sequence adds its voice, fresh, and leaves every
    /// other voice alone.
    pub proof fn lemma_play(self, id: u64, store: StoreView)
        requires
            self.wf(),
            self.consistent(store),
            store.contains(id),
            !self.is_playing(id),
        ensures
            self.play(id, store).wf(),
            self.play(id, store).consistent(store),
            self.play(id, store).voices == self.voices.insert(self.rank(id), VoiceView::fresh(id)),
            self.play(id, store).is_playing(id),
            self.play(id, store).voice(id) == VoiceView::fresh(id),
            forall|other: u64|
                other != id ==> #[trigger] self.play(id, store).is_playing(other) == self.is_playing(
                    other,
                ),
            forall|other: u64|
                other != id && self.is_playing(other) ==> #[trigger] self.play(id, store).voice(other)
                    == self.voice(other),
    {
        self.lemma_rank_exists(id);
        let k = self.rank(id);
        let t = TransportView {
            voices: self.voices.insert(k, VoiceView::fresh(id)),
            shown_step: self.shown_step,
        };
        t.lemma_refresh(store);
        assert forall|i: int| 0 <= i < t.voices.len() implies t.voices[i] == (if i < k {
            self.voices[i]
        } else if i == k {
            VoiceView::fresh(id)
        } else {
            self.voices[i - 1]
        }) by {}
        assert forall|i: int, j: int| 0 <= i < j < t.voices.len() implies t.voices[i].id
            < t.voices[j].id by {
            let a = if i < k { i } else { i - 1 };
            let b = if j < k { j } else { j - 1 };
            if i != k && j != k {
                assert(self.voices[a].id < self.voices[b].id);
            } else if i == k {
                assert(self.voices[b].id >= id);
                if self.voices[b].id == id {
                    assert(self.is_playing(id));
                }
            } else {
                assert(self.voices[a].id < id);
            }
        }
        assert forall|i: int| 0 <= i < t.voices.len() implies store.contains(
            (#[trigger] t.voices[i]).id,
        ) && t.voices[i].fits(store.pattern(t.voices[i].id).notes.len()) by {
            if i < k {
                assert(t.voices[i] == self.voices[i]);
            } else if i > k {
                assert(t.voices[i] == self.voices[i - 1]);
            }
        }
        assert(t.voices[k].id == id);
        t.lemma_position(k);
        assert forall|other: u64| other != id implies #[trigger] t.is_playing(other)
            == self.is_playing(other) by {
            if t.is_playing(other) {
                let p = t.position(other);
                let q = if p < k { p } else { p - 1 };
                assert(self.voices[q].id == other);
            }
            if self.is_playing(other) {
                let q = self.position(other);
                let p = if q < k { q } else { q + 1 };
                assert(t.voices[p].id == other);
            }
        }
        assert forall|other: u64| other != id && self.is_playing(other) implies #[trigger] t.voice(
            other,
        ) == self.voice(other) by {
            let q = self.position(other);
            let p = if q < k { q } else { q + 1 };
            assert(t.voices[p] == self.voices[q]);
            t.lemma_position(p);
        }
    }

    /// Stopping a playing sequence removes its voice and leaves every other
    /// voice alone.
    pub proof fn lemma_stop(self, id: u64, store: StoreView)
        requires
            self.wf(),
            self.consistent(store),
            self.is_playing(id),
        ensures
            self.stop(id, store).wf(),
            self.stop(id, store).consistent(store),
            self.stop(id, store).voices == self.voices.remove(self.position(id)),
            !self.stop(id, store).is_playing(id),
            forall|other: u64|
                other != id ==> #[trigger] self.stop(id, store).is_playing(other) == self.is_playing(
                    other,
                ),
            forall|other: u64|
                other != id && self.is_playing(other) ==> #[trigger] self.stop(id, store).voice(other)
                    == self.voice(other),
    {
        let k = self.position(id);
        let t = TransportView { voices: self.voices.remove(k), shown_step: self.shown_step };
        t.lemma_refresh(store);
        assert forall|i: int| 0 <= i < t.voices.len() implies t.voices[i] == (if i < k {
            self.voices[i]
        } else {
            self.voices[i + 1]
        }) by {}
        assert forall|i: int, j: int| 0 <= i < j < t.voices.len() implies t.voices[i].id
            < t.voices[j].id by {
            let a = if i < k { i } else { i + 1 };
            let b = if j < k { j } else { j + 1 };
            assert(self.voices[a].id < self.voices[b].id);
        }
        assert forall|i: int| 0 <= i < t.voices.len() implies store.contains(
            (#[trigger] t.voices[i]).id,
        ) && t.voices[i].fits(store.pattern(t.voices[i].id).notes.len()) by {
            if i < k {
                assert(t.voices[i] == self.voices[i]);
            } else {
                assert(t.voices[i] == self.voices[i + 1]);
            }
        }
        if t.is_playing(id) {
            let p = t.position(id);
            let q = if p < k { p } else { p + 1 };
            assert(self.voices[q].id == id);
            self.lemma_position(q);
        }
        assert forall|other: u64| other != id implies #[trigger] t.is_playing(other)
            == self.is_playing(other) by {
            if t.is_playing(other) {
                let p = t.position(other);
                let q = if p < k { p } else { p + 1 };
                assert(self.voices[q].id == other);
            }
            if self.is_playing(other) {
                let q = self.position(other);
                let p = if q < k { q } else { q - 1 };
                assert(t.voices[p].id == other);
            }
        }
        assert forall|other: u64| other != id && self.is_playing(other) implies #[trigger] t.voice(
            other,
        ) == self.voice(other) by {
            let q = self.position(other);
            let p = if q < k { q } else { q - 1 };
            assert(t.voices[p] == self.voices[q]);
            t.lemma_position(p);
        }
    }

    /// A tick advances each voice against its own pattern and changes
    /// neither which sequences play nor their order.
    pub proof fn lemma_tick(self, store: StoreView, router: RouterView)
        requires
            self.wf(),
            self.consistent(store),
        ensures
            self.tick(store, router).wf(),
            self.tick(store, router).consistent(store),
            self.tick(store, router).voices == self.ticked(store, router),
            forall|id: u64|
                #[trigger] self.tick(store, router).is_playing(id) == self.is_playing(id),
            forall|id: u64|
                self.is_playing(id) ==> #[trigger] self.tick(store, router).voice(id) == self.voice(
                    id,
                ).tick(store.pattern(id), router),
    {
        let t = TransportView { voices: self.ticked(store, router), shown_step: self.shown_step };
        t.lemma_refresh(store);
        assert forall|i: int| 0 <= i < self.voices.len() implies (#[trigger] t.voices[i]).id
            == self.voices[i].id by {}
        self.lemma_same_ids(t);
        assert forall|k: int| 0 <= k < t.voices.len() implies store.contains(
            (#[trigger] t.voices[k]).id,
        ) && t.voices[k].fits(store.pattern(t.voices[k].id).notes.len()) by {
            let v = self.voices[k];
            assert(store.contains(v.id));
            let len = store.pattern(v.id).notes.len();
            if len > 0 && v.started {
                assert((v.step + 1) % len < len) by (nonlinear_arith)
                    requires
                        len > 0,
                        v.step >= 0,
                ;
            }
        }
        assert forall|id: u64| self.is_playing(id) implies #[trigger] t.voice(id) == self.voice(
            id,
        ).tick(store.pattern(id), router) by {
            let k = self.position(id);
            assert(t.position(id) == k);
        }
    }
}

} // verus!
