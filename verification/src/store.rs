//! The pattern store: the sequences of a project under stable ids.

use vstd::prelude::*;
use crate::error::{outcome, SequencerError};
use crate::note::{is_valid_slot, slot_in_range, Slot};
use crate::sequence::{binding_view, Destination, MidiOut, Pattern, Sequence};

verus! {

impl Pattern {
    /// This pattern with the slot at `index` replaced.
    pub open spec fn with_slot(self, index: int, slot: Slot) -> Pattern {
        Pattern { notes: self.notes.update(index, slot), ..self }
    }

    /// This pattern under another name.
    pub open spec fn with_name(self, name: Seq<char>) -> Pattern {
        Pattern { name, ..self }
    }

    /// This pattern with another output binding.
    pub open spec fn with_output(self, output: Option<Destination>) -> Pattern {
        Pattern { output, ..self }
    }
}

/// A pattern store as a mathematical value: the ids in creation order, the
/// pattern of each, and the id that the next created sequence gets.
pub struct StoreView {
    pub ids: Seq<u64>,
    pub patterns: Seq<Pattern>,
    pub next_id: nat,
}

impl StoreView {
    /// The store without sequences that has handed out no id yet.
    pub open spec fn empty() -> StoreView {
        StoreView { ids: Seq::empty(), patterns: Seq::empty(), next_id: 0 }
    }

    /// Ids ascend strictly and lie below the next id, so none occurs twice
    /// and none is handed out again; every stored note is in range.
    pub open spec fn wf(self) -> bool {
        &&& self.ids.len() == self.patterns.len()
        &&& self.next_id <= u64::MAX
        &&& forall|i: int, j: int| 0 <= i < j < self.ids.len() ==> self.ids[i] < self.ids[j]
        &&& forall|i: int| 0 <= i < self.ids.len() ==> (#[trigger] self.ids[i]) < self.next_id
        &&& forall|i: int| 0 <= i < self.patterns.len() ==> (#[trigger] self.patterns[i]).in_range()
    }

    /// Whether a sequence has this id.
    pub open spec fn contains(self, id: u64) -> bool {
        exists|k: int| 0 <= k < self.ids.len() && self.ids[k] == id
    }

    /// Where the sequence with this id stands.
    pub open spec fn position(self, id: u64) -> int {
        choose|k: int| 0 <= k < self.ids.len() && self.ids[k] == id
    }

    /// The pattern of the sequence with this id.
    pub open spec fn pattern(self, id: u64) -> Pattern {
        self.patterns[self.position(id)]
    }

    /// Whether another sequence can be created.
    pub open spec fn has_room(self) -> bool {
        self.next_id < u64::MAX
    }

    /// The store with `pattern` appended under the next id.
    pub open spec fn insert(self, pattern: Pattern) -> StoreView {
        StoreView {
            ids: self.ids.push(self.next_id as u64),
            patterns: self.patterns.push(pattern),
            next_id: self.next_id + 1,
        }
    }

    /// The store without the sequence `id`; itself where there is none.
    pub open spec fn remove(self, id: u64) -> StoreView {
        if self.contains(id) {
            StoreView {
                ids: self.ids.remove(self.position(id)),
                patterns: self.patterns.remove(self.position(id)),
                next_id: self.next_id,
            }
        } else {
            self
        }
    }

    /// The store with the pattern of `id` replaced; itself where there is none.
    pub open spec fn replace(self, id: u64, pattern: Pattern) -> StoreView {
        if self.contains(id) {
            StoreView { patterns: self.patterns.update(self.position(id), pattern), ..self }
        } else {
            self
        }
    }

    /// Why a lookup of `id` fails, if it does.
    pub open spec fn lookup_failure(self, id: u64) -> Option<SequencerError> {
        if self.contains(id) {
            None
        } else {
            Some(SequencerError::NotFound)
        }
    }

    /// Why a read of step `index` of `id` fails, if it does.
    pub open spec fn step_failure(self, id: u64, index: int) -> Option<SequencerError> {
        if !self.contains(id) {
            Some(SequencerError::NotFound)
        } else if !(0 <= index < self.pattern(id).notes.len()) {
            Some(SequencerError::OutOfRange)
        } else {
            None
        }
    }

    /// Why writing `slot` to step `index` of `id` fails, if it does.
    pub open spec fn set_step_failure(self, id: u64, index: int, slot: Slot) -> Option<
        SequencerError,
    > {
        if self.step_failure(id, index) is Some {
            self.step_failure(id, index)
        } else if !slot_in_range(slot) {
            Some(SequencerError::InvalidNote)
        } else {
            None
        }
    }

    /// The store after `slot` is written to step `index` of `id`: unchanged
    /// where the write is rejected.
    pub open spec fn set_step(self, id: u64, index: int, slot: Slot) -> StoreView {
        if self.set_step_failure(id, index, slot) is None {
            self.replace(id, self.pattern(id).with_slot(index, slot))
        } else {
            self
        }
    }

    /// The store after `id` is renamed.
    pub open spec fn rename(self, id: u64, name: Seq<char>) -> StoreView {
        self.replace(id, self.pattern(id).with_name(name))
    }

    /// The store after the output of `id` is bound anew.
    pub open spec fn set_output(self, id: u64, output: Option<Destination>) -> StoreView {
        self.replace(id, self.pattern(id).with_output(output))
    }

    /// Ids occur once: the sequence at index `k` is the one found under its id.
    pub proof fn lemma_position(self, k: int)
        requires
            self.wf(),
            0 <= k < self.ids.len(),
        ensures
            self.contains(self.ids[k]),
            self.position(self.ids[k]) == k,
            self.pattern(self.ids[k]) == self.patterns[k],
    {
        let p = self.position(self.ids[k]);
        assert(0 <= p < self.ids.len() && self.ids[p] == self.ids[k]);
        if p < k {
            assert(self.ids[p] < self.ids[k]);
        } else if k < p {
            assert(self.ids[k] < self.ids[p]);
        }
    }

    /// Replacing the pattern of `id` keeps the ids and every other pattern.
    pub proof fn lemma_replace(self, id: u64, pattern: Pattern)
        requires
            self.wf(),
            self.contains(id),
            pattern.in_range(),
        ensures
            self.replace(id, pattern).wf(),
            self.replace(id, pattern).ids == self.ids,
            self.replace(id, pattern).next_id == self.next_id,
            self.replace(id, pattern).pattern(id) == pattern,
            forall|other: u64|
                other != id && self.contains(other) ==> #[trigger] self.replace(id, pattern).pattern(
                    other,
                ) == self.pattern(other),
    {
        let after = self.replace(id, pattern);
        let k = self.position(id);
        assert(after.ids == self.ids);
        assert forall|i: int| 0 <= i < after.patterns.len() implies (
        #[trigger] after.patterns[i]).in_range() by {
            if i != k {
                assert(after.patterns[i] == self.patterns[i]);
            }
        }
        assert forall|other: u64| other != id && self.contains(other) implies #[trigger] after.pattern(
            other,
        ) == self.pattern(other) by {
            assert(after.position(other) == self.position(other));
        }
    }

    /// Appending a pattern keeps every sequence there was and adds one under
    /// the next id.
    pub proof fn lemma_insert(self, pattern: Pattern)
        requires
            self.wf(),
            self.has_room(),
            pattern.in_range(),
        ensures
            self.insert(pattern).wf(),
            !self.contains(self.next_id as u64),
            self.insert(pattern).contains(self.next_id as u64),
            self.insert(pattern).pattern(self.next_id as u64) == pattern,
            forall|other: u64|
                self.contains(other) ==> #[trigger] self.insert(pattern).contains(other)
                    && self.insert(pattern).pattern(other) == self.pattern(other),
            forall|other: u64|
                #[trigger] self.insert(pattern).contains(other) ==> other == self.next_id
                    || self.contains(other),
    {
        let after = self.insert(pattern);
        let n = self.ids.len() as int;
        assert(after.ids[n] == self.next_id as u64);
        assert forall|i: int, j: int| 0 <= i < j < after.ids.len() implies after.ids[i]
            < after.ids[j] by {
            if j == n {
                assert(after.ids[i] == self.ids[i]);
            } else {
                assert(after.ids[i] == self.ids[i] && after.ids[j] == self.ids[j]);
            }
        }
        assert forall|i: int| 0 <= i < after.ids.len() implies (#[trigger] after.ids[i])
            < after.next_id by {
            if i < n {
                assert(after.ids[i] == self.ids[i]);
            }
        }
        assert forall|i: int| 0 <= i < after.patterns.len() implies (
        #[trigger] after.patterns[i]).in_range() by {
            if i < n {
                assert(after.patterns[i] == self.patterns[i]);
            }
        }
        if self.contains(self.next_id as u64) {
            let k = self.position(self.next_id as u64);
            assert(self.ids[k] < self.next_id);
        }
        after.lemma_position(n);
        assert forall|other: u64| self.contains(other) implies #[trigger] after.contains(other)
            && after.pattern(other) == self.pattern(other) by {
            let k = self.position(other);
            assert(after.ids[k] == other);
            after.lemma_position(k);
        }
        assert forall|other: u64| #[trigger] after.contains(other) implies other == self.next_id
            || self.contains(other) by {
            let k = after.position(other);
            if k < n {
                assert(self.ids[k] == other);
            }
        }
    }

    /// Removing `id` keeps every other sequence.
    pub proof fn lemma_remove(self, id: u64)
        requires
            self.wf(),
            self.contains(id),
        ensures
            self.remove(id).wf(),
            !self.remove(id).contains(id),
            forall|other: u64|
                other != id && self.contains(other) ==> #[trigger] self.remove(id).contains(other)
                    && self.remove(id).pattern(other) == self.pattern(other),
            forall|other: u64| #[trigger] self.remove(id).contains(other) ==> self.contains(other),
    {
        let after = self.remove(id);
        let k = self.position(id);
        assert forall|i: int| 0 <= i < after.ids.len() implies after.ids[i] == self.ids[if i < k {
            i
        } else {
            i + 1
        }] && after.patterns[i] == self.patterns[if i < k {
            i
        } else {
            i + 1
        }] by {}
        assert forall|i: int, j: int| 0 <= i < j < after.ids.len() implies after.ids[i]
            < after.ids[j] by {
            let a = if i < k { i } else { i + 1 };
            let b = if j < k { j } else { j + 1 };
            assert(self.ids[a] < self.ids[b]);
        }
        assert forall|i: int| 0 <= i < after.ids.len() implies (#[trigger] after.ids[i])
            < after.next_id by {
            let a = if i < k { i } else { i + 1 };
            assert(self.ids[a] < self.next_id);
        }
        assert forall|i: int| 0 <= i < after.patterns.len() implies (
        #[trigger] after.patterns[i]).in_range() by {
            let a = if i < k { i } else { i + 1 };
            assert(self.patterns[a].in_range());
        }
        if after.contains(id) {
            let j = after.position(id);
            let a = if j < k { j } else { j + 1 };
            assert(self.ids[a] == id);
            self.lemma_position(a);
        }
        assert forall|other: u64| other != id && self.contains(other) implies #[trigger] after.contains(
            other,
        ) && after.pattern(other) == self.pattern(other) by {
            let a = self.position(other);
            let j = if a < k { a } else { a - 1 };
            assert(after.ids[j] == other);
            after.lemma_position(j);
        }
        assert forall|other: u64| #[trigger] after.contains(other) implies self.contains(other) by {
            let j = after.position(other);
            let a = if j < k { j } else { j + 1 };
            assert(self.ids[a] == other);
        }
    }

    /// A sequence that the store contains stands at its position.
    pub proof fn lemma_contains(self, id: u64)
        requires
            self.contains(id),
        ensures
            0 <= self.position(id) < self.ids.len(),
            self.ids[self.position(id)] == id,
    {
    }
}

/// The patterns that a row of sequences stands for.
pub open spec fn patterns_of(sequences: Seq<Sequence>) -> Seq<Pattern> {
    Seq::new(sequences.len(), |i: int| sequences[i]@)
}

/// The sequences of a project, each under an id that is assigned at creation
/// and never used again.
#[derive(Debug)]
pub struct PatternStore {
    ids: Vec<u64>,
    sequences: Vec<Sequence>,
    next_id: u64,
}

impl View for PatternStore {
    type V = StoreView;

    closed spec fn view(&self) -> StoreView {
        StoreView {
            ids: self.ids@,
            patterns: patterns_of(self.sequences@),
            next_id: self.next_id as nat,
        }
    }
}

impl PatternStore {
    /// The invariant of the store.
    pub open spec fn wf(&self) -> bool {
        self@.wf()
    }

    /// A store without sequences.
    pub fn new() -> (store: Self)
        ensures
            store.wf(),
            store@ == StoreView::empty(),
    {
        let store = PatternStore { ids: Vec::new(), sequences: Vec::new(), next_id: 0 };
        assert(store@.patterns =~= Seq::empty());
        store
    }

    /// The number of sequences.
    pub fn len(&self) -> (n: usize)
        ensures
            n == self@.ids.len(),
    {
        self.ids.len()
    }

    /// The id that the next created sequence gets.
    pub fn next_id(&self) -> (id: u64)
        ensures
            id == self@.next_id,
    {
        self.next_id
    }

    /// The ids in creation order, which is ascending order.
    pub fn ids(&self) -> (ids: &Vec<u64>)
        ensures
            ids@ == self@.ids,
    {
        &self.ids
    }

    /// The sequences in creation order, for display.
    pub fn sequences(&self) -> (sequences: &Vec<Sequence>)
        ensures
            patterns_of(sequences@) == self@.patterns,
    {
        &self.sequences
    }

    /// Where the sequence `id` stands, if there is one.
    pub fn find(&self, id: u64) -> (found: Option<usize>)
        requires
            self.wf(),
        ensures
            found is Some <==> self@.contains(id),
            found is Some ==> found->0 == self@.position(id),
    {
        let mut low: usize = 0;
        let mut high: usize = self.ids.len();
        while low < high
            invariant
                self.wf(),
                low <= high <= self.ids@.len(),
                forall|k: int| 0 <= k < low ==> self.ids@[k] < id,
                forall|k: int| high <= k < self.ids@.len() ==> self.ids@[k] > id,
            decreases high - low,
        {
            let mid: usize = low + (high - low) / 2;
            let here: u64 = self.ids[mid];
            if here == id {
                proof {
                    self@.lemma_position(mid as int);
                }
                return Some(mid);
            } else if here < id {
                low = mid + 1;
            } else {
                high = mid;
            }
        }
        None
    }

    /// Whether a sequence has this id.
    pub fn contains(&self, id: u64) -> (found: bool)
        requires
            self.wf(),
        ensures
            found == self@.contains(id),
    {
        self.find(id).is_some()
    }

    /// The sequence `id`, if there is one.
    pub fn get(&self, id: u64) -> (found: Option<&Sequence>)
        requires
            self.wf(),
        ensures
            found is Some <==> self@.contains(id),
            found is Some ==> found->0@ == self@.pattern(id),
    {
        match self.find(id) {
            Some(k) => Some(&self.sequences[k]),
            None => None,
        }
    }

    /// Appends a sequence of sixteen empty steps called `name`, bound to no
    /// output, and returns its id.
    pub fn create_sequence(&mut self, name: String) -> (id: u64)
        requires
            old(self).wf(),
            old(self)@.has_room(),
        ensures
            final(self).wf(),
            id == old(self)@.next_id,
            final(self)@ == old(self)@.insert(Pattern::fresh(name@, 16)),
    {
        let id = self.next_id;
        let seq = Sequence::new(name);
        assert(seq@.in_range());
        self.ids.push(id);
        self.sequences.push(seq);
        self.next_id = id + 1;
        assert(self@.patterns =~= old(self)@.patterns.push(seq@));
        id
    }

    /// Appends a given sequence and returns its id; a sequence that holds a
    /// note out of range is rejected and the store stays as it is.
    pub fn insert_sequence(&mut self, seq: Sequence) -> (result: Result<u64, SequencerError>)
        requires
            old(self).wf(),
            old(self)@.has_room(),
        ensures
            final(self).wf(),
            seq@.in_range() ==> result == Ok::<u64, SequencerError>(old(self)@.next_id as u64)
                && final(self)@ == old(self)@.insert(seq@),
            !seq@.in_range() ==> result == Err::<u64, SequencerError>(SequencerError::InvalidNote)
                && final(self)@ == old(self)@,
    {
        if !seq.is_in_range() {
            return Err(SequencerError::InvalidNote);
        }
        let id = self.next_id;
        let ghost pattern = seq@;
        self.ids.push(id);
        self.sequences.push(seq);
        self.next_id = id + 1;
        assert(self@.patterns =~= old(self)@.patterns.push(pattern));
        Ok(id)
    }

    /// Removes the sequence `id`.
    pub fn delete_sequence(&mut self, id: u64) -> (result: Result<(), SequencerError>)
        requires
            old(self).wf(),
        ensures
            final(self).wf(),
            result == outcome(old(self)@.lookup_failure(id)),
            final(self)@ == old(self)@.remove(id),
            !final(self)@.contains(id),
    {
        match self.find(id) {
            Some(k) => {
                self.ids.remove(k);
                self.sequences.remove(k);
                assert(self@.patterns =~= old(self)@.patterns.remove(k as int));
                proof {
                    if self@.contains(id) {
                        let j = self@.position(id);
                        assert(self@.ids[j] == id);
                        if j < k {
                            assert(old(self)@.ids[j] == id);
                        } else {
                            assert(old(self)@.ids[j + 1] == id);
                        }
                    }
                }
                Ok(())
            },
            None => Err(SequencerError::NotFound),
        }
    }

    /// Reads the slot at step `index` of the sequence `id`.
    pub fn get_step(&self, id: u64, index: usize) -> (result: Result<Slot, SequencerError>)
        requires
            self.wf(),
        ensures
            match self@.step_failure(id, index as int) {
                Some(e) => result == Err::<Slot, SequencerError>(e),
                None => result == Ok::<Slot, SequencerError>(self@.pattern(id).notes[index as int]),
            },
    {
        match self.find(id) {
            Some(k) => {
                if index < self.sequences[k].notes.len() {
                    Ok(self.sequences[k].notes[index])
                } else {
                    Err(SequencerError::OutOfRange)
                }
            },
            None => Err(SequencerError::NotFound),
        }
    }

    /// Replaces the slot at step `index` of the sequence `id`. A rejected
    /// write leaves the store as it is.
    pub fn set_step(&mut self, id: u64, index: usize, slot: Slot) -> (result: Result<
        (),
        SequencerError,
    >)
        requires
            old(self).wf(),
        ensures
            final(self).wf(),
            result == outcome(old(self)@.set_step_failure(id, index as int, slot)),
            final(self)@ == old(self)@.set_step(id, index as int, slot),
    {
        match self.find(id) {
            Some(k) => {
                if index >= self.sequences[k].notes.len() {
                    return Err(SequencerError::OutOfRange);
                }
                if !is_valid_slot(slot) {
                    return Err(SequencerError::InvalidNote);
                }
                let ghost before = self.sequences@[k as int]@;
                self.sequences[k].notes[index] = slot;
                assert(self.sequences@[k as int]@ == before.with_slot(index as int, slot));
                assert(self@.patterns =~= old(self)@.patterns.update(
                    k as int,
                    before.with_slot(index as int, slot),
                ));
                assert(before.with_slot(index as int, slot).in_range()) by {
                    assert(old(self)@.patterns[k as int] == before);
                }
                Ok(())
            },
            None => Err(SequencerError::NotFound),
        }
    }

    /// Gives the sequence `id` another name.
    pub fn rename(&mut self, id: u64, name: String) -> (result: Result<(), SequencerError>)
        requires
            old(self).wf(),
        ensures
            final(self).wf(),
            result == outcome(old(self)@.lookup_failure(id)),
            final(self)@ == old(self)@.rename(id, name@),
    {
        match self.find(id) {
            Some(k) => {
                let ghost before = self.sequences@[k as int]@;
                self.sequences[k].name = name;
                assert(self@.patterns =~= old(self)@.patterns.update(
                    k as int,
                    before.with_name(name@),
                ));
                assert(before.with_name(name@).in_range()) by {
                    assert(old(self)@.patterns[k as int] == before);
                }
                Ok(())
            },
            None => Err(SequencerError::NotFound),
        }
    }

    /// Binds the sequence `id` to an output, or with `None` to the default.
    pub fn set_output(&mut self, id: u64, output: Option<MidiOut>) -> (result: Result<
        (),
        SequencerError,
    >)
        requires
            old(self).wf(),
        ensures
            final(self).wf(),
            result == outcome(old(self)@.lookup_failure(id)),
            final(self)@ == old(self)@.set_output(id, binding_view(output)),
    {
        match self.find(id) {
            Some(k) => {
                let ghost before = self.sequences@[k as int]@;
                self.sequences[k].midi_out = output;
                assert(self@.patterns =~= old(self)@.patterns.update(
                    k as int,
                    before.with_output(binding_view(output)),
                ));
                assert(before.with_output(binding_view(output)).in_range()) by {
                    assert(old(self)@.patterns[k as int] == before);
                }
                Ok(())
            },
            None => Err(SequencerError::NotFound),
        }
    }
}

} // verus!
