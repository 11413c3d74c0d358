//! Per-type bookkeeping over the store: counts what is outstanding, and
//! folds the two oldest entries of a type together when that type reaches
//! its limit.

use crate::model::{
    compacted, lemma_acknowledge_wf, lemma_compacted_first_match, lemma_ingest_wf, merge_fits,
    stamped, BufferModel, IngestOutcome,
};
use crate::store::{
    first_match, is_match, lemma_first_match_from, lemma_first_match_is, lemma_first_match_push,
    lemma_first_match_remove, slot_of, BufferStore,
};
use crate::types::{Mergeable, SensorMessage, SensorType, Sequenced};
use vstd::prelude::*;

verus! {

/// The bookkeeping for one known sensor type.
#[derive(Clone, Copy)]
struct BufferSizeLimit {
    size_limit: usize,
    count: usize,
    oldest_index: Option<usize>,
}

/// The store together with the bookkeeping for every known sensor type
/// and the counter that numbers ingested readings.
pub struct OverflowController {
    buffer: BufferStore,
    temperature: Option<BufferSizeLimit>,
    humidity: Option<BufferSizeLimit>,
    co2: Option<BufferSizeLimit>,
    sequence: u64,
}

/// An empty buffer that tracks the given sensor types, each with the same
/// limit.
pub open spec fn fresh_model(limit: nat, known: Set<SensorType>) -> BufferModel {
    BufferModel {
        entries: Seq::empty(),
        limits: Map::new(|k: SensorType| known.contains(k), |k: SensorType| limit),
        counts: Map::new(|k: SensorType| known.contains(k), |k: SensorType| 0nat),
        next_sequence: 0,
    }
}

/// A slot index after the slot `removed` has left the store: one less if
/// it lay behind that slot.
spec fn shifted_slot(index: Option<usize>, removed: usize) -> Option<usize> {
    match index {
        Some(i) => Some(
            if i > removed {
                (i - 1) as usize
            } else {
                i
            },
        ),
        None => None,
    }
}

/// The bookkeeping of a type none of whose entries was removed, after the
/// slot `removed` has left the store.
spec fn shifted_state(state: Option<BufferSizeLimit>, removed: usize) -> Option<BufferSizeLimit> {
    match state {
        Some(st) => Some(
            BufferSizeLimit {
                size_limit: st.size_limit,
                count: st.count,
                oldest_index: shifted_slot(st.oldest_index, removed),
            },
        ),
        None => None,
    }
}

fn shifted(state: Option<BufferSizeLimit>, removed: usize) -> (after: Option<BufferSizeLimit>)
    ensures
        after == shifted_state(state, removed),
{
    match state {
        Some(st) => {
            let oldest_index = match st.oldest_index {
                Some(i) => Some(
                    if i > removed {
                        i - 1
                    } else {
                        i
                    },
                ),
                None => None,
            };
            Some(BufferSizeLimit { size_limit: st.size_limit, count: st.count, oldest_index })
        },
        None => None,
    }
}

impl View for OverflowController {
    type V = BufferModel;

    closed spec fn view(&self) -> BufferModel {
        BufferModel {
            entries: self.buffer@,
            limits: Map::new(
                |k: SensorType| self.slot(k).is_some(),
                |k: SensorType| self.slot(k).unwrap().size_limit as nat,
            ),
            counts: Map::new(
                |k: SensorType| self.slot(k).is_some(),
                |k: SensorType| self.slot(k).unwrap().count as nat,
            ),
            next_sequence: self.sequence as nat,
        }
    }
}

impl OverflowController {
    spec fn slot(&self, key: SensorType) -> Option<BufferSizeLimit> {
        match key {
            SensorType::Temperature => self.temperature,
            SensorType::Humidity => self.humidity,
            SensorType::CO2 => self.co2,
        }
    }

    /// The model is well-formed and each known type's remembered oldest
    /// slot is the first slot that holds an entry of that type.
    pub closed spec fn wf(&self) -> bool {
        &&& self@.wf()
        &&& forall|key: SensorType|
            (#[trigger] self.slot(key)) matches Some(state) ==> slot_of(state.oldest_index)
                == first_match(self.buffer@, key, None)
    }

    /// The slot remembered as holding the oldest entry of type `key`.
    pub closed spec fn oldest_slot(&self, key: SensorType) -> Option<usize> {
        match self.slot(key) {
            Some(state) => state.oldest_index,
            None => None,
        }
    }

    /// What well-formedness means to a caller.
    pub proof fn lemma_wf(&self)
        requires
            self.wf(),
        ensures
            self@.wf(),
            forall|key: SensorType|
                self@.tracks(key) ==> slot_of(#[trigger] self.oldest_slot(key)) == first_match(
                    self@.entries,
                    key,
                    None,
                ),
    {
        assert forall|key: SensorType| self@.tracks(key) implies slot_of(
            #[trigger] self.oldest_slot(key),
        ) == first_match(self@.entries, key, None) by {
            assert(self.slot(key).is_some());
        }
    }

    fn state_of(&self, key: SensorType) -> (state: Option<BufferSizeLimit>)
        ensures
            state == self.slot(key),
    {
        match key {
            SensorType::Temperature => self.temperature,
            SensorType::Humidity => self.humidity,
            SensorType::CO2 => self.co2,
        }
    }

    fn set_state(&mut self, key: SensorType, state: BufferSizeLimit)
        ensures
            final(self).slot(key) == Some(state),
            forall|k: SensorType| k != key ==> final(self).slot(k) == old(self).slot(k),
            final(self).buffer == old(self).buffer,
            final(self).sequence == old(self).sequence,
    {
        match key {
            SensorType::Temperature => {
                self.temperature = Some(state);
            },
            SensorType::Humidity => {
                self.humidity = Some(state);
            },
            SensorType::CO2 => {
                self.co2 = Some(state);
            },
        }
    }

    /// Moves the remembered oldest slot of every sensor type but `key` down
    /// by one where it lay behind the slot `removed`, whose entry, of type
    /// `key`, has left the store.
    fn shift_others(&mut self, key: SensorType, removed: usize)
        ensures
            final(self).buffer == old(self).buffer,
            final(self).sequence == old(self).sequence,
            final(self).slot(key) == old(self).slot(key),
            forall|k: SensorType|
                k != key ==> #[trigger] final(self).slot(k) == shifted_state(
                    old(self).slot(k),
                    removed,
                ),
    {
        if key != SensorType::Temperature {
            self.temperature = shifted(self.temperature, removed);
        }
        if key != SensorType::Humidity {
            self.humidity = shifted(self.humidity, removed);
        }
        if key != SensorType::CO2 {
            self.co2 = shifted(self.co2, removed);
        }
    }

    /// An empty controller that tracks the sensor types in `known`, each
    /// with the limit `size_limit_per_type`.
    pub fn new(size_limit_per_type: usize, known: &Vec<SensorType>) -> (controller: OverflowController)
        requires
            size_limit_per_type >= 2,
        ensures
            controller.wf(),
            controller@ == fresh_model(size_limit_per_type as nat, known@.to_set()),
    {
        let mut controller = OverflowController {
            buffer: BufferStore::new(),
            temperature: None,
            humidity: None,
            co2: None,
            sequence: 0,
        };
        let fresh = BufferSizeLimit { size_limit: size_limit_per_type, count: 0, oldest_index: None };
        let mut i: usize = 0;
        while i < known.len()
            invariant
                i <= known.len(),
                controller.buffer@ == Seq::<SensorMessage>::empty(),
                controller.sequence == 0,
                fresh == (BufferSizeLimit {
                    size_limit: size_limit_per_type,
                    count: 0,
                    oldest_index: None,
                }),
                forall|k: SensorType|
                    match #[trigger] controller.slot(k) {
                        Some(state) => state == fresh && known@.take(i as int).contains(k),
                        None => !known@.take(i as int).contains(k),
                    },
            decreases known.len() - i,
        {
            let key = known[i];
            let ghost before = controller;
            controller.set_state(key, fresh);
            proof {
                let shorter = known@.take(i as int);
                let longer = known@.take(i as int + 1);
                assert(longer =~= shorter.push(key));
                assert forall|k: SensorType|
                    match #[trigger] controller.slot(k) {
                        Some(state) => state == fresh && longer.contains(k),
                        None => !longer.contains(k),
                    } by {
                    if k == key {
                        assert(longer[i as int] == key);
                    } else {
                        assert(controller.slot(k) == before.slot(k));
                        if shorter.contains(k) {
                            let j = choose|j: int| 0 <= j < shorter.len() && shorter[j] == k;
                            assert(longer[j] == k);
                        }
                        if longer.contains(k) {
                            let j = choose|j: int| 0 <= j < longer.len() && longer[j] == k;
                            assert(shorter[j] == k);
                        }
                    }
                }
            }
            i += 1;
        }
        proof {
            assert(known@.take(i as int) =~= known@);
            let model = fresh_model(size_limit_per_type as nat, known@.to_set());
            assert forall|k: SensorType| controller.slot(k).is_some() == known@.to_set().contains(
                k,
            ) by {
                assert(known@.to_set().contains(k) == known@.contains(k));
            }
            assert(controller@.limits =~= model.limits);
            assert(controller@.counts =~= model.counts);
            assert forall|key: SensorType| (#[trigger] controller.slot(key)).is_some() implies slot_of(
                controller.slot(key).unwrap().oldest_index,
            ) == first_match(controller.buffer@, key, None) by {
                assert(controller.slot(key).unwrap() == fresh);
            }
        }
        controller
    }

    /// Whether readings of type `key` are buffered rather than dropped.
    pub fn is_tracked(&self, key: SensorType) -> (known: bool)
        ensures
            known == self@.tracks(key),
    {
        self.state_of(key).is_some()
    }

    /// The limit of a known sensor type.
    pub fn limit(&self, key: SensorType) -> (limit: Option<usize>)
        ensures
            limit.is_some() == self@.tracks(key),
            self@.tracks(key) ==> limit == Some(self@.limits[key] as usize) && limit.unwrap()
                == self@.limits[key],
    {
        match self.state_of(key) {
            Some(state) => Some(state.size_limit),
            None => None,
        }
    }

    /// The outstanding count of a known sensor type.
    pub fn outstanding_count(&self, key: SensorType) -> (count: Option<usize>)
        ensures
            count.is_some() == self@.tracks(key),
            self@.tracks(key) ==> count.unwrap() == self@.counts[key],
    {
        match self.state_of(key) {
            Some(state) => Some(state.count),
            None => None,
        }
    }

    /// The slot of the oldest buffered entry of type `key`.
    pub fn oldest_index(&self, key: SensorType) -> (index: Option<usize>)
        requires
            self.wf(),
        ensures
            index == self.oldest_slot(key),
            self@.tracks(key) ==> slot_of(index) == first_match(self@.entries, key, None),
            !self@.tracks(key) ==> index.is_none(),
    {
        match self.state_of(key) {
            Some(state) => state.oldest_index,
            None => None,
        }
    }

    /// The sequence number that the next ingested reading gets.
    pub fn next_sequence(&self) -> (next: u64)
        ensures
            next == self@.next_sequence,
    {
        self.sequence
    }

    /// The number of buffered entries.
    pub fn len(&self) -> (n: usize)
        ensures
            n == self@.entries.len(),
    {
        self.buffer.len()
    }

    /// The entry in slot `index`, if there is such a slot.
    pub fn entry(&self, index: usize) -> (entry: Option<SensorMessage>)
        ensures
            entry == if index < self@.entries.len() {
                Some(self@.entries[index as int])
            } else {
                None::<SensorMessage>
            },
    {
        self.buffer.get(index)
    }

    /// The oldest entry, left in place.
    pub fn front(&self) -> (entry: Option<SensorMessage>)
        ensures
            entry == self@.front(),
    {
        self.buffer.front()
    }

    /// Whether the machine's integers leave room to ingest `reading`.
    pub fn has_headroom(&self, reading: &SensorMessage) -> (room: bool)
        requires
            self.wf(),
        ensures
            room == self@.has_headroom(*reading),
    {
        let key = reading.sensor_type;
        let state = match self.state_of(key) {
            None => {
                return true;
            },
            Some(state) => state,
        };
        if self.sequence == u64::MAX || state.count == usize::MAX {
            return false;
        }
        let ghost entry = stamped(*reading, self@.next_sequence);
        let ghost appended = self.buffer@.push(entry);
        proof {
            lemma_first_match_push(self.buffer@, entry, key, None);
        }
        if state.count + 1 < state.size_limit {
            return true;
        }
        let oldest = match state.oldest_index {
            None => {
                proof {
                    lemma_first_match_push(self.buffer@, entry, key, Some(self.buffer@.len() as int));
                    lemma_first_match_from(self.buffer@, key, None, 0);
                    lemma_first_match_from(self.buffer@, key, Some(self.buffer@.len() as int), 0);
                    if let Some(i) = first_match(
                        self.buffer@,
                        key,
                        Some(self.buffer@.len() as int),
                    ) {
                        assert(is_match(self.buffer@, i, key, None));
                    }
                }
                return true;
            },
            Some(oldest) => oldest,
        };
        proof {
            lemma_first_match_from(self.buffer@, key, None, 0);
            lemma_first_match_push(self.buffer@, entry, key, Some(oldest as int));
        }
        let older = self.buffer.get(oldest).unwrap();
        let newer = match self.buffer.position_of_type(key, Some(oldest)) {
            Some(next) => self.buffer.get(next).unwrap(),
            None => *reading,
        };
        older.sample_count as u64 + newer.sample_count as u64 <= 0xffff_ffff
    }

    /// Takes a reading in: numbers it, appends it and counts it; if its
    /// type thereby reaches its limit and two entries of that type are
    /// buffered, folds the oldest into the next. A reading of an untracked
    /// type is dropped and nothing changes.
    pub fn ingest(&mut self, reading: SensorMessage) -> (outcome: IngestOutcome)
        requires
            old(self).wf(),
            reading.wf(),
            old(self)@.has_headroom(reading),
        ensures
            final(self).wf(),
            final(self)@ == old(self)@.ingest(reading),
            outcome == old(self)@.ingest_outcome(reading),
    {
        let key = reading.sensor_type;
        let state = match self.state_of(key) {
            None => {
                return IngestOutcome::Rejected;
            },
            Some(state) => state,
        };
        proof {
            lemma_ingest_wf(old(self)@, reading);
        }
        let mut entry = reading;
        entry.set_sequence_number(self.sequence);
        assert(entry == stamped(reading, old(self)@.next_sequence));
        self.sequence = self.sequence + 1;
        let index = self.buffer.push(entry);
        let count: usize = state.count + 1;
        let oldest: usize = match state.oldest_index {
            Some(i) => i,
            None => index,
        };
        let ghost appended = self.buffer@;
        proof {
            lemma_first_match_from(old(self).buffer@, key, None, 0);
            assert(slot_of(state.oldest_index) == first_match(old(self).buffer@, key, None));
            assert(is_match(appended, oldest as int, key, None));
            assert forall|j: int| 0 <= j < oldest implies !is_match(appended, j, key, None) by {
                assert(appended[j] == old(self).buffer@[j]);
                assert(!is_match(old(self).buffer@, j, key, None));
            }
            lemma_first_match_is(appended, key, None, oldest as int);
        }
        proof {
            assert forall|k: SensorType| k != key implies first_match(appended, k, None)
                == first_match(old(self).buffer@, k, None) by {
                lemma_first_match_push(old(self).buffer@, entry, k, None);
            }
        }
        if count >= state.size_limit {
            match self.buffer.position_of_type(key, Some(oldest)) {
                Some(next) => {
                    proof {
                        assert(is_match(appended, next as int, key, None));
                        assert(oldest < next);
                        assert forall|i: int| 0 <= i < appended.len() implies (
                        #[trigger] appended[i]).wf() by {
                            if i < old(self).buffer@.len() {
                                assert(appended[i] == old(self)@.entries[i]);
                            }
                        }
                        assert(old(self)@.reaches_limit(key));
                        assert(merge_fits(appended, key));
                    }
                    let older = self.buffer.get(oldest).unwrap();
                    let newer = self.buffer.get(next).unwrap();
                    let merged = older.merge(&newer);
                    let _ = self.buffer.remove_at(oldest);
                    self.buffer.replace_at(next - 1, merged);
                    self.set_state(
                        key,
                        BufferSizeLimit {
                            size_limit: state.size_limit,
                            count,
                            oldest_index: Some(next - 1),
                        },
                    );
                    let ghost before_shift = *self;
                    self.shift_others(key, oldest);
                    proof {
                        let target = old(self)@.ingest(reading);
                        lemma_compacted_first_match(appended, key, oldest as int, next as int, key);
                        assert(self.buffer@ == compacted(appended, key));
                        assert(self@.entries == target.entries);
                        assert(self@.limits =~= target.limits);
                        assert(self@.counts =~= target.counts);
                        assert forall|k: SensorType| (#[trigger] self.slot(k)).is_some() implies slot_of(
                            self.slot(k).unwrap().oldest_index,
                        ) == first_match(self.buffer@, k, None) by {
                            lemma_compacted_first_match(appended, key, oldest as int, next as int, k);
                            if k != key {
                                assert(self.slot(k) == shifted_state(before_shift.slot(k), oldest));
                                assert(before_shift.slot(k) == old(self).slot(k));
                                assert(old(self).slot(k).is_some());
                            }
                        }
                    }
                    return IngestOutcome::Merged;
                },
                None => {},
            }
        }
        self.set_state(
            key,
            BufferSizeLimit { size_limit: state.size_limit, count, oldest_index: Some(oldest) },
        );
        proof {
            let target = old(self)@.ingest(reading);
            assert(self@.limits =~= target.limits);
            assert(self@.counts =~= target.counts);
            assert(self@.entries == target.entries);
            assert forall|k: SensorType| (#[trigger] self.slot(k)).is_some() implies slot_of(
                self.slot(k).unwrap().oldest_index,
            ) == first_match(self.buffer@, k, None) by {
                if k != key {
                    assert(self.slot(k) == old(self).slot(k));
                }
            }
        }
        IngestOutcome::Buffered
    }

    /// Removes the front entry after its delivery was confirmed, takes one
    /// from the outstanding count of its type, and returns it; on an empty
    /// buffer nothing changes.
    pub fn acknowledge(&mut self) -> (delivered: Option<SensorMessage>)
        requires
            old(self).wf(),
        ensures
            final(self).wf(),
            final(self)@ == old(self)@.acknowledge(),
            delivered == old(self)@.front(),
    {
        proof {
            lemma_acknowledge_wf(old(self)@);
        }
        match self.buffer.pop_front() {
            None => {
                proof {
                    assert(self@.limits =~= old(self)@.limits);
                    assert(self@.counts =~= old(self)@.counts);
                    assert forall|key: SensorType| #[trigger] self.slot(key) == old(self).slot(key) by {}
                }
                None
            },
            Some(entry) => {
                let key = entry.sensor_type;
                proof {
                    assert(old(self)@.tracks(old(self)@.entries[0].sensor_type));
                }
                let oldest_index = self.buffer.position_of_type(key, None);
                match self.state_of(key) {
                    Some(state) => {
                        self.set_state(
                            key,
                            BufferSizeLimit {
                                size_limit: state.size_limit,
                                count: state.count - 1,
                                oldest_index,
                            },
                        );
                    },
                    None => {},
                }
                self.shift_others(key, 0);
                proof {
                    let target = old(self)@.acknowledge();
                    assert(old(self).slot(key).is_some());
                    assert(self@.limits =~= target.limits);
                    assert(self@.counts =~= target.counts);
                    assert(self@.entries == target.entries);
                    assert forall|k: SensorType| (#[trigger] self.slot(k)).is_some() implies slot_of(
                        self.slot(k).unwrap().oldest_index,
                    ) == first_match(self.buffer@, k, None) by {
                        if k != key {
                            assert(old(self).slot(k).is_some());
                            lemma_first_match_remove(old(self).buffer@, 0, k);
                        }
                    }
                }
                Some(entry)
            },
        }
    }
}

} // verus!
