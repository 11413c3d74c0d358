//! The ordered holding area for buffered readings, and the vocabulary used
//! to speak about a sequence of readings.

use crate::types::{SensorMessage, SensorType};
use std::collections::VecDeque;
use vstd::prelude::*;

verus! {

/// What one reading contributes to a tally for `key`: nothing if it is of
/// another sensor type, otherwise its sample count or, when slots are
/// counted, one.
pub open spec fn weight(m: SensorMessage, key: SensorType, by_samples: bool) -> nat {
    if m.sensor_type != key {
        0
    } else if by_samples {
        m.sample_count as nat
    } else {
        1
    }
}

/// The sum of `weight` over a sequence of readings.
pub open spec fn tally(s: Seq<SensorMessage>, key: SensorType, by_samples: bool) -> nat
    decreases s.len(),
{
    if s.len() == 0 {
        0
    } else {
        tally(s.drop_last(), key, by_samples) + weight(s.last(), key, by_samples)
    }
}

/// How many entries of `s` are of sensor type `key`.
pub open spec fn slots(s: Seq<SensorMessage>, key: SensorType) -> nat {
    tally(s, key, false)
}

/// How many raw samples the entries of `s` of sensor type `key` stand for.
pub open spec fn samples(s: Seq<SensorMessage>, key: SensorType) -> nat {
    tally(s, key, true)
}

/// Whether slot `i` of `s` holds a reading of type `key` and is not the
/// excluded slot.
pub open spec fn is_match(s: Seq<SensorMessage>, i: int, key: SensorType, skip: Option<int>) -> bool {
    &&& 0 <= i < s.len()
    &&& s[i].sensor_type == key
    &&& skip != Some(i)
}

/// The first slot at or after `from` that matches, if any.
pub open spec fn first_match_from(
    s: Seq<SensorMessage>,
    key: SensorType,
    skip: Option<int>,
    from: int,
) -> Option<int>
    decreases s.len() - from,
{
    if from < 0 || from >= s.len() {
        None
    } else if is_match(s, from, key, skip) {
        Some(from)
    } else {
        first_match_from(s, key, skip, from + 1)
    }
}

/// The first slot of `s` that holds a reading of type `key` and is not the
/// excluded slot.
pub open spec fn first_match(s: Seq<SensorMessage>, key: SensorType, skip: Option<int>) -> Option<
    int,
> {
    first_match_from(s, key, skip, 0)
}

/// The slot index behind an executable optional index.
pub open spec fn slot_of(index: Option<usize>) -> Option<int> {
    match index {
        Some(i) => Some(i as int),
        None => None,
    }
}

/// `first_match_from` finds the least matching slot at or after `from`, and
/// finds none only if there is none.
pub proof fn lemma_first_match_from(
    s: Seq<SensorMessage>,
    key: SensorType,
    skip: Option<int>,
    from: int,
)
    requires
        0 <= from,
    ensures
        match first_match_from(s, key, skip, from) {
            Some(i) => {
                &&& from <= i
                &&& is_match(s, i, key, skip)
                &&& forall|j: int| from <= j < i ==> !is_match(s, j, key, skip)
            },
            None => forall|j: int| from <= j ==> !is_match(s, j, key, skip),
        },
    decreases s.len() - from,
{
    if from < s.len() && !is_match(s, from, key, skip) {
        lemma_first_match_from(s, key, skip, from + 1);
    }
}

/// A slot that matches, with no matching slot before it, is the first
/// match.
pub proof fn lemma_first_match_is(s: Seq<SensorMessage>, key: SensorType, skip: Option<int>, i: int)
    requires
        is_match(s, i, key, skip),
        forall|j: int| 0 <= j < i ==> !is_match(s, j, key, skip),
    ensures
        first_match(s, key, skip) == Some(i),
{
    lemma_first_match_from(s, key, skip, 0);
}

/// Appending a reading leaves the first matching slot where it was; if
/// there was none, the appended slot is the first exactly when it matches.
pub proof fn lemma_first_match_push(
    s: Seq<SensorMessage>,
    m: SensorMessage,
    key: SensorType,
    skip: Option<int>,
)
    ensures
        first_match(s.push(m), key, skip) == match first_match(s, key, skip) {
            Some(i) => Some(i),
            None => if m.sensor_type == key && skip != Some(s.len() as int) {
                Some(s.len() as int)
            } else {
                None
            },
        },
{
    let t = s.push(m);
    lemma_first_match_from(s, key, skip, 0);
    lemma_first_match_from(t, key, skip, 0);
    match first_match(s, key, skip) {
        Some(i) => {
            assert(t[i] == s[i]);
            assert forall|j: int| 0 <= j < i implies !is_match(t, j, key, skip) by {
                assert(t[j] == s[j]);
                assert(!is_match(s, j, key, skip));
            }
            lemma_first_match_is(t, key, skip, i);
        },
        None => {
            assert forall|j: int| 0 <= j < s.len() implies !is_match(t, j, key, skip) by {
                assert(t[j] == s[j]);
                assert(!is_match(s, j, key, skip));
            }
            if m.sensor_type == key && skip != Some(s.len() as int) {
                lemma_first_match_is(t, key, skip, s.len() as int);
            } else {
                if let Some(k) = first_match(t, key, skip) {
                    assert(is_match(t, k, key, skip));
                    assert(false);
                }
            }
        },
    }
}

/// Removing a slot that holds another type moves the first slot of a type
/// down by one if it lay behind the removed slot, and not at all otherwise.
pub proof fn lemma_first_match_remove(s: Seq<SensorMessage>, i: int, key: SensorType)
    requires
        0 <= i < s.len(),
        s[i].sensor_type != key,
    ensures
        first_match(s.remove(i), key, None) == match first_match(s, key, None) {
            Some(f) => Some(
                if f > i {
                    f - 1
                } else {
                    f
                },
            ),
            None => None,
        },
{
    let t = s.remove(i);
    lemma_first_match_from(s, key, None, 0);
    lemma_first_match_from(t, key, None, 0);
    assert forall|j: int| 0 <= j < t.len() implies t[j] == s[if j < i {
        j
    } else {
        j + 1
    }] by {}
    match first_match(s, key, None) {
        Some(f) => {
            let g = if f > i {
                f - 1
            } else {
                f
            };
            assert(t[g] == s[f]);
            assert forall|j: int| 0 <= j < g implies !is_match(t, j, key, None) by {
                let j0 = if j < i {
                    j
                } else {
                    j + 1
                };
                assert(t[j] == s[j0]);
                assert(!is_match(s, j0, key, None));
            }
            lemma_first_match_is(t, key, None, g);
        },
        None => {
            if let Some(k) = first_match(t, key, None) {
                let k0 = if k < i {
                    k
                } else {
                    k + 1
                };
                assert(t[k] == s[k0]);
                assert(is_match(s, k0, key, None));
                assert(false);
            }
        },
    }
}

/// Overwriting a slot with a reading that is of type `key` exactly when the
/// old one was leaves the first slot of that type where it was.
pub proof fn lemma_first_match_update(s: Seq<SensorMessage>, i: int, m: SensorMessage, key: SensorType)
    requires
        0 <= i < s.len(),
        (s[i].sensor_type == key) == (m.sensor_type == key),
    ensures
        first_match(s.update(i, m), key, None) == first_match(s, key, None),
{
    let t = s.update(i, m);
    lemma_first_match_from(s, key, None, 0);
    lemma_first_match_from(t, key, None, 0);
    assert forall|j: int| is_match(t, j, key, None) == is_match(s, j, key, None) by {
        if 0 <= j < s.len() && j != i {
            assert(t[j] == s[j]);
        }
    }
    match first_match(s, key, None) {
        Some(f) => {
            assert(is_match(t, f, key, None));
            lemma_first_match_is(t, key, None, f);
        },
        None => {
            if let Some(k) = first_match(t, key, None) {
                assert(is_match(s, k, key, None));
                assert(false);
            }
        },
    }
}

/// Appending a reading adds its weight to the tally.
pub proof fn lemma_tally_push(s: Seq<SensorMessage>, m: SensorMessage, key: SensorType, by_samples: bool)
    ensures
        tally(s.push(m), key, by_samples) == tally(s, key, by_samples) + weight(m, key, by_samples),
{
    assert(s.push(m).drop_last() =~= s);
}

/// Removing a slot takes its weight from the tally.
pub proof fn lemma_tally_remove(s: Seq<SensorMessage>, i: int, key: SensorType, by_samples: bool)
    requires
        0 <= i < s.len(),
    ensures
        tally(s.remove(i), key, by_samples) + weight(s[i], key, by_samples) == tally(
            s,
            key,
            by_samples,
        ),
    decreases s.len(),
{
    if i == s.len() - 1 {
        assert(s.remove(i) =~= s.drop_last());
    } else {
        lemma_tally_remove(s.drop_last(), i, key, by_samples);
        assert(s.remove(i).drop_last() =~= s.drop_last().remove(i));
        assert(s.remove(i).last() == s.last());
    }
}

/// Overwriting a slot exchanges the old weight for the new one.
pub proof fn lemma_tally_update(
    s: Seq<SensorMessage>,
    i: int,
    m: SensorMessage,
    key: SensorType,
    by_samples: bool,
)
    requires
        0 <= i < s.len(),
    ensures
        tally(s.update(i, m), key, by_samples) + weight(s[i], key, by_samples) == tally(
            s,
            key,
            by_samples,
        ) + weight(m, key, by_samples),
    decreases s.len(),
{
    if i == s.len() - 1 {
        assert(s.update(i, m).drop_last() =~= s.drop_last());
    } else {
        lemma_tally_update(s.drop_last(), i, m, key, by_samples);
        assert(s.update(i, m).drop_last() =~= s.drop_last().update(i, m));
        assert(s.update(i, m).last() == s.last());
    }
}

/// Every slot's weight is part of the tally.
pub proof fn lemma_tally_covers(s: Seq<SensorMessage>, i: int, key: SensorType, by_samples: bool)
    requires
        0 <= i < s.len(),
    ensures
        weight(s[i], key, by_samples) <= tally(s, key, by_samples),
{
    lemma_tally_remove(s, i, key, by_samples);
}

/// Readings in arrival order; the front is the oldest one not yet
/// delivered. The store itself sets no bound on its length.
pub struct BufferStore {
    entries: VecDeque<SensorMessage>,
}

impl View for BufferStore {
    type V = Seq<SensorMessage>;

    closed spec fn view(&self) -> Seq<SensorMessage> {
        self.entries@
    }
}

impl BufferStore {
    pub fn new() -> (store: BufferStore)
        ensures
            store@ == Seq::<SensorMessage>::empty(),
    {
        BufferStore { entries: VecDeque::new() }
    }

    pub fn len(&self) -> (n: usize)
        ensures
            n == self@.len(),
    {
        self.entries.len()
    }

    /// The reading in slot `index`, if there is such a slot.
    pub fn get(&self, index: usize) -> (entry: Option<SensorMessage>)
        ensures
            entry == if index < self@.len() {
                Some(self@[index as int])
            } else {
                None::<SensorMessage>
            },
    {
        if index < self.entries.len() {
            Some(self.entries[index])
        } else {
            None
        }
    }

    /// Appends a reading and returns the slot it now occupies.
    pub fn push(&mut self, reading: SensorMessage) -> (index: usize)
        ensures
            final(self)@ == old(self)@.push(reading),
            index == old(self)@.len(),
    {
        let index: usize = self.entries.len();
        self.entries.push_back(reading);
        index
    }

    /// The oldest reading, left in place.
    pub fn front(&self) -> (entry: Option<SensorMessage>)
        ensures
            entry == if self@.len() > 0 {
                Some(self@[0])
            } else {
                None::<SensorMessage>
            },
    {
        self.get(0)
    }

    /// Removes and returns the oldest reading; `None`, and no change, on an
    /// empty store.
    pub fn pop_front(&mut self) -> (entry: Option<SensorMessage>)
        ensures
            old(self)@.len() == 0 ==> entry.is_none() && final(self)@ == old(self)@,
            old(self)@.len() > 0 ==> entry == Some(old(self)@[0]) && final(self)@ == old(
                self,
            )@.remove(0),
    {
        let entry = self.entries.pop_front();
        proof {
            if old(self)@.len() > 0 {
                assert(old(self)@.subrange(1, old(self)@.len() as int) =~= old(self)@.remove(0));
            }
        }
        entry
    }

    /// The first slot whose reading satisfies `predicate`, by a scan from
    /// the front that stops at the first match.
    pub fn position_of<F: Fn(&SensorMessage) -> bool>(&self, predicate: F) -> (found: Option<usize>)
        requires
            forall|i: int| 0 <= i < self@.len() ==> call_requires(predicate, (&#[trigger] self@[i],)),
        ensures
            match found {
                Some(i) => {
                    &&& i < self@.len()
                    &&& call_ensures(predicate, (&self@[i as int],), true)
                    &&& forall|j: int|
                        0 <= j < i ==> call_ensures(predicate, (&#[trigger] self@[j],), false)
                },
                None => forall|j: int|
                    0 <= j < self@.len() ==> call_ensures(predicate, (&#[trigger] self@[j],), false),
            },
    {
        let n: usize = self.entries.len();
        let mut i: usize = 0;
        while i < n
            invariant
                i <= n,
                n == self@.len(),
                self@ == self.entries@,
                forall|k: int| 0 <= k < self@.len() ==> call_requires(predicate, (&#[trigger] self@[k],)),
                forall|j: int| 0 <= j < i ==> call_ensures(predicate, (&#[trigger] self@[j],), false),
            decreases n - i,
        {
            if predicate(&self.entries[i]) {
                return Some(i);
            }
            i += 1;
        }
        None
    }

    /// The first slot that holds a reading of type `key` and is not `skip`.
    pub fn position_of_type(&self, key: SensorType, skip: Option<usize>) -> (found: Option<usize>)
        ensures
            slot_of(found) == first_match(self@, key, slot_of(skip)),
            match found {
                Some(i) => {
                    &&& is_match(self@, i as int, key, slot_of(skip))
                    &&& forall|j: int| 0 <= j < i ==> !is_match(self@, j, key, slot_of(skip))
                },
                None => forall|j: int| !is_match(self@, j, key, slot_of(skip)),
            },
    {
        let n: usize = self.entries.len();
        let mut i: usize = 0;
        proof {
            lemma_first_match_from(self@, key, slot_of(skip), 0);
        }
        while i < n
            invariant
                i <= n,
                n == self@.len(),
                self@ == self.entries@,
                match first_match(self@, key, slot_of(skip)) {
                    Some(k) => {
                        &&& is_match(self@, k, key, slot_of(skip))
                        &&& forall|j: int| 0 <= j < k ==> !is_match(self@, j, key, slot_of(skip))
                    },
                    None => forall|j: int| 0 <= j ==> !is_match(self@, j, key, slot_of(skip)),
                },
                first_match_from(self@, key, slot_of(skip), i as int) == first_match(
                    self@,
                    key,
                    slot_of(skip),
                ),
            decreases n - i,
        {
            let entry = self.entries[i];
            let excluded = match skip {
                Some(k) => k == i,
                None => false,
            };
            if entry.sensor_type == key && !excluded {
                return Some(i);
            }
            i += 1;
        }
        None
    }

    /// Overwrites the reading in slot `index`.
    pub fn replace_at(&mut self, index: usize, reading: SensorMessage)
        requires
            index < old(self)@.len(),
        ensures
            final(self)@ == old(self)@.update(index as int, reading),
    {
        let _ = self.entries.remove(index);
        self.entries.insert(index, reading);
        assert(self.entries@ =~= old(self)@.update(index as int, reading));
    }

    /// Removes and returns the reading in slot `index`, closing the gap;
    /// `None`, and no change, if there is no such slot.
    pub fn remove_at(&mut self, index: usize) -> (entry: Option<SensorMessage>)
        ensures
            index >= old(self)@.len() ==> entry.is_none() && final(self)@ == old(self)@,
            index < old(self)@.len() ==> entry == Some(old(self)@[index as int]) && final(self)@
                == old(self)@.remove(index as int),
    {
        self.entries.remove(index)
    }

    /// The sum of the sample counts of the entries of type `key`.
    pub fn sample_total(&self, key: SensorType) -> (total: u128)
        ensures
            total == samples(self@, key),
    {
        let n: usize = self.entries.len();
        let mut total: u128 = 0;
        let mut i: usize = 0;
        while i < n
            invariant
                i <= n,
                n == self@.len(),
                self@ == self.entries@,
                total == samples(self@.take(i as int), key),
                total <= i * 0x1_0000_0000,
            decreases n - i,
        {
            let entry = self.entries[i];
            proof {
                assert(self@.take(i as int + 1) =~= self@.take(i as int).push(self@[i as int]));
                lemma_tally_push(self@.take(i as int), self@[i as int], key, true);
            }
            if entry.sensor_type == key {
                total = total + entry.sample_count as u128;
            }
            i += 1;
        }
        assert(self@.take(n as int) =~= self@);
        total
    }
}

} // verus!
