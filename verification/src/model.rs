//! The buffer as a mathematical value: what ingestion, compaction and
//! acknowledgment do to it, and the laws that follow.

use crate::store::{
    first_match, is_match, lemma_first_match_from, lemma_first_match_is, lemma_first_match_remove,
    lemma_first_match_update, lemma_tally_covers,
    lemma_tally_push, lemma_tally_remove, lemma_tally_update, samples, slots, weight,
};
use crate::types::{lemma_merge_conserves_and_bounds, Mergeable, SensorMessage, SensorType};
use vstd::prelude::*;

verus! {

/// `reading` with the sequence number that ingestion assigns to it.
pub open spec fn stamped(reading: SensorMessage, sequence_number: nat) -> SensorMessage {
    SensorMessage { sequence_number: sequence_number as u64, ..reading }
}

/// Whether `s` holds two entries of type `key`, so that its oldest can be
/// folded into the next.
pub open spec fn merge_possible(s: Seq<SensorMessage>, key: SensorType) -> bool {
    match first_match(s, key, None) {
        None => false,
        Some(oldest) => first_match(s, key, Some(oldest)).is_some(),
    }
}

/// Whether the sample counts of the two entries that a compaction for
/// `key` would merge add up within 32 bits; true where it would merge
/// nothing.
pub open spec fn merge_fits(s: Seq<SensorMessage>, key: SensorType) -> bool {
    match first_match(s, key, None) {
        None => true,
        Some(oldest) => match first_match(s, key, Some(oldest)) {
            None => true,
            Some(next) => s[oldest].sample_count + s[next].sample_count <= u32::MAX,
        },
    }
}

/// `s` after its oldest entry of type `key` has been folded into the next
/// entry of that type: the older slot is removed and the merged reading
/// stands where the newer one stood. Without a second entry of that type
/// `s` stays as it is.
pub open spec fn compacted(s: Seq<SensorMessage>, key: SensorType) -> Seq<SensorMessage> {
    match first_match(s, key, None) {
        None => s,
        Some(oldest) => match first_match(s, key, Some(oldest)) {
            None => s,
            Some(next) => s.remove(oldest).update(next - 1, s[oldest].merged_with(&s[next])),
        },
    }
}

/// What happened to a reading offered for ingestion.
#[derive(Clone, Copy, Debug, PartialEq, Eq, Structural)]
pub enum IngestOutcome {
    /// The reading's sensor type is not tracked: it was dropped.
    Rejected,
    /// The reading was appended.
    Buffered,
    /// The reading was appended and the two oldest entries of its type were
    /// merged.
    Merged,
}

/// What the transport reported about one delivery attempt.
#[derive(Clone, Copy, Debug, PartialEq, Eq, Structural)]
pub enum Delivery {
    /// The reading could not be handed to the transport.
    SendFailed,
    /// The transport confirmed the reading.
    Confirmed,
    /// The transport took the reading and reported that it was not accepted.
    Refused,
}

/// The buffer's contents and bookkeeping.
pub struct BufferModel {
    /// The buffered readings, oldest first.
    pub entries: Seq<SensorMessage>,
    /// The limit of each tracked sensor type; its domain is the set of
    /// tracked types.
    pub limits: Map<SensorType, nat>,
    /// For each tracked sensor type, the readings ingested and not yet
    /// acknowledged, a merged entry counting once when it leaves.
    pub counts: Map<SensorType, nat>,
    /// The sequence number that the next ingested reading gets.
    pub next_sequence: nat,
}

impl BufferModel {
    /// Whether readings of type `key` are buffered rather than dropped.
    pub open spec fn tracks(self, key: SensorType) -> bool {
        self.limits.contains_key(key)
    }

    /// Every tracked type has a limit of at least two and an outstanding
    /// count that covers its buffered entries; every buffered entry stands
    /// for at least one sample and is of a tracked type.
    pub open spec fn wf(self) -> bool {
        &&& self.next_sequence <= u64::MAX
        &&& forall|key: SensorType| #[trigger]
            self.counts.contains_key(key) <==> self.limits.contains_key(key)
        &&& forall|key: SensorType| #[trigger]
            self.limits.contains_key(key) ==> {
                &&& 2 <= self.limits[key] <= usize::MAX
                &&& slots(self.entries, key) <= self.counts[key] <= usize::MAX
            }
        &&& forall|i: int|
            0 <= i < self.entries.len() ==> (#[trigger] self.entries[i]).wf() && self.tracks(
                self.entries[i].sensor_type,
            )
    }

    /// The oldest entry, if any.
    pub open spec fn front(self) -> Option<SensorMessage> {
        if self.entries.len() > 0 {
            Some(self.entries[0])
        } else {
            None
        }
    }

    /// Whether the machine's integers leave room to ingest `reading`: the
    /// sequence counter and the outstanding count can go up by one, and a
    /// merge that the reading sets off yields a sample count within 32 bits.
    pub open spec fn has_headroom(self, reading: SensorMessage) -> bool {
        let key = reading.sensor_type;
        self.tracks(key) ==> {
            &&& self.next_sequence < u64::MAX
            &&& self.counts[key] < usize::MAX
            &&& self.reaches_limit(key) ==> merge_fits(
                self.entries.push(stamped(reading, self.next_sequence)),
                key,
            )
        }
    }

    /// Whether ingesting a reading of type `key` brings that type to its
    /// limit.
    pub open spec fn reaches_limit(self, key: SensorType) -> bool {
        self.counts[key] + 1 >= self.limits[key]
    }

    /// The buffer after `reading` was offered to it.
    pub open spec fn ingest(self, reading: SensorMessage) -> Self {
        let key = reading.sensor_type;
        if !self.tracks(key) {
            self
        } else {
            let appended = self.entries.push(stamped(reading, self.next_sequence));
            BufferModel {
                entries: if self.reaches_limit(key) {
                    compacted(appended, key)
                } else {
                    appended
                },
                counts: self.counts.insert(key, self.counts[key] + 1),
                next_sequence: self.next_sequence + 1,
                ..self
            }
        }
    }

    /// What `ingest` reports for `reading`.
    pub open spec fn ingest_outcome(self, reading: SensorMessage) -> IngestOutcome {
        let key = reading.sensor_type;
        if !self.tracks(key) {
            IngestOutcome::Rejected
        } else if self.reaches_limit(key) && merge_possible(
            self.entries.push(stamped(reading, self.next_sequence)),
            key,
        ) {
            IngestOutcome::Merged
        } else {
            IngestOutcome::Buffered
        }
    }

    /// The buffer after its front entry was positively acknowledged.
    pub open spec fn acknowledge(self) -> Self {
        if self.entries.len() == 0 {
            self
        } else {
            let key = self.entries[0].sensor_type;
            BufferModel {
                entries: self.entries.remove(0),
                counts: self.counts.insert(key, (self.counts[key] - 1) as nat),
                ..self
            }
        }
    }

    /// The buffer after the transport reported on the front entry.
    pub open spec fn resolve(self, outcome: Delivery) -> Self {
        match outcome {
            Delivery::Confirmed => self.acknowledge(),
            Delivery::SendFailed => self,
            Delivery::Refused => self,
        }
    }

    /// The buffer after a run of reports, each on the entry then at the
    /// front.
    pub open spec fn resolve_all(self, outcomes: Seq<Delivery>) -> Self
        decreases outcomes.len(),
    {
        if outcomes.len() == 0 {
            self
        } else {
            self.resolve_all(outcomes.drop_last()).resolve(outcomes.last())
        }
    }

    /// The buffer after `n` positive acknowledgments in a row.
    pub open spec fn acknowledge_times(self, n: nat) -> Self
        decreases n,
    {
        if n == 0 {
            self
        } else {
            self.acknowledge_times((n - 1) as nat).acknowledge()
        }
    }

    /// The entries that `n` positive acknowledgments in a row deliver, in
    /// the order in which they leave.
    pub open spec fn delivered(self, n: nat) -> Seq<SensorMessage> {
        Seq::new(n, |i: int| self.acknowledge_times(i as nat).entries[0])
    }

    /// The buffer after a run of readings was offered to it in order.
    pub open spec fn ingest_all(self, readings: Seq<SensorMessage>) -> Self
        decreases readings.len(),
    {
        if readings.len() == 0 {
            self
        } else {
            self.ingest_all(readings.drop_last()).ingest(readings.last())
        }
    }
}

/// The readings of `readings` in order, numbered from `first` on.
pub open spec fn stamped_run(readings: Seq<SensorMessage>, first: nat) -> Seq<SensorMessage> {
    Seq::new(readings.len(), |i: int| stamped(readings[i], (first + i) as nat))
}

/// Compaction for `key` leaves every type's sample total as it was, frees
/// at most slots, and keeps every entry well-formed and tracked.
pub proof fn lemma_compacted(
    s: Seq<SensorMessage>,
    key: SensorType,
    k: SensorType,
    limits: Map<SensorType, nat>,
)
    requires
        forall|i: int| 0 <= i < s.len() ==> (#[trigger] s[i]).wf() && limits.contains_key(s[i].sensor_type),
        merge_fits(s, key),
    ensures
        samples(compacted(s, key), k) == samples(s, k),
        slots(compacted(s, key), k) <= slots(s, k),
        merge_possible(s, key) ==> slots(compacted(s, key), key) + 1 == slots(s, key),
        merge_possible(s, key) ==> compacted(s, key).len() + 1 == s.len(),
        !merge_possible(s, key) ==> compacted(s, key) == s,
        forall|i: int|
            0 <= i < compacted(s, key).len() ==> (#[trigger] compacted(s, key)[i]).wf()
                && limits.contains_key(compacted(s, key)[i].sensor_type),
{
    lemma_first_match_from(s, key, None, 0);
    if let Some(oldest) = first_match(s, key, None) {
        lemma_first_match_from(s, key, Some(oldest), 0);
        if let Some(next) = first_match(s, key, Some(oldest)) {
            assert(is_match(s, next, key, None));
            assert(oldest < next);
            let a = s[oldest];
            let b = s[next];
            assert(a.mergeable_with(&b));
            lemma_merge_conserves_and_bounds(a, b);
            let m = a.merged_with(&b);
            let removed = s.remove(oldest);
            let result = removed.update(next - 1, m);
            assert(removed[next - 1] == b);
            assert(result == compacted(s, key));
            lemma_tally_remove(s, oldest, k, true);
            lemma_tally_update(removed, next - 1, m, k, true);
            lemma_tally_remove(s, oldest, k, false);
            lemma_tally_update(removed, next - 1, m, k, false);
            lemma_tally_remove(s, oldest, key, false);
            lemma_tally_update(removed, next - 1, m, key, false);
            assert forall|i: int| 0 <= i < result.len() implies (#[trigger] result[i]).wf()
                && limits.contains_key(result[i].sensor_type) by {
                if i == next - 1 {
                } else if i < oldest {
                    assert(result[i] == s[i]);
                } else {
                    assert(result[i] == s[i + 1]);
                }
            }
        }
    }
}

/// A slot index after the slot `removed` has gone: one less if it lay
/// behind that slot.
pub open spec fn shifted_past(index: Option<int>, removed: int) -> Option<int> {
    match index {
        Some(i) => Some(
            if i > removed {
                i - 1
            } else {
                i
            },
        ),
        None => None,
    }
}

/// Where the oldest entry of each type stands after a compaction for
/// `key`: for `key` itself in the slot of the merged reading, for any
/// other type where it stood, moved down past the removed slot.
pub proof fn lemma_compacted_first_match(
    s: Seq<SensorMessage>,
    key: SensorType,
    oldest: int,
    next: int,
    k: SensorType,
)
    requires
        first_match(s, key, None) == Some(oldest),
        first_match(s, key, Some(oldest)) == Some(next),
    ensures
        oldest < next < s.len(),
        compacted(s, key) == s.remove(oldest).update(next - 1, s[oldest].merged_with(&s[next])),
        first_match(compacted(s, key), k, None) == if k == key {
            Some(next - 1)
        } else {
            shifted_past(first_match(s, k, None), oldest)
        },
{
    lemma_first_match_from(s, key, None, 0);
    lemma_first_match_from(s, key, Some(oldest), 0);
    assert(is_match(s, next, key, None));
    let merged = s[oldest].merged_with(&s[next]);
    let removed = s.remove(oldest);
    let result = removed.update(next - 1, merged);
    assert(removed[next - 1] == s[next]);
    if k == key {
        assert forall|j: int| 0 <= j < next - 1 implies !is_match(result, j, key, None) by {
            if j < oldest {
                assert(result[j] == s[j]);
                assert(!is_match(s, j, key, None));
            } else {
                assert(result[j] == s[j + 1]);
                assert(!is_match(s, j + 1, key, Some(oldest)));
            }
        }
        lemma_first_match_is(result, key, None, next - 1);
    } else {
        lemma_first_match_remove(s, oldest, k);
        lemma_first_match_update(removed, next - 1, merged, k);
    }
}

/// Ingestion keeps the buffer well-formed.
pub proof fn lemma_ingest_wf(m: BufferModel, reading: SensorMessage)
    requires
        m.wf(),
        reading.wf(),
        m.has_headroom(reading),
    ensures
        m.ingest(reading).wf(),
{
    let key = reading.sensor_type;
    if m.tracks(key) {
        let r = stamped(reading, m.next_sequence);
        let appended = m.entries.push(r);
        let after = m.ingest(reading);
        assert forall|i: int| 0 <= i < appended.len() implies (#[trigger] appended[i]).wf()
            && m.limits.contains_key(appended[i].sensor_type) by {
            if i < m.entries.len() {
                assert(appended[i] == m.entries[i]);
            }
        }
        if m.reaches_limit(key) {
            lemma_compacted(appended, key, key, m.limits);
        }
        assert forall|k: SensorType| #[trigger] after.limits.contains_key(k) implies {
            &&& 2 <= after.limits[k] <= usize::MAX
            &&& slots(after.entries, k) <= after.counts[k] <= usize::MAX
        } by {
            assert(m.limits.contains_key(k));
            lemma_tally_push(m.entries, r, k, false);
            if m.reaches_limit(key) {
                lemma_compacted(appended, key, k, m.limits);
            }
        }
        assert forall|k: SensorType| #[trigger]
            after.counts.contains_key(k) <==> after.limits.contains_key(k) by {
            assert(m.counts.contains_key(k) <==> m.limits.contains_key(k));
        }
    }
}

/// Samples are conserved: ingesting a reading of a tracked type adds
/// exactly its sample count to that type's total, merge or no merge, and
/// leaves every other type's total alone.
pub proof fn lemma_ingest_conserves_samples(m: BufferModel, reading: SensorMessage, k: SensorType)
    requires
        m.wf(),
        reading.wf(),
        m.has_headroom(reading),
    ensures
        samples(m.ingest(reading).entries, k) == samples(m.entries, k) + if m.tracks(
            reading.sensor_type,
        ) {
            weight(reading, k, true)
        } else {
            0
        },
{
    let key = reading.sensor_type;
    if m.tracks(key) {
        let r = stamped(reading, m.next_sequence);
        let appended = m.entries.push(r);
        lemma_tally_push(m.entries, r, k, true);
        assert forall|i: int| 0 <= i < appended.len() implies (#[trigger] appended[i]).wf()
            && m.limits.contains_key(appended[i].sensor_type) by {
            if i < m.entries.len() {
                assert(appended[i] == m.entries[i]);
            }
        }
        if m.reaches_limit(key) {
            lemma_compacted(appended, key, k, m.limits);
        }
    }
}

/// Acknowledgment keeps the buffer well-formed and removes exactly the
/// front entry's samples.
pub proof fn lemma_acknowledge_wf(m: BufferModel)
    requires
        m.wf(),
    ensures
        m.acknowledge().wf(),
        m.entries.len() > 0 ==> m.counts[m.entries[0].sensor_type] >= 1,
        forall|k: SensorType|
            m.entries.len() > 0 ==> #[trigger] samples(m.acknowledge().entries, k) + weight(
                m.entries[0],
                k,
                true,
            ) == samples(m.entries, k),
{
    if m.entries.len() > 0 {
        let key = m.entries[0].sensor_type;
        let after = m.acknowledge();
        assert(m.tracks(key));
        lemma_tally_covers(m.entries, 0, key, false);
        assert forall|k: SensorType| #[trigger] after.limits.contains_key(k) implies {
            &&& 2 <= after.limits[k] <= usize::MAX
            &&& slots(after.entries, k) <= after.counts[k] <= usize::MAX
        } by {
            assert(m.limits.contains_key(k));
            lemma_tally_remove(m.entries, 0, k, false);
        }
        assert forall|k: SensorType| #[trigger]
            after.counts.contains_key(k) <==> after.limits.contains_key(k) by {
            assert(m.counts.contains_key(k) <==> m.limits.contains_key(k));
        }
        assert forall|i: int| 0 <= i < after.entries.len() implies (#[trigger] after.entries[i]).wf()
            && after.tracks(after.entries[i].sensor_type) by {
            assert(after.entries[i] == m.entries[i + 1]);
        }
        assert forall|k: SensorType|
            #[trigger] samples(after.entries, k) + weight(m.entries[0], k, true) == samples(
                m.entries,
                k,
            ) by {
            lemma_tally_remove(m.entries, 0, k, true);
        }
    }
}

/// Without a merge the buffer is first in, first out: while every tracked
/// type stays below its limit, the buffer holds exactly the readings
/// offered, in the order offered, numbered consecutively, behind what it
/// held before.
pub proof fn lemma_fifo_below_limit(m: BufferModel, readings: Seq<SensorMessage>)
    requires
        forall|i: int| 0 <= i < readings.len() ==> m.tracks((#[trigger] readings[i]).sensor_type),
        forall|key: SensorType| #[trigger]
            m.tracks(key) ==> m.counts.contains_key(key) && m.counts[key] + slots(readings, key)
                < m.limits[key],
    ensures
        m.ingest_all(readings).entries == m.entries + stamped_run(readings, m.next_sequence),
        m.ingest_all(readings).next_sequence == m.next_sequence + readings.len(),
        m.ingest_all(readings).limits == m.limits,
        forall|key: SensorType| #[trigger]
            m.tracks(key) ==> m.ingest_all(readings).counts.contains_key(key) && m.ingest_all(
                readings,
            ).counts[key] == m.counts[key] + slots(readings, key),
    decreases readings.len(),
{
    if readings.len() == 0 {
        assert(m.entries + stamped_run(readings, m.next_sequence) =~= m.entries);
    } else {
        let init = readings.drop_last();
        let last = readings.last();
        let key = last.sensor_type;
        let before = m.ingest_all(init);
        assert forall|k: SensorType| #[trigger] m.tracks(k) implies m.counts.contains_key(k)
            && m.counts[k] + slots(init, k) < m.limits[k] by {
            assert(slots(init, k) <= slots(readings, k));
        }
        assert forall|i: int| 0 <= i < init.len() implies m.tracks((#[trigger] init[i]).sensor_type) by {
            assert(init[i] == readings[i]);
        }
        lemma_fifo_below_limit(m, init);
        assert(m.tracks(key));
        assert(before.tracks(key));
        assert(slots(readings, key) == slots(init, key) + 1);
        assert(!before.reaches_limit(key));
        let after = before.ingest(last);
        assert(after.entries =~= m.entries + stamped_run(readings, m.next_sequence));
        assert forall|k: SensorType| #[trigger] m.tracks(k) implies after.counts.contains_key(k)
            && after.counts[k] == m.counts[k] + slots(readings, k) by {
            assert(slots(readings, k) == slots(init, k) + weight(last, k, false));
        }
    }
}

/// Acknowledgments deliver from the front: `n` of them in a row deliver
/// the first `n` entries in buffer order and leave the rest.
pub proof fn lemma_delivered_in_buffer_order(m: BufferModel, n: nat)
    requires
        n <= m.entries.len(),
    ensures
        m.acknowledge_times(n).entries == m.entries.skip(n as int),
        m.delivered(n) == m.entries.take(n as int),
    decreases n,
{
    if n == 0 {
        assert(m.entries.skip(0) =~= m.entries);
    } else {
        lemma_delivered_in_buffer_order(m, (n - 1) as nat);
        let before = m.acknowledge_times((n - 1) as nat);
        assert(before.entries.len() > 0);
        assert(before.entries.remove(0) =~= m.entries.skip(n as int));
    }
    assert forall|i: int| 0 <= i < n implies m.delivered(n)[i] == m.entries.take(n as int)[i] by {
        lemma_delivered_in_buffer_order(m, i as nat);
    }
    assert(m.delivered(n) =~= m.entries.take(n as int));
}

/// Pop order is push order: readings offered to an empty buffer whose
/// sensor types all stay below their limits are delivered, numbered
/// consecutively, in exactly the order in which they were offered.
pub proof fn lemma_pop_order_is_push_order(m: BufferModel, readings: Seq<SensorMessage>)
    requires
        m.entries.len() == 0,
        forall|i: int| 0 <= i < readings.len() ==> m.tracks((#[trigger] readings[i]).sensor_type),
        forall|key: SensorType| #[trigger]
            m.tracks(key) ==> m.counts.contains_key(key) && m.counts[key] + slots(readings, key)
                < m.limits[key],
    ensures
        m.ingest_all(readings).delivered(readings.len()) == stamped_run(
            readings,
            m.next_sequence,
        ),
        m.ingest_all(readings).acknowledge_times(readings.len()).entries.len() == 0,
{
    lemma_fifo_below_limit(m, readings);
    let filled = m.ingest_all(readings);
    let run = stamped_run(readings, m.next_sequence);
    assert(filled.entries =~= run);
    lemma_delivered_in_buffer_order(filled, readings.len());
    assert(run.take(readings.len() as int) =~= run);
}

/// Retries change nothing: after any run of failed sends and refusals the
/// buffer, and so its front entry, is what it was.
pub proof fn lemma_unconfirmed_changes_nothing(m: BufferModel, outcomes: Seq<Delivery>)
    requires
        forall|i: int| 0 <= i < outcomes.len() ==> outcomes[i] != Delivery::Confirmed,
    ensures
        m.resolve_all(outcomes) == m,
    decreases outcomes.len(),
{
    if outcomes.len() > 0 {
        lemma_unconfirmed_changes_nothing(m, outcomes.drop_last());
    }
}

/// An entry leaves exactly when it is confirmed: however many failed sends
/// and refusals come first, the confirmation that follows them removes the
/// entry that was at the front all along, and nothing else.
pub proof fn lemma_confirmed_after_retries(m: BufferModel, retries: Seq<Delivery>)
    requires
        forall|i: int| 0 <= i < retries.len() ==> retries[i] != Delivery::Confirmed,
    ensures
        m.resolve_all(retries).front() == m.front(),
        m.resolve_all(retries.push(Delivery::Confirmed)) == m.acknowledge(),
{
    lemma_unconfirmed_changes_nothing(m, retries);
    assert(retries.push(Delivery::Confirmed).drop_last() =~= retries);
}

} // verus!
