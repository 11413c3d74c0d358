//! The delivery coordinator: one step of receiving, one of choosing what to
//! send, one of settling the transport's answer. The caller does the
//! waiting and the sending; the coordinator decides.

use crate::model::{BufferModel, Delivery, IngestOutcome};
use crate::overflow::{fresh_model, OverflowController};
use crate::store::{first_match, slot_of};
use crate::types::{SensorMessage, SensorType};
use std::time::Duration;
use vstd::prelude::*;

verus! {

/// Where the coordinator stands in its cycle.
#[derive(Clone, Copy, Debug, PartialEq, Eq, Structural)]
pub enum Phase {
    /// Waiting for the next arrival on the ingest channel.
    Idle,
    /// The arrival has been dealt with; the front entry is to be looked at.
    Ingesting,
    /// The front entry is with the transport; its answer is awaited.
    Delivering,
    /// The ingest channel is gone. Nothing more is received or sent.
    Closed,
}

/// What a bounded wait on the ingest channel produced.
#[derive(Clone, Copy, Debug, PartialEq, Eq, Structural)]
pub enum Arrival {
    /// A producer sent a reading.
    Reading(SensorMessage),
    /// The wait ran out with nothing received.
    TimedOut,
    /// Every producer is gone.
    Disconnected,
}

/// The bounded, merging buffer with its delivery cycle.
pub struct Buffer {
    controller: OverflowController,
    timeout: Duration,
    phase: Phase,
}

impl View for Buffer {
    type V = BufferModel;

    closed spec fn view(&self) -> BufferModel {
        self.controller@
    }
}

impl Buffer {
    /// The phase the coordinator is in.
    pub closed spec fn phase_of(&self) -> Phase {
        self.phase
    }

    /// The bound on each wait for an arrival.
    pub closed spec fn timeout_of(&self) -> Duration {
        self.timeout
    }

    /// The slot remembered as holding the oldest entry of type `key`.
    pub closed spec fn oldest_slot(&self, key: SensorType) -> Option<usize> {
        self.controller.oldest_slot(key)
    }

    /// The bookkeeping is consistent, and while a delivery is under way the
    /// entry being delivered is at the front.
    pub closed spec fn wf(&self) -> bool {
        &&& self.controller.wf()
        &&& self.phase == Phase::Delivering ==> self.controller@.entries.len() > 0
    }

    /// What well-formedness means to a caller.
    pub proof fn lemma_wf(&self)
        requires
            self.wf(),
        ensures
            self@.wf(),
            self.phase_of() == Phase::Delivering ==> self@.entries.len() > 0,
            forall|key: SensorType|
                self@.tracks(key) ==> slot_of(#[trigger] self.oldest_slot(key)) == first_match(
                    self@.entries,
                    key,
                    None,
                ),
    {
        self.controller.lemma_wf();
    }

    /// An empty, idle buffer that tracks every sensor type with the same
    /// limit.
    pub fn new(size_limit_per_type: usize, timeout: Duration) -> (buffer: Buffer)
        requires
            size_limit_per_type >= 2,
        ensures
            buffer.wf(),
            buffer@ == fresh_model(size_limit_per_type as nat, Set::full()),
            buffer.phase_of() == Phase::Idle,
            buffer.timeout_of() == timeout,
    {
        let mut known: Vec<SensorType> = Vec::new();
        known.push(SensorType::Temperature);
        known.push(SensorType::Humidity);
        known.push(SensorType::CO2);
        proof {
            assert forall|k: SensorType| known@.to_set().contains(k) by {
                match k {
                    SensorType::Temperature => {
                        assert(known@[0] == k);
                    },
                    SensorType::Humidity => {
                        assert(known@[1] == k);
                    },
                    SensorType::CO2 => {
                        assert(known@[2] == k);
                    },
                }
                assert(known@.contains(k));
            }
            assert(known@.to_set() =~= Set::<SensorType>::full());
        }
        Buffer::with_sensor_types(size_limit_per_type, timeout, &known)
    }

    /// As `new`, but refuses a limit under two, with which no merge could
    /// ever take place.
    pub fn try_new(size_limit_per_type: usize, timeout: Duration) -> (buffer: Option<Buffer>)
        ensures
            buffer.is_some() <==> size_limit_per_type >= 2,
            buffer matches Some(b) ==> {
                &&& b.wf()
                &&& b@ == fresh_model(size_limit_per_type as nat, Set::full())
                &&& b.phase_of() == Phase::Idle
                &&& b.timeout_of() == timeout
            },
    {
        if size_limit_per_type >= 2 {
            Some(Buffer::new(size_limit_per_type, timeout))
        } else {
            None
        }
    }

    /// An empty, idle buffer that tracks only the sensor types in `known`;
    /// readings of any other type will be dropped on arrival.
    pub fn with_sensor_types(size_limit_per_type: usize, timeout: Duration, known: &Vec<SensorType>) -> (buffer:
        Buffer)
        requires
            size_limit_per_type >= 2,
        ensures
            buffer.wf(),
            buffer@ == fresh_model(size_limit_per_type as nat, known@.to_set()),
            buffer.phase_of() == Phase::Idle,
            buffer.timeout_of() == timeout,
    {
        Buffer {
            controller: OverflowController::new(size_limit_per_type, known),
            timeout,
            phase: Phase::Idle,
        }
    }

    pub fn phase(&self) -> (phase: Phase)
        ensures
            phase == self.phase_of(),
    {
        self.phase
    }

    pub fn timeout(&self) -> (timeout: Duration)
        ensures
            timeout == self.timeout_of(),
    {
        self.timeout
    }

    /// The number of buffered entries.
    pub fn len(&self) -> (n: usize)
        ensures
            n == self@.entries.len(),
    {
        self.controller.len()
    }

    /// The entry in slot `index`, if there is such a slot.
    pub fn entry(&self, index: usize) -> (entry: Option<SensorMessage>)
        ensures
            entry == if index < self@.entries.len() {
                Some(self@.entries[index as int])
            } else {
                None::<SensorMessage>
            },
    {
        self.controller.entry(index)
    }

    /// The oldest entry, left in place.
    pub fn front(&self) -> (entry: Option<SensorMessage>)
        ensures
            entry == self@.front(),
    {
        self.controller.front()
    }

    /// The outstanding count of a tracked sensor type.
    pub fn outstanding_count(&self, key: SensorType) -> (count: Option<usize>)
        ensures
            count.is_some() == self@.tracks(key),
            self@.tracks(key) ==> count.unwrap() == self@.counts[key],
    {
        self.controller.outstanding_count(key)
    }

    /// The slot of the oldest buffered entry of type `key`.
    pub fn oldest_index(&self, key: SensorType) -> (index: Option<usize>)
        requires
            self.wf(),
        ensures
            index == self.oldest_slot(key),
            self@.tracks(key) ==> slot_of(index) == first_match(self@.entries, key, None),
            !self@.tracks(key) ==> index.is_none(),
    {
        self.controller.oldest_index(key)
    }

    /// Whether `accept` may be called with `arrival`: the coordinator is
    /// idle and, for a reading, the reading stands for at least one sample
    /// and the machine's integers leave room for it.
    pub fn can_accept(&self, arrival: &Arrival) -> (ready: bool)
        requires
            self.wf(),
        ensures
            ready == (self.phase_of() == Phase::Idle && (*arrival matches Arrival::Reading(r)
                ==> r.wf() && self@.has_headroom(r))),
    {
        if self.phase != Phase::Idle {
            return false;
        }
        match arrival {
            Arrival::Reading(reading) => reading.sample_count >= 1
                && self.controller.has_headroom(reading),
            Arrival::TimedOut => true,
            Arrival::Disconnected => true,
        }
    }

    /// The first step of a cycle: deals with what the wait on the ingest
    /// channel produced. A reading is ingested; a timeout changes nothing;
    /// a disconnect closes the coordinator for good, with whatever is
    /// still buffered left undelivered.
    pub fn accept(&mut self, arrival: Arrival) -> (outcome: Option<IngestOutcome>)
        requires
            old(self).wf(),
            old(self).phase_of() == Phase::Idle,
            arrival matches Arrival::Reading(r) ==> r.wf() && old(self)@.has_headroom(r),
        ensures
            final(self).wf(),
            final(self).timeout_of() == old(self).timeout_of(),
            match arrival {
                Arrival::Reading(r) => {
                    &&& final(self)@ == old(self)@.ingest(r)
                    &&& outcome == Some(old(self)@.ingest_outcome(r))
                    &&& final(self).phase_of() == Phase::Ingesting
                },
                Arrival::TimedOut => {
                    &&& final(self)@ == old(self)@
                    &&& outcome.is_none()
                    &&& final(self).phase_of() == Phase::Ingesting
                },
                Arrival::Disconnected => {
                    &&& final(self)@ == old(self)@
                    &&& outcome.is_none()
                    &&& final(self).phase_of() == Phase::Closed
                },
            },
    {
        match arrival {
            Arrival::Reading(reading) => {
                let outcome = self.controller.ingest(reading);
                self.phase = Phase::Ingesting;
                Some(outcome)
            },
            Arrival::TimedOut => {
                self.phase = Phase::Ingesting;
                None
            },
            Arrival::Disconnected => {
                self.phase = Phase::Closed;
                None
            },
        }
    }

    /// The second step: the entry to hand to the transport, which is the
    /// front entry, left in place. With nothing buffered the cycle is over
    /// and the coordinator is idle again.
    pub fn next_delivery(&mut self) -> (entry: Option<SensorMessage>)
        requires
            old(self).wf(),
            old(self).phase_of() == Phase::Ingesting,
        ensures
            final(self).wf(),
            final(self).timeout_of() == old(self).timeout_of(),
            final(self)@ == old(self)@,
            entry == old(self)@.front(),
            final(self).phase_of() == if entry.is_some() {
                Phase::Delivering
            } else {
                Phase::Idle
            },
    {
        let entry = self.controller.front();
        if entry.is_some() {
            self.phase = Phase::Delivering;
        } else {
            self.phase = Phase::Idle;
        }
        entry
    }

    /// The third step: settles the transport's answer for the entry that
    /// `next_delivery` handed out. Confirmed, the entry leaves the buffer
    /// and is returned; otherwise the buffer stays exactly as it is and the
    /// same entry is offered again in the next cycle.
    pub fn resolve(&mut self, outcome: Delivery) -> (delivered: Option<SensorMessage>)
        requires
            old(self).wf(),
            old(self).phase_of() == Phase::Delivering,
        ensures
            final(self).wf(),
            final(self).timeout_of() == old(self).timeout_of(),
            final(self)@ == old(self)@.resolve(outcome),
            final(self).phase_of() == Phase::Idle,
            delivered == if outcome == Delivery::Confirmed {
                old(self)@.front()
            } else {
                None::<SensorMessage>
            },
            outcome != Delivery::Confirmed ==> final(self)@ == old(self)@,
    {
        self.phase = Phase::Idle;
        match outcome {
            Delivery::Confirmed => self.controller.acknowledge(),
            Delivery::SendFailed => None,
            Delivery::Refused => None,
        }
    }
}

} // verus!
