//! The server's bookkeeping: the latest content of each sensor type, the
//! numbering of its answers and the queue of answers still to be written.
//! The inference itself is computed by the caller.

use crate::types::{AirQualityMessage, SensorMessage, SensorType};
use std::collections::VecDeque;
use vstd::prelude::*;

verus! {

/// The server's state as a mathematical value.
pub struct ServerModel {
    /// The latest content received of each sensor type heard from so far.
    pub sensor_data: Map<SensorType, i64>,
    /// The answers not yet written, oldest first.
    pub outgoing: Seq<AirQualityMessage>,
    /// The sequence number of the next answer.
    pub sequence: nat,
}

impl ServerModel {
    /// Whether every sensor type has been heard from.
    pub open spec fn complete(self) -> bool {
        forall|key: SensorType| self.sensor_data.contains_key(key)
    }

    /// The answer that `respond` creates.
    pub open spec fn response(self, air_quality: i64, timestamp: u64) -> AirQualityMessage {
        AirQualityMessage { sequence_number: self.sequence as u64, timestamp, content: air_quality }
    }
}

/// The state a server keeps between connections.
pub struct ServerState {
    temperature: Option<i64>,
    humidity: Option<i64>,
    co2: Option<i64>,
    outgoing_buffer: VecDeque<AirQualityMessage>,
    sequence: u64,
}

impl View for ServerState {
    type V = ServerModel;

    closed spec fn view(&self) -> ServerModel {
        ServerModel {
            sensor_data: Map::new(
                |k: SensorType| self.slot(k).is_some(),
                |k: SensorType| self.slot(k).unwrap(),
            ),
            outgoing: self.outgoing_buffer@,
            sequence: self.sequence as nat,
        }
    }
}

impl ServerState {
    spec fn slot(&self, key: SensorType) -> Option<i64> {
        match key {
            SensorType::Temperature => self.temperature,
            SensorType::Humidity => self.humidity,
            SensorType::CO2 => self.co2,
        }
    }

    pub fn new() -> (state: ServerState)
        ensures
            state@ == (ServerModel {
                sensor_data: Map::empty(),
                outgoing: Seq::empty(),
                sequence: 0,
            }),
    {
        let state = ServerState {
            temperature: None,
            humidity: None,
            co2: None,
            outgoing_buffer: VecDeque::new(),
            sequence: 0,
        };
        assert(state@.sensor_data =~= Map::empty());
        state
    }

    /// The latest content received of the given sensor type.
    pub fn latest(&self, key: SensorType) -> (content: Option<i64>)
        ensures
            content.is_some() == self@.sensor_data.contains_key(key),
            content matches Some(c) ==> c == self@.sensor_data[key],
    {
        match key {
            SensorType::Temperature => self.temperature,
            SensorType::Humidity => self.humidity,
            SensorType::CO2 => self.co2,
        }
    }

    /// Whether every sensor type has been heard from.
    pub fn has_sensor_data(&self) -> (complete: bool)
        ensures
            complete == self@.complete(),
    {
        let complete = self.temperature.is_some() && self.humidity.is_some() && self.co2.is_some();
        proof {
            if complete {
                assert forall|key: SensorType| self@.sensor_data.contains_key(key) by {
                    assert(self.slot(key).is_some());
                }
            } else {
                if self.temperature.is_none() {
                    assert(!self@.sensor_data.contains_key(SensorType::Temperature));
                } else if self.humidity.is_none() {
                    assert(!self@.sensor_data.contains_key(SensorType::Humidity));
                } else {
                    assert(!self@.sensor_data.contains_key(SensorType::CO2));
                }
            }
        }
        complete
    }

    /// Takes in a received reading: its content replaces what was known of
    /// its sensor type. Returns whether an answer is now due, which is when
    /// every sensor type has been heard from.
    pub fn record(&mut self, message: &SensorMessage) -> (answer_due: bool)
        ensures
            final(self)@ == (ServerModel {
                sensor_data: old(self)@.sensor_data.insert(message.sensor_type, message.content),
                ..old(self)@
            }),
            answer_due == final(self)@.complete(),
    {
        match message.sensor_type {
            SensorType::Temperature => {
                self.temperature = Some(message.content);
            },
            SensorType::Humidity => {
                self.humidity = Some(message.content);
            },
            SensorType::CO2 => {
                self.co2 = Some(message.content);
            },
        }
        assert(self@.sensor_data =~= old(self)@.sensor_data.insert(
            message.sensor_type,
            message.content,
        ));
        self.has_sensor_data()
    }

    /// Whether `respond` may be called: the answer counter has not run out.
    pub fn can_respond(&self) -> (ready: bool)
        ensures
            ready == (self@.sequence < u64::MAX),
    {
        self.sequence < u64::MAX
    }

    /// Numbers a new answer, puts it at the back of the queue and takes the
    /// answer at the front of the queue to be written next: the new one,
    /// unless an earlier answer is still waiting.
    pub fn respond(&mut self, air_quality: i64, timestamp: u64) -> (next: AirQualityMessage)
        requires
            old(self)@.sequence < u64::MAX,
        ensures
            next == old(self)@.outgoing.push(old(self)@.response(air_quality, timestamp))[0],
            final(self)@ == (ServerModel {
                outgoing: old(self)@.outgoing.push(
                    old(self)@.response(air_quality, timestamp),
                ).remove(0),
                sequence: old(self)@.sequence + 1,
                ..old(self)@
            }),
    {
        let response = AirQualityMessage::new(self.sequence, air_quality, timestamp);
        self.sequence = self.sequence + 1;
        self.outgoing_buffer.push_back(response);
        let ghost queued = self.outgoing_buffer@;
        let next = self.outgoing_buffer.pop_front();
        proof {
            assert(queued.subrange(1, queued.len() as int) =~= queued.remove(0));
            assert(self@.sensor_data =~= old(self)@.sensor_data);
        }
        next.unwrap()
    }

    /// Puts an answer whose write failed back at the end of the queue.
    pub fn requeue(&mut self, message: AirQualityMessage)
        ensures
            final(self)@ == (ServerModel {
                outgoing: old(self)@.outgoing.push(message),
                ..old(self)@
            }),
    {
        self.outgoing_buffer.push_back(message);
        assert(self@.sensor_data =~= old(self)@.sensor_data);
    }

    /// The number of answers waiting to be written.
    pub fn pending(&self) -> (n: usize)
        ensures
            n == self@.outgoing.len(),
    {
        self.outgoing_buffer.len()
    }
}

} // verus!
