//! A producer of readings for one sensor type.

use crate::types::{SensorMessage, SensorType};
use rand::Rng;
use std::time::Duration;
use vstd::prelude::*;

verus! {

/// The half-open interval `[low, high)` from which a sensor of the given
/// type draws a value: the stray interval, which reaches beyond what the
/// sensor can validly report, or the regular one.
pub open spec fn draw_range(sensor_type: SensorType, stray: bool) -> (i64, i64) {
    match sensor_type {
        SensorType::CO2 => if stray {
            (-100i64, 400i64)
        } else {
            (400i64, 5000i64)
        },
        SensorType::Humidity => if stray {
            (-100i64, 0i64)
        } else {
            (0i64, 100i64)
        },
        SensorType::Temperature => if stray {
            (-40i64, 60i64)
        } else {
            (-10i64, 30i64)
        },
    }
}

/// How many draws in a hundred a sensor of the given type takes from its
/// stray interval.
pub open spec fn stray_share(sensor_type: SensorType) -> u32 {
    match sensor_type {
        SensorType::CO2 => 33,
        SensorType::Humidity => 33,
        SensorType::Temperature => 50,
    }
}

/// Draws an integer from `[low, high)` with `Rng::gen_range` of the `rand`
/// crate, on the thread's generator from `rand::thread_rng`. Which integer
/// comes back is left to chance; the contract claims only that it lies in
/// the interval. `gen_range` panics on an empty interval, which the
/// precondition leaves out.
#[verifier::external_body]
fn random_in(low: i64, high: i64) -> (value: i64)
    requires
        low < high,
    ensures
        low <= value < high,
{
    rand::thread_rng().gen_range(low..high)
}

/// One sensor: its number, the pause between its readings, and its type.
pub struct Sensor {
    id: usize,
    interval: Duration,
    sensor_type: SensorType,
}

impl Sensor {
    pub closed spec fn id_of(&self) -> usize {
        self.id
    }

    pub closed spec fn interval_of(&self) -> Duration {
        self.interval
    }

    pub closed spec fn type_of(&self) -> SensorType {
        self.sensor_type
    }

    pub fn new(id: usize, interval: Duration, sensor_type: SensorType) -> (sensor: Sensor)
        ensures
            sensor.id_of() == id,
            sensor.interval_of() == interval,
            sensor.type_of() == sensor_type,
    {
        Sensor { id, interval, sensor_type }
    }

    pub fn id(&self) -> (id: usize)
        ensures
            id == self.id_of(),
    {
        self.id
    }

    pub fn interval(&self) -> (interval: Duration)
        ensures
            interval == self.interval_of(),
    {
        self.interval
    }

    pub fn sensor_type(&self) -> (sensor_type: SensorType)
        ensures
            sensor_type == self.type_of(),
    {
        self.sensor_type
    }

    /// How many draws in a hundred this sensor takes from its stray
    /// interval.
    pub fn stray_percent(&self) -> (percent: u32)
        ensures
            percent == stray_share(self.type_of()),
            percent <= 100,
    {
        match self.sensor_type {
            SensorType::CO2 => 33,
            SensorType::Humidity => 33,
            SensorType::Temperature => 50,
        }
    }

    /// The interval `[low, high)` this sensor draws from.
    pub fn value_bounds(&self, stray: bool) -> (bounds: (i64, i64))
        ensures
            bounds == draw_range(self.type_of(), stray),
            bounds.0 < bounds.1,
    {
        match self.sensor_type {
            SensorType::CO2 => if stray {
                (-100, 400)
            } else {
                (400, 5000)
            },
            SensorType::Humidity => if stray {
                (-100, 0)
            } else {
                (0, 100)
            },
            SensorType::Temperature => if stray {
                (-40, 60)
            } else {
                (-10, 30)
            },
        }
    }

    /// Draws a value at random from this sensor's stray or regular
    /// interval.
    pub fn generate(&self, stray: bool) -> (value: i64)
        ensures
            draw_range(self.type_of(), stray).0 <= value < draw_range(self.type_of(), stray).1,
    {
        let bounds = self.value_bounds(stray);
        random_in(bounds.0, bounds.1)
    }

    /// The reading this sensor sends for a value drawn at `timestamp`: one
    /// sample of its type, not yet numbered.
    pub fn message(&self, value: i64, timestamp: u64) -> (message: SensorMessage)
        ensures
            message == (SensorMessage {
                sequence_number: 0,
                timestamp,
                content: value,
                sensor_type: self.type_of(),
                sample_count: 1,
            }),
    {
        SensorMessage::new(0, value, timestamp, self.sensor_type)
    }
}

} // verus!
