//! The transport side's rules: which readings are worth sending, and what
//! the coordinator is told about each attempt.

use crate::types::{SensorMessage, SensorType};
use vstd::prelude::*;

verus! {

/// How one attempt to pass a reading on ended.
#[derive(Clone, Copy, Debug, PartialEq, Eq, Structural)]
pub enum Transmission {
    /// The reading's content is outside its sensor's valid range; it was
    /// not sent and is not to be sent again.
    OutOfRange,
    /// No connection to the server could be made.
    ConnectFailed,
    /// The reading was written to the server.
    Written,
    /// The connection was made but the write failed.
    WriteFailed,
}

/// The contents that a sensor of the given type can validly report, as
/// inclusive bounds.
pub open spec fn valid_range(sensor_type: SensorType) -> (i32, i32) {
    match sensor_type {
        SensorType::CO2 => (400i32, 5000i32),
        SensorType::Humidity => (0i32, 100i32),
        SensorType::Temperature => (-10i32, 50i32),
    }
}

/// Whether a reading's content lies in its sensor's valid range.
pub open spec fn in_valid_range(message: SensorMessage) -> bool {
    valid_range(message.sensor_type).0 <= message.content <= valid_range(message.sensor_type).1
}

/// Whether the coordinator may let go of the reading after an attempt that
/// ended this way.
pub open spec fn settles(transmission: Transmission) -> bool {
    transmission == Transmission::OutOfRange || transmission == Transmission::Written
}

/// The sender towards one server address.
pub struct Client {
    address: String,
}

impl View for Client {
    type V = Seq<char>;

    closed spec fn view(&self) -> Seq<char> {
        self.address@
    }
}

impl Client {
    pub fn new(address: String) -> (client: Client)
        ensures
            client@ == address@,
    {
        Client { address }
    }

    /// The server address this client sends to.
    pub fn address(&self) -> (address: &String)
        ensures
            address@ == self@,
    {
        &self.address
    }

    pub fn sensor_value_range(&self, sensor_type: SensorType) -> (range: (i32, i32))
        ensures
            range == valid_range(sensor_type),
    {
        match sensor_type {
            SensorType::CO2 => (400, 5000),
            SensorType::Humidity => (0, 100),
            SensorType::Temperature => (-10, 50),
        }
    }

    /// Whether `message` is worth sending: its content lies in its sensor's
    /// valid range.
    pub fn is_sendable(&self, message: &SensorMessage) -> (sendable: bool)
        ensures
            sendable == in_valid_range(*message),
    {
        let range = self.sensor_value_range(message.sensor_type);
        !(message.content < range.0 as i64 || message.content > range.1 as i64)
    }

    /// The confirmation owed to the coordinator for an attempt: `true` when
    /// the reading was written or was never worth sending, `false` when it
    /// has to be offered again.
    pub fn confirmation(&self, transmission: Transmission) -> (confirmed: bool)
        ensures
            confirmed == settles(transmission),
    {
        match transmission {
            Transmission::OutOfRange => true,
            Transmission::ConnectFailed => false,
            Transmission::Written => true,
            Transmission::WriteFailed => false,
        }
    }
}

} // verus!
