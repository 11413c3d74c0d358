//! The one-line text of a message, as it appears in a log.

use crate::types::{AirQualityMessage, SensorMessage, SensorType};
use chrono::DateTime;
use vstd::prelude::*;

verus! {

/// The text of the UTC instant `seconds` and `nanoseconds` after the Unix
/// epoch, as date, `T`, and time of day with six decimals; `None` for an
/// instant beyond the calendar's range.
pub uninterp spec fn utc_text(seconds: i64, nanoseconds: u32) -> Option<Seq<char>>;

/// Makes a `chrono::DateTime<Utc>` with `DateTime::from_timestamp` and
/// renders it with `DateTime::format` under the pattern
/// `%Y-%m-%dT%H:%M:%S%.6f`. The contract claims only that the outcome is a
/// function of the two arguments, `None` where `from_timestamp` gives
/// `None`: it names that function and says nothing of the characters.
#[verifier::external_body]
fn render_utc(seconds: i64, nanoseconds: u32) -> (text: Option<String>)
    ensures
        text.is_some() == utc_text(seconds, nanoseconds).is_some(),
        text matches Some(t) ==> utc_text(seconds, nanoseconds) == Some(t@),
{
    match DateTime::from_timestamp(seconds, nanoseconds) {
        Some(instant) => Some(instant.format("%Y-%m-%dT%H:%M:%S%.6f").to_string()),
        None => None,
    }
}

/// `String::push_str` appends the given slice to the string.
pub assume_specification[ String::push_str ](s: &mut String, string: &str)
    ensures
        final(s)@ == old(s)@ + string@,
;

/// The character of a decimal digit.
pub open spec fn digit_char(d: int) -> char {
    if d == 0 {
        '0'
    } else if d == 1 {
        '1'
    } else if d == 2 {
        '2'
    } else if d == 3 {
        '3'
    } else if d == 4 {
        '4'
    } else if d == 5 {
        '5'
    } else if d == 6 {
        '6'
    } else if d == 7 {
        '7'
    } else if d == 8 {
        '8'
    } else {
        '9'
    }
}

/// A natural number in decimal, without leading zeros.
pub open spec fn natural_text(n: nat) -> Seq<char>
    decreases n,
{
    if n < 10 {
        seq![digit_char(n as int)]
    } else {
        natural_text(n / 10).push(digit_char((n % 10) as int))
    }
}

/// An integer in decimal, with a minus sign if it is negative.
pub open spec fn integer_text(n: int) -> Seq<char> {
    if n < 0 {
        seq!['-'] + natural_text((-n) as nat)
    } else {
        natural_text(n as nat)
    }
}

/// The name of a sensor type.
pub open spec fn sensor_name(sensor_type: SensorType) -> Seq<char> {
    match sensor_type {
        SensorType::Temperature => "Temperature"@,
        SensorType::Humidity => "Humidity"@,
        SensorType::CO2 => "CO2"@,
    }
}

/// The whole seconds and the nanoseconds beyond them of a timestamp in
/// microseconds.
pub open spec fn seconds_of(timestamp: u64) -> i64 {
    (timestamp / 1_000_000) as i64
}

pub open spec fn nanoseconds_of(timestamp: u64) -> u32 {
    ((timestamp % 1_000_000) * 1_000) as u32
}

/// The text of a reading, given the text of its timestamp.
pub open spec fn sensor_message_text(message: SensorMessage, time: Seq<char>) -> Seq<char> {
    "SensorMessage(sensor="@ + sensor_name(message.sensor_type) + ", seq="@ + natural_text(
        message.sequence_number as nat,
    ) + ", content="@ + integer_text(message.content as int) + ", timestamp="@ + time
        + ", sample_count="@ + natural_text(message.sample_count as nat) + ")"@
}

/// The text of an answer, given the text of its timestamp.
pub open spec fn air_quality_message_text(message: AirQualityMessage, time: Seq<char>) -> Seq<char> {
    "AirQualityMessage(seq="@ + natural_text(message.sequence_number as nat) + ", content="@
        + integer_text(message.content as int) + ", timestamp="@ + time + ")"@
}

fn digit_str(d: u64) -> (s: &'static str)
    requires
        d < 10,
    ensures
        s@ == seq![digit_char(d as int)],
{
    proof {
        reveal_strlit("0");
        reveal_strlit("1");
        reveal_strlit("2");
        reveal_strlit("3");
        reveal_strlit("4");
        reveal_strlit("5");
        reveal_strlit("6");
        reveal_strlit("7");
        reveal_strlit("8");
        reveal_strlit("9");
    }
    let s = if d == 0 {
        "0"
    } else if d == 1 {
        "1"
    } else if d == 2 {
        "2"
    } else if d == 3 {
        "3"
    } else if d == 4 {
        "4"
    } else if d == 5 {
        "5"
    } else if d == 6 {
        "6"
    } else if d == 7 {
        "7"
    } else if d == 8 {
        "8"
    } else {
        "9"
    };
    assert(s@ =~= seq![digit_char(d as int)]);
    s
}

/// Appends a natural number in decimal.
pub fn push_natural(out: &mut String, n: u64)
    ensures
        final(out)@ == old(out)@ + natural_text(n as nat),
    decreases n,
{
    if n >= 10 {
        push_natural(out, n / 10);
    }
    out.push_str(digit_str(n % 10));
    assert(out@ =~= old(out)@ + natural_text(n as nat));
}

/// Appends an integer in decimal.
pub fn push_integer(out: &mut String, n: i64)
    ensures
        final(out)@ == old(out)@ + integer_text(n as int),
{
    if n < 0 {
        proof {
            reveal_strlit("-");
        }
        out.push_str("-");
        let magnitude: u64 = (-(n as i128)) as u64;
        push_natural(out, magnitude);
        assert(out@ =~= old(out)@ + integer_text(n as int));
    } else {
        push_natural(out, n as u64);
    }
}

fn sensor_str(sensor_type: SensorType) -> (name: &'static str)
    ensures
        name@ == sensor_name(sensor_type),
{
    match sensor_type {
        SensorType::Temperature => "Temperature",
        SensorType::Humidity => "Humidity",
        SensorType::CO2 => "CO2",
    }
}

/// The text of the instant `timestamp` microseconds after the Unix epoch.
pub fn timestamp_text(timestamp: u64) -> (text: Option<String>)
    ensures
        text.is_some() == utc_text(seconds_of(timestamp), nanoseconds_of(timestamp)).is_some(),
        text matches Some(t) ==> utc_text(seconds_of(timestamp), nanoseconds_of(timestamp))
            == Some(t@),
{
    let seconds: i64 = (timestamp / 1_000_000) as i64;
    let nanoseconds: u32 = ((timestamp % 1_000_000) * 1_000) as u32;
    render_utc(seconds, nanoseconds)
}

/// Puts a reading's text together around the text of its timestamp.
pub fn sensor_message_line(message: &SensorMessage, time: &str) -> (line: String)
    ensures
        line@ == sensor_message_text(*message, time@),
{
    let mut line = String::new();
    line.push_str("SensorMessage(sensor=");
    line.push_str(sensor_str(message.sensor_type));
    line.push_str(", seq=");
    push_natural(&mut line, message.sequence_number);
    line.push_str(", content=");
    push_integer(&mut line, message.content);
    line.push_str(", timestamp=");
    line.push_str(time);
    line.push_str(", sample_count=");
    push_natural(&mut line, message.sample_count as u64);
    line.push_str(")");
    assert(line@ =~= sensor_message_text(*message, time@));
    line
}

/// Puts an answer's text together around the text of its timestamp.
pub fn air_quality_message_line(message: &AirQualityMessage, time: &str) -> (line: String)
    ensures
        line@ == air_quality_message_text(*message, time@),
{
    let mut line = String::new();
    line.push_str("AirQualityMessage(seq=");
    push_natural(&mut line, message.sequence_number);
    line.push_str(", content=");
    push_integer(&mut line, message.content);
    line.push_str(", timestamp=");
    line.push_str(time);
    line.push_str(")");
    assert(line@ =~= air_quality_message_text(*message, time@));
    line
}

impl SensorMessage {
    /// The reading on one line, with its timestamp as UTC date and time;
    /// `None` if the timestamp lies beyond the calendar's range.
    pub fn to_debug_string(&self) -> (line: Option<String>)
        ensures
            match utc_text(seconds_of(self.timestamp), nanoseconds_of(self.timestamp)) {
                Some(time) => line.is_some() && line.unwrap()@ == sensor_message_text(*self, time),
                None => line.is_none(),
            },
    {
        match timestamp_text(self.timestamp) {
            Some(time) => Some(sensor_message_line(self, time.as_str())),
            None => None,
        }
    }
}

impl AirQualityMessage {
    /// The answer on one line, with its timestamp as UTC date and time;
    /// `None` if the timestamp lies beyond the calendar's range.
    pub fn to_debug_string(&self) -> (line: Option<String>)
        ensures
            match utc_text(seconds_of(self.timestamp), nanoseconds_of(self.timestamp)) {
                Some(time) => line.is_some() && line.unwrap()@ == air_quality_message_text(
                    *self,
                    time,
                ),
                None => line.is_none(),
            },
    {
        match timestamp_text(self.timestamp) {
            Some(time) => Some(air_quality_message_line(self, time.as_str())),
            None => None,
        }
    }
}

} // verus!
