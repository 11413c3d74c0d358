use sensor_buffer::client::{Client, Transmission};
use sensor_buffer::sensor::Sensor;
use sensor_buffer::server::ServerState;
use sensor_buffer::types::{AirQualityMessage, SensorMessage, SensorType};
use std::time::Duration;

#[test]
fn client_keeps_its_address() {
    let client = Client::new(String::from("127.0.0.1:8080"));
    assert_eq!(client.address().as_str(), "127.0.0.1:8080");
}

#[test]
fn client_knows_each_sensor_range() {
    let client = Client::new(String::from("a"));
    assert_eq!(client.sensor_value_range(SensorType::CO2), (400, 5000));
    assert_eq!(client.sensor_value_range(SensorType::Humidity), (0, 100));
    assert_eq!(client.sensor_value_range(SensorType::Temperature), (-10, 50));
}

#[test]
fn client_sends_only_contents_in_range() {
    let client = Client::new(String::from("a"));
    let cases: [(SensorType, i64, bool); 12] = [
        (SensorType::CO2, 399, false),
        (SensorType::CO2, 400, true),
        (SensorType::CO2, 5000, true),
        (SensorType::CO2, 5001, false),
        (SensorType::Humidity, -1, false),
        (SensorType::Humidity, 0, true),
        (SensorType::Humidity, 100, true),
        (SensorType::Humidity, 101, false),
        (SensorType::Temperature, -11, false),
        (SensorType::Temperature, -10, true),
        (SensorType::Temperature, 50, true),
        (SensorType::Temperature, 51, false),
    ];
    for (kind, content, expected) in cases {
        assert_eq!(client.is_sendable(&SensorMessage::new(0, content, 0, kind)), expected);
    }
    assert!(!client.is_sendable(&SensorMessage::new(0, i64::MAX, 0, SensorType::CO2)));
    assert!(!client.is_sendable(&SensorMessage::new(0, i64::MIN, 0, SensorType::CO2)));
}

#[test]
fn client_confirms_what_was_written_or_not_worth_sending() {
    let client = Client::new(String::from("a"));
    assert!(client.confirmation(Transmission::Written));
    assert!(client.confirmation(Transmission::OutOfRange));
    assert!(!client.confirmation(Transmission::ConnectFailed));
    assert!(!client.confirmation(Transmission::WriteFailed));
}

#[test]
fn sensor_keeps_what_it_was_made_with() {
    let sensor = Sensor::new(2, Duration::from_secs(5), SensorType::Humidity);
    assert_eq!(sensor.id(), 2);
    assert_eq!(sensor.interval(), Duration::from_secs(5));
    assert_eq!(sensor.sensor_type(), SensorType::Humidity);
}

#[test]
fn sensor_intervals_and_shares_follow_its_type() {
    let co2 = Sensor::new(0, Duration::from_secs(1), SensorType::CO2);
    let humidity = Sensor::new(1, Duration::from_secs(1), SensorType::Humidity);
    let temperature = Sensor::new(2, Duration::from_secs(1), SensorType::Temperature);
    assert_eq!(co2.value_bounds(true), (-100, 400));
    assert_eq!(co2.value_bounds(false), (400, 5000));
    assert_eq!(humidity.value_bounds(true), (-100, 0));
    assert_eq!(humidity.value_bounds(false), (0, 100));
    assert_eq!(temperature.value_bounds(true), (-40, 60));
    assert_eq!(temperature.value_bounds(false), (-10, 30));
    assert_eq!(co2.stray_percent(), 33);
    assert_eq!(humidity.stray_percent(), 33);
    assert_eq!(temperature.stray_percent(), 50);
}

#[test]
fn sensor_draws_inside_its_interval_and_not_always_the_bound() {
    for kind in [SensorType::CO2, SensorType::Humidity, SensorType::Temperature] {
        let sensor = Sensor::new(0, Duration::from_secs(1), kind);
        for stray in [true, false] {
            let (low, high) = sensor.value_bounds(stray);
            let mut seen_other_than_low = false;
            let mut seen_other_than_last = false;
            for _ in 0..400 {
                let value = sensor.generate(stray);
                assert!(low <= value && value < high);
                seen_other_than_low |= value != low;
                seen_other_than_last |= value != high - 1;
            }
            assert!(seen_other_than_low);
            assert!(seen_other_than_last);
        }
    }
}

#[test]
fn sensor_message_is_one_unnumbered_sample() {
    let sensor = Sensor::new(0, Duration::from_secs(1), SensorType::CO2);
    assert_eq!(
        sensor.message(432, 77),
        SensorMessage { sequence_number: 0, timestamp: 77, content: 432, sensor_type: SensorType::CO2, sample_count: 1 }
    );
}

#[test]
fn server_answers_once_every_type_was_heard() {
    let mut state = ServerState::new();
    assert!(!state.has_sensor_data());
    assert!(!state.record(&SensorMessage::new(0, 21, 1, SensorType::Temperature)));
    assert!(!state.record(&SensorMessage::new(1, 22, 2, SensorType::Temperature)));
    assert!(!state.record(&SensorMessage::new(2, 40, 3, SensorType::Humidity)));
    assert_eq!(state.latest(SensorType::CO2), None);
    assert!(state.record(&SensorMessage::new(3, 450, 4, SensorType::CO2)));
    assert!(state.has_sensor_data());
    assert_eq!(state.latest(SensorType::Temperature), Some(22));
    assert_eq!(state.latest(SensorType::Humidity), Some(40));
    assert_eq!(state.latest(SensorType::CO2), Some(450));
}

#[test]
fn server_numbers_answers_and_retries_the_unwritten_first() {
    let mut state = ServerState::new();
    assert!(state.can_respond());
    let first = state.respond(146, 1000);
    assert_eq!(first, AirQualityMessage { sequence_number: 0, timestamp: 1000, content: 146 });
    assert_eq!(state.pending(), 0);
    state.requeue(first);
    assert_eq!(state.pending(), 1);
    let again = state.respond(150, 2000);
    assert_eq!(again, first);
    assert_eq!(state.pending(), 1);
    let second = state.respond(160, 3000);
    assert_eq!(second, AirQualityMessage { sequence_number: 1, timestamp: 2000, content: 150 });
    assert_eq!(state.pending(), 1);
}
