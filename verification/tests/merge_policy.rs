use sensor_buffer::types::{AirQualityMessage, Mergeable, SensorMessage, SensorType, Sequenced};

fn reading(seq: u64, content: i64, timestamp: u64, kind: SensorType, count: u32) -> SensorMessage {
    SensorMessage { sequence_number: seq, timestamp, content, sensor_type: kind, sample_count: count }
}

#[test]
fn new_reading_stands_for_one_sample() {
    let m = SensorMessage::new(7, -3, 1_700_000_000_000_000, SensorType::Humidity);
    assert_eq!(m.sequence_number, 7);
    assert_eq!(m.content, -3);
    assert_eq!(m.timestamp, 1_700_000_000_000_000);
    assert_eq!(m.sensor_type, SensorType::Humidity);
    assert_eq!(m.sample_count, 1);
}

#[test]
fn new_air_quality_message_keeps_its_fields() {
    let m = AirQualityMessage::new(4, 812, 99);
    assert_eq!(m, AirQualityMessage { sequence_number: 4, timestamp: 99, content: 812 });
}

#[test]
fn merge_of_two_single_samples_is_their_mean() {
    let a = reading(0, 10, 100, SensorType::Temperature, 1);
    let b = reading(2, 20, 300, SensorType::Temperature, 1);
    let m = a.merge(&b);
    assert_eq!(m, reading(2, 15, 300, SensorType::Temperature, 2));
}

#[test]
fn merge_adopts_the_newer_identity() {
    let a = reading(11, 1, 500, SensorType::CO2, 4);
    let b = reading(3, 1, 200, SensorType::CO2, 2);
    let m = a.merge(&b);
    assert_eq!(m.sequence_number, 3);
    assert_eq!(m.timestamp, 200);
    assert_eq!(m.sensor_type, SensorType::CO2);
}

#[test]
fn merge_weighs_by_sample_count() {
    let a = reading(0, 10, 1, SensorType::Humidity, 3);
    let b = reading(1, 20, 2, SensorType::Humidity, 1);
    let m = a.merge(&b);
    assert_eq!(m.content, 12);
    assert_eq!(m.sample_count, 4);
}

#[test]
fn merge_truncates_toward_zero_for_positive_means() {
    let a = reading(0, 3, 1, SensorType::Humidity, 1);
    let b = reading(1, 4, 2, SensorType::Humidity, 1);
    assert_eq!(a.merge(&b).content, 3);
}

#[test]
fn merge_truncates_toward_zero_for_negative_means() {
    let a = reading(0, -3, 1, SensorType::Temperature, 1);
    let b = reading(1, -4, 2, SensorType::Temperature, 1);
    assert_eq!(a.merge(&b).content, -3);
    let c = reading(0, -10, 1, SensorType::Temperature, 3);
    let d = reading(1, -21, 2, SensorType::Temperature, 1);
    assert_eq!(c.merge(&d).content, -12);
}

#[test]
fn merge_of_mixed_signs_truncates_toward_zero() {
    let a = reading(0, -5, 1, SensorType::Temperature, 1);
    let b = reading(1, 4, 2, SensorType::Temperature, 1);
    assert_eq!(a.merge(&b).content, 0);
    let c = reading(0, -5, 1, SensorType::Temperature, 1);
    let d = reading(1, 2, 2, SensorType::Temperature, 1);
    assert_eq!(c.merge(&d).content, -1);
}

#[test]
fn merge_content_stays_between_the_two_contents() {
    let contents: [i64; 7] = [i64::MIN, -1000, -1, 0, 1, 77, i64::MAX];
    let counts: [u32; 4] = [1, 2, 1000, u32::MAX / 2];
    for &x in contents.iter() {
        for &y in contents.iter() {
            for &p in counts.iter() {
                for &q in counts.iter() {
                    let a = reading(0, x, 1, SensorType::CO2, p);
                    let b = reading(1, y, 2, SensorType::CO2, q);
                    let m = a.merge(&b);
                    assert!(x.min(y) <= m.content && m.content <= x.max(y));
                    assert_eq!(m.sample_count, p + q);
                }
            }
        }
    }
}

#[test]
fn merge_does_not_overflow_at_the_extremes() {
    let a = reading(0, i64::MAX, 1, SensorType::CO2, u32::MAX - 1);
    let b = reading(1, i64::MAX, 2, SensorType::CO2, 1);
    let m = a.merge(&b);
    assert_eq!(m.content, i64::MAX);
    assert_eq!(m.sample_count, u32::MAX);
    let c = reading(0, i64::MIN, 1, SensorType::CO2, u32::MAX - 1);
    let d = reading(1, i64::MIN, 2, SensorType::CO2, 1);
    assert_eq!(c.merge(&d).content, i64::MIN);
}

#[test]
fn merge_conserves_samples() {
    let a = reading(0, 1, 1, SensorType::Humidity, 17);
    let b = reading(1, 2, 2, SensorType::Humidity, 25);
    assert_eq!(a.merge(&b).sample_count, 42);
}

#[test]
fn set_sequence_number_changes_only_the_number() {
    let mut m = reading(0, 9, 8, SensorType::Humidity, 5);
    m.set_sequence_number(41);
    assert_eq!(m, reading(41, 9, 8, SensorType::Humidity, 5));
}
