use sensor_buffer::model::IngestOutcome;
use sensor_buffer::overflow::OverflowController;
use sensor_buffer::types::{SensorMessage, SensorType};

fn raw(content: i64, timestamp: u64, kind: SensorType) -> SensorMessage {
    SensorMessage::new(0, content, timestamp, kind)
}

fn entry(seq: u64, content: i64, timestamp: u64, kind: SensorType, count: u32) -> SensorMessage {
    SensorMessage { sequence_number: seq, timestamp, content, sensor_type: kind, sample_count: count }
}

fn all_types() -> Vec<SensorType> {
    vec![SensorType::Temperature, SensorType::Humidity, SensorType::CO2]
}

fn contents(c: &OverflowController) -> Vec<SensorMessage> {
    let mut out = Vec::new();
    let mut i = 0;
    while let Some(e) = c.entry(i) {
        out.push(e);
        i += 1;
    }
    out
}

#[test]
fn fresh_controller_is_empty_and_counts_nothing() {
    let c = OverflowController::new(3, &all_types());
    assert_eq!(c.len(), 0);
    assert_eq!(c.front(), None);
    assert_eq!(c.next_sequence(), 0);
    for kind in all_types() {
        assert!(c.is_tracked(kind));
        assert_eq!(c.limit(kind), Some(3));
        assert_eq!(c.outstanding_count(kind), Some(0));
        assert_eq!(c.oldest_index(kind), None);
    }
}

#[test]
fn ingest_numbers_readings_in_arrival_order() {
    let mut c = OverflowController::new(5, &all_types());
    let mut late = raw(1, 10, SensorType::CO2);
    late.sequence_number = 999;
    assert_eq!(c.ingest(late), IngestOutcome::Buffered);
    assert_eq!(c.ingest(raw(2, 20, SensorType::Humidity)), IngestOutcome::Buffered);
    assert_eq!(
        contents(&c),
        vec![entry(0, 1, 10, SensorType::CO2, 1), entry(1, 2, 20, SensorType::Humidity, 1)]
    );
    assert_eq!(c.next_sequence(), 2);
}

#[test]
fn two_of_a_type_merge_when_the_limit_is_two() {
    let mut c = OverflowController::new(2, &all_types());
    assert_eq!(c.ingest(raw(10, 100, SensorType::Temperature)), IngestOutcome::Buffered);
    assert_eq!(c.ingest(raw(5, 200, SensorType::Humidity)), IngestOutcome::Buffered);
    assert_eq!(c.ingest(raw(20, 300, SensorType::Temperature)), IngestOutcome::Merged);
    assert_eq!(
        contents(&c),
        vec![entry(1, 5, 200, SensorType::Humidity, 1), entry(2, 15, 300, SensorType::Temperature, 2)]
    );
    assert_eq!(c.outstanding_count(SensorType::Temperature), Some(2));
    assert_eq!(c.outstanding_count(SensorType::Humidity), Some(1));
    assert_eq!(c.oldest_index(SensorType::Temperature), Some(1));
    assert_eq!(c.oldest_index(SensorType::Humidity), Some(0));
    assert_eq!(c.oldest_index(SensorType::CO2), None);
}

#[test]
fn two_of_a_type_stay_apart_below_a_limit_of_three() {
    let mut c = OverflowController::new(3, &all_types());
    c.ingest(raw(10, 100, SensorType::Temperature));
    c.ingest(raw(5, 200, SensorType::Humidity));
    assert_eq!(c.ingest(raw(20, 300, SensorType::Temperature)), IngestOutcome::Buffered);
    assert_eq!(
        contents(&c),
        vec![
            entry(0, 10, 100, SensorType::Temperature, 1),
            entry(1, 5, 200, SensorType::Humidity, 1),
            entry(2, 20, 300, SensorType::Temperature, 1),
        ]
    );
    assert_eq!(c.outstanding_count(SensorType::Temperature), Some(2));
}

#[test]
fn third_of_a_type_merges_the_two_oldest_at_a_limit_of_three() {
    let mut c = OverflowController::new(3, &all_types());
    c.ingest(raw(10, 100, SensorType::Temperature));
    c.ingest(raw(5, 200, SensorType::Humidity));
    c.ingest(raw(20, 300, SensorType::Temperature));
    assert_eq!(c.ingest(raw(40, 400, SensorType::Temperature)), IngestOutcome::Merged);
    assert_eq!(
        contents(&c),
        vec![
            entry(1, 5, 200, SensorType::Humidity, 1),
            entry(2, 15, 300, SensorType::Temperature, 2),
            entry(3, 40, 400, SensorType::Temperature, 1),
        ]
    );
    assert_eq!(c.outstanding_count(SensorType::Temperature), Some(3));
    assert_eq!(c.oldest_index(SensorType::Temperature), Some(1));
}

#[test]
fn merged_entry_keeps_absorbing_with_its_weight() {
    let mut c = OverflowController::new(2, &all_types());
    c.ingest(raw(10, 1, SensorType::CO2));
    c.ingest(raw(20, 2, SensorType::CO2));
    assert_eq!(c.ingest(raw(40, 3, SensorType::CO2)), IngestOutcome::Merged);
    assert_eq!(contents(&c), vec![entry(2, 23, 3, SensorType::CO2, 3)]);
    assert_eq!(c.outstanding_count(SensorType::CO2), Some(3));
}

#[test]
fn merge_is_put_off_until_a_second_entry_is_there() {
    let mut c = OverflowController::new(2, &all_types());
    c.ingest(raw(10, 1, SensorType::Humidity));
    assert_eq!(c.ingest(raw(30, 2, SensorType::Humidity)), IngestOutcome::Merged);
    assert_eq!(c.outstanding_count(SensorType::Humidity), Some(2));
    assert_eq!(c.acknowledge(), Some(entry(1, 20, 2, SensorType::Humidity, 2)));
    assert_eq!(c.outstanding_count(SensorType::Humidity), Some(1));
    assert_eq!(c.oldest_index(SensorType::Humidity), None);
    assert_eq!(c.ingest(raw(50, 3, SensorType::Humidity)), IngestOutcome::Buffered);
    assert_eq!(c.outstanding_count(SensorType::Humidity), Some(2));
    assert_eq!(contents(&c), vec![entry(2, 50, 3, SensorType::Humidity, 1)]);
    assert_eq!(c.oldest_index(SensorType::Humidity), Some(0));
}

#[test]
fn reading_of_an_untracked_type_is_dropped() {
    let mut c = OverflowController::new(2, &vec![SensorType::Temperature]);
    assert!(!c.is_tracked(SensorType::CO2));
    assert_eq!(c.limit(SensorType::CO2), None);
    assert_eq!(c.outstanding_count(SensorType::CO2), None);
    c.ingest(raw(1, 1, SensorType::Temperature));
    assert_eq!(c.ingest(raw(450, 2, SensorType::CO2)), IngestOutcome::Rejected);
    assert_eq!(contents(&c), vec![entry(0, 1, 1, SensorType::Temperature, 1)]);
    assert_eq!(c.next_sequence(), 1);
    assert_eq!(c.outstanding_count(SensorType::Temperature), Some(1));
}

#[test]
fn acknowledge_removes_the_front_and_counts_down() {
    let mut c = OverflowController::new(4, &all_types());
    c.ingest(raw(1, 1, SensorType::Temperature));
    c.ingest(raw(2, 2, SensorType::CO2));
    c.ingest(raw(3, 3, SensorType::Temperature));
    assert_eq!(c.oldest_index(SensorType::CO2), Some(1));
    assert_eq!(c.acknowledge(), Some(entry(0, 1, 1, SensorType::Temperature, 1)));
    assert_eq!(c.outstanding_count(SensorType::Temperature), Some(1));
    assert_eq!(c.outstanding_count(SensorType::CO2), Some(1));
    assert_eq!(c.oldest_index(SensorType::Temperature), Some(1));
    assert_eq!(c.oldest_index(SensorType::CO2), Some(0));
    assert_eq!(c.front(), Some(entry(1, 2, 2, SensorType::CO2, 1)));
}

#[test]
fn acknowledge_on_an_empty_buffer_changes_nothing() {
    let mut c = OverflowController::new(2, &all_types());
    assert_eq!(c.acknowledge(), None);
    assert_eq!(c.len(), 0);
    assert_eq!(c.outstanding_count(SensorType::Temperature), Some(0));
}

#[test]
fn samples_buffered_are_samples_ingested_less_samples_delivered() {
    let mut c = OverflowController::new(2, &all_types());
    let mut delivered: u64 = 0;
    for i in 0..25u64 {
        c.ingest(raw(i as i64, i, SensorType::Temperature));
        if i % 7 == 6 {
            delivered += c.acknowledge().map(|e| e.sample_count as u64).unwrap_or(0);
        }
        let buffered: u64 = contents(&c).iter().map(|e| e.sample_count as u64).sum();
        assert_eq!(buffered, i + 1 - delivered);
    }
}

#[test]
fn headroom_is_there_for_ordinary_readings_and_gone_at_the_sample_limit() {
    let mut c = OverflowController::new(2, &all_types());
    let mut heavy = raw(1, 1, SensorType::CO2);
    heavy.sample_count = u32::MAX - 1;
    assert!(c.has_headroom(&heavy));
    c.ingest(heavy);
    assert!(c.has_headroom(&raw(2, 2, SensorType::CO2)));
    assert!(c.has_headroom(&raw(2, 2, SensorType::Humidity)));
    let mut two = raw(2, 2, SensorType::CO2);
    two.sample_count = 2;
    assert!(!c.has_headroom(&two));
}

#[test]
fn headroom_asks_nothing_of_sample_counts_while_no_merge_is_due() {
    let mut c = OverflowController::new(3, &all_types());
    let mut heavy = raw(1, 1, SensorType::CO2);
    heavy.sample_count = u32::MAX;
    assert!(c.has_headroom(&heavy));
    c.ingest(heavy);
    assert!(c.has_headroom(&heavy));
    assert_eq!(c.ingest(heavy), IngestOutcome::Buffered);
    assert_eq!(c.len(), 2);
    assert!(!c.has_headroom(&raw(2, 2, SensorType::CO2)));
    assert!(c.has_headroom(&raw(2, 2, SensorType::Temperature)));
}
