use sensor_buffer::store::BufferStore;
use sensor_buffer::types::{SensorMessage, SensorType};

fn reading(seq: u64, content: i64, kind: SensorType) -> SensorMessage {
    SensorMessage { sequence_number: seq, timestamp: 10 * seq, content, sensor_type: kind, sample_count: 1 }
}

fn sample_store() -> BufferStore {
    let mut store = BufferStore::new();
    store.push(reading(0, 10, SensorType::Temperature));
    store.push(reading(1, 5, SensorType::Humidity));
    store.push(reading(2, 20, SensorType::Temperature));
    store.push(reading(3, 450, SensorType::CO2));
    store
}

#[test]
fn new_store_is_empty() {
    let mut store = BufferStore::new();
    assert_eq!(store.len(), 0);
    assert_eq!(store.front(), None);
    assert_eq!(store.pop_front(), None);
    assert_eq!(store.get(0), None);
    assert_eq!(store.position_of_type(SensorType::CO2, None), None);
}

#[test]
fn push_returns_the_slot_taken() {
    let mut store = BufferStore::new();
    assert_eq!(store.push(reading(0, 1, SensorType::CO2)), 0);
    assert_eq!(store.push(reading(1, 2, SensorType::CO2)), 1);
    assert_eq!(store.push(reading(2, 3, SensorType::Humidity)), 2);
    assert_eq!(store.len(), 3);
    assert_eq!(store.get(2), Some(reading(2, 3, SensorType::Humidity)));
}

#[test]
fn front_peeks_without_removing() {
    let store = sample_store();
    assert_eq!(store.front(), Some(reading(0, 10, SensorType::Temperature)));
    assert_eq!(store.front(), Some(reading(0, 10, SensorType::Temperature)));
    assert_eq!(store.len(), 4);
}

#[test]
fn pop_front_takes_entries_in_push_order() {
    let mut store = sample_store();
    assert_eq!(store.pop_front(), Some(reading(0, 10, SensorType::Temperature)));
    assert_eq!(store.pop_front(), Some(reading(1, 5, SensorType::Humidity)));
    assert_eq!(store.pop_front(), Some(reading(2, 20, SensorType::Temperature)));
    assert_eq!(store.pop_front(), Some(reading(3, 450, SensorType::CO2)));
    assert_eq!(store.pop_front(), None);
    assert_eq!(store.len(), 0);
}

#[test]
fn position_of_type_finds_the_first_slot_of_a_type() {
    let store = sample_store();
    assert_eq!(store.position_of_type(SensorType::Temperature, None), Some(0));
    assert_eq!(store.position_of_type(SensorType::Humidity, None), Some(1));
    assert_eq!(store.position_of_type(SensorType::CO2, None), Some(3));
}

#[test]
fn position_of_type_passes_over_the_excluded_slot() {
    let store = sample_store();
    assert_eq!(store.position_of_type(SensorType::Temperature, Some(0)), Some(2));
    assert_eq!(store.position_of_type(SensorType::Temperature, Some(2)), Some(0));
    assert_eq!(store.position_of_type(SensorType::Temperature, Some(1)), Some(0));
    assert_eq!(store.position_of_type(SensorType::Humidity, Some(1)), None);
}

#[test]
fn position_of_type_tells_slots_apart_not_values() {
    let mut store = BufferStore::new();
    store.push(reading(0, 10, SensorType::Temperature));
    store.push(reading(0, 10, SensorType::Temperature));
    assert_eq!(store.position_of_type(SensorType::Temperature, Some(0)), Some(1));
}

#[test]
fn replace_at_overwrites_one_slot() {
    let mut store = sample_store();
    store.replace_at(1, reading(9, 55, SensorType::Humidity));
    assert_eq!(store.len(), 4);
    assert_eq!(store.get(0), Some(reading(0, 10, SensorType::Temperature)));
    assert_eq!(store.get(1), Some(reading(9, 55, SensorType::Humidity)));
    assert_eq!(store.get(2), Some(reading(2, 20, SensorType::Temperature)));
    assert_eq!(store.get(3), Some(reading(3, 450, SensorType::CO2)));
}

#[test]
fn remove_at_closes_the_gap() {
    let mut store = sample_store();
    assert_eq!(store.remove_at(1), Some(reading(1, 5, SensorType::Humidity)));
    assert_eq!(store.len(), 3);
    assert_eq!(store.get(0), Some(reading(0, 10, SensorType::Temperature)));
    assert_eq!(store.get(1), Some(reading(2, 20, SensorType::Temperature)));
    assert_eq!(store.get(2), Some(reading(3, 450, SensorType::CO2)));
}

#[test]
fn remove_at_beyond_the_end_changes_nothing() {
    let mut store = sample_store();
    assert_eq!(store.remove_at(4), None);
    assert_eq!(store.len(), 4);
}

#[test]
fn sample_total_adds_the_counts_of_one_type() {
    let mut store = sample_store();
    store.push(SensorMessage {
        sequence_number: 4,
        timestamp: 0,
        content: 1,
        sensor_type: SensorType::Temperature,
        sample_count: 40,
    });
    assert_eq!(store.sample_total(SensorType::Temperature), 42);
    assert_eq!(store.sample_total(SensorType::Humidity), 1);
    assert_eq!(BufferStore::new().sample_total(SensorType::CO2), 0);
}

#[test]
fn position_of_finds_the_first_match_of_a_predicate() {
    let store = sample_store();
    assert_eq!(store.position_of(|m: &SensorMessage| m.content >= 20), Some(2));
    assert_eq!(store.position_of(|m: &SensorMessage| m.sensor_type == SensorType::Humidity), Some(1));
    assert_eq!(store.position_of(|m: &SensorMessage| m.content < 0), None);
    assert_eq!(store.position_of(|_m: &SensorMessage| true), Some(0));
}
