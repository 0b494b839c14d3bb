use event_log::error::EngineError;
use event_log::identity::Identity;
use event_log::record::Metadata;
use event_log::store::EventStore;

fn entry(tag: u8) -> Metadata {
    Metadata::new(Identity::from_slice(&[tag]), Identity::from_slice(&[100, tag]), vec![tag; 3])
}

fn filled(count: u8) -> EventStore {
    let mut store = EventStore::new();
    for tag in 0..count {
        store.append(entry(tag));
    }
    store
}

#[test]
fn new_store_is_empty() {
    let store = EventStore::new();
    assert_eq!(store.len(), 0);
    assert_eq!(store.tail(10), vec![]);
    assert_eq!(store.get(0).err(), Some(EngineError::IndexCorruption));
}

#[test]
fn append_returns_the_previous_length() {
    let mut store = EventStore::new();
    assert_eq!(store.append(entry(7)), 0);
    assert_eq!(store.len(), 1);
    assert_eq!(store.append(entry(8)), 1);
    assert_eq!(store.append(entry(7)), 2);
    assert_eq!(store.len(), 3);
}

#[test]
fn get_returns_the_record_at_its_position() {
    let store = filled(4);
    assert_eq!(store.get(0), Ok(&entry(0)));
    assert_eq!(store.get(2), Ok(&entry(2)));
    assert_eq!(store.get(3), Ok(&entry(3)));
}

#[test]
fn positions_are_stable_under_later_appends() {
    let mut store = filled(2);
    let before = store.get(1).unwrap().clone();
    store.append(entry(9));
    store.append(entry(10));
    assert_eq!(store.get(1), Ok(&before));
}

#[test]
fn get_outside_the_store_is_index_corruption() {
    let store = filled(4);
    assert_eq!(store.get(4), Err(EngineError::IndexCorruption));
    assert_eq!(store.get(usize::MAX), Err(EngineError::IndexCorruption));
}

#[test]
fn tail_gives_the_last_records_oldest_first() {
    let store = filled(5);
    assert_eq!(store.tail(1), vec![entry(4)]);
    assert_eq!(store.tail(2), vec![entry(3), entry(4)]);
    assert_eq!(store.tail(4), vec![entry(1), entry(2), entry(3), entry(4)]);
}

#[test]
fn tail_gives_everything_when_asked_for_more() {
    let store = filled(3);
    let all = vec![entry(0), entry(1), entry(2)];
    assert_eq!(store.tail(3), all);
    assert_eq!(store.tail(4), all);
    assert_eq!(store.tail(usize::MAX), all);
}

#[test]
fn tail_of_nothing_is_empty() {
    let store = filled(3);
    assert_eq!(store.tail(0), vec![]);
}

#[test]
fn tail_is_not_capped_at_the_page_size() {
    let store = filled(120);
    let recent = store.tail(100);
    assert_eq!(recent.len(), 100);
    assert_eq!(recent[0], entry(20));
    assert_eq!(recent[99], entry(119));
}

#[test]
fn fetch_follows_positions_in_their_order() {
    let store = filled(5);
    assert_eq!(store.fetch(&[3, 3, 0]), Ok(vec![entry(3), entry(3), entry(0)]));
    assert_eq!(store.fetch(&[]), Ok(vec![]));
}

#[test]
fn fetch_fails_on_a_position_outside_the_store() {
    let store = filled(5);
    assert_eq!(store.fetch(&[0, 5]), Err(EngineError::IndexCorruption));
    assert_eq!(store.fetch(&[9, 0]), Err(EngineError::IndexCorruption));
    assert_eq!(EventStore::new().fetch(&[0]), Err(EngineError::IndexCorruption));
}

#[test]
fn records_round_trip_through_a_store() {
    let records = vec![entry(1), entry(2), entry(3)];
    let store = EventStore::from_records(records.clone());
    assert_eq!(store.len(), 3);
    assert_eq!(store.get(1), Ok(&entry(2)));
    assert_eq!(store.into_records(), records);
}
