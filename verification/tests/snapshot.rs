use event_log::engine::Engine;
use event_log::error::EngineError;
use event_log::identity::Identity;
use event_log::index::IndexEntry;
use event_log::record::Metadata;
use event_log::snapshot::{all_below, entries_valid, Snapshot};
use event_log::state::IndexName;

fn id(text: &str) -> Identity {
    Identity::from_slice(text.as_bytes())
}

fn event(subject: &str, caller: &str, tag: u8) -> Metadata {
    Metadata::new(id(subject), id(caller), vec![tag])
}

fn entry(text: &str, positions: &[usize]) -> IndexEntry {
    IndexEntry { key: id(text), positions: positions.to_vec() }
}

fn sample() -> Engine {
    let mut engine = Engine::new();
    engine.submit(event("x", "a", 0)).unwrap();
    engine.submit(event("y", "a", 1)).unwrap();
    engine.submit(event("x", "b", 2)).unwrap();
    engine
}

fn positions_of<'a>(entries: &'a [IndexEntry], key: &Identity) -> Vec<&'a Vec<usize>> {
    entries.iter().filter(|e| &e.key == key).map(|e| &e.positions).collect()
}

#[test]
fn all_below_checks_every_position() {
    assert!(all_below(&[], 0));
    assert!(all_below(&[0, 1, 2], 3));
    assert!(!all_below(&[0, 3, 2], 3));
    assert!(!all_below(&[0], 0));
    assert!(all_below(&[usize::MAX - 1], usize::MAX));
    assert!(!all_below(&[usize::MAX], usize::MAX));
}

#[test]
fn entries_valid_wants_positions_inside_the_log() {
    assert!(entries_valid(&vec![], 0));
    assert!(entries_valid(&vec![entry("a", &[0, 2]), entry("b", &[1])], 3));
    assert!(!entries_valid(&vec![entry("a", &[0, 3]), entry("b", &[1])], 3));
    assert!(!entries_valid(&vec![entry("a", &[0]), entry("b", &[5])], 3));
}

#[test]
fn entries_valid_wants_a_position_for_every_key() {
    assert!(!entries_valid(&vec![entry("a", &[])], 3));
    assert!(!entries_valid(&vec![entry("a", &[0]), entry("b", &[])], 3));
}

#[test]
fn snapshot_holds_the_log_and_both_indexes() {
    let snapshot = sample().snapshot();
    assert_eq!(snapshot.log, vec![event("x", "a", 0), event("y", "a", 1), event("x", "b", 2)]);
    assert_eq!(snapshot.index_by_subject.len(), 2);
    assert_eq!(snapshot.index_by_caller.len(), 2);
    assert_eq!(positions_of(&snapshot.index_by_subject, &id("x")), vec![&vec![0usize, 2]]);
    assert_eq!(positions_of(&snapshot.index_by_subject, &id("y")), vec![&vec![1usize]]);
    assert_eq!(positions_of(&snapshot.index_by_caller, &id("a")), vec![&vec![0usize, 1]]);
    assert_eq!(positions_of(&snapshot.index_by_caller, &id("b")), vec![&vec![2usize]]);
}

#[test]
fn snapshot_of_an_empty_engine_is_empty_and_restores() {
    let snapshot = Engine::new().snapshot();
    assert!(snapshot.log.is_empty());
    assert!(snapshot.index_by_subject.is_empty());
    assert!(snapshot.index_by_caller.is_empty());
    let engine = Engine::restore(snapshot).unwrap();
    assert_eq!(engine.len(), 0);
    assert_eq!(engine.list_keys(IndexName::Subject), vec![]);
}

#[test]
fn round_trip_keeps_every_answer() {
    let mut engine = Engine::new();
    for k in 0..130u8 {
        let subject = ["x", "y", "z"][(k % 3) as usize];
        let caller = ["a", "b"][(k % 2) as usize];
        engine.submit(event(subject, caller, k)).unwrap();
    }
    let keys = [id("x"), id("y"), id("z"), id("a"), id("b"), id("none")];
    let windows = [(0usize, 50usize), (50, 50), (40, 7), (43, 50), (44, 1), (0, 0), (70, 5)];
    let mut pages = Vec::new();
    let mut recents = Vec::new();
    let mut key_counts = Vec::new();
    for name in [IndexName::Subject, IndexName::Caller] {
        for key in keys.iter() {
            for (offset, limit) in windows {
                pages.push(engine.by_key(name, key, offset, limit));
            }
            recents.push(engine.last_n_by_key(name, key, 60));
        }
        let mut listed: Vec<Vec<u8>> =
            engine.list_keys(name).iter().map(|k| k.as_bytes().to_vec()).collect();
        listed.sort();
        key_counts.push(listed);
    }
    let last = engine.last_n(100);

    let restored = Engine::restore(engine.snapshot()).unwrap();
    let mut page = pages.iter();
    let mut recent = recents.iter();
    let mut listed_before = key_counts.iter();
    for name in [IndexName::Subject, IndexName::Caller] {
        for key in keys.iter() {
            for (offset, limit) in windows {
                assert_eq!(Some(&restored.by_key(name, key, offset, limit)), page.next());
            }
            assert_eq!(Some(&restored.last_n_by_key(name, key, 60)), recent.next());
        }
        let mut listed: Vec<Vec<u8>> =
            restored.list_keys(name).iter().map(|k| k.as_bytes().to_vec()).collect();
        listed.sort();
        assert_eq!(Some(&listed), listed_before.next());
    }
    assert_eq!(restored.last_n(100), last);
    assert_eq!(restored.len(), 130);
}

#[test]
fn restore_does_not_depend_on_the_order_of_entries() {
    let mut snapshot = sample().snapshot();
    snapshot.index_by_subject.reverse();
    snapshot.index_by_caller.reverse();
    let restored = Engine::restore(snapshot).unwrap();
    assert_eq!(
        restored.by_key(IndexName::Subject, &id("x"), 0, 50),
        vec![event("x", "a", 0), event("x", "b", 2)]
    );
    assert_eq!(
        restored.by_key(IndexName::Caller, &id("a"), 0, 50),
        vec![event("x", "a", 0), event("y", "a", 1)]
    );
    assert_eq!(restored.list_keys(IndexName::Subject).len(), 2);
}

#[test]
fn restore_keeps_the_order_of_positions() {
    let snapshot = Snapshot {
        log: vec![event("x", "a", 0), event("x", "a", 1), event("x", "a", 2)],
        index_by_subject: vec![entry("x", &[2, 0, 1])],
        index_by_caller: vec![entry("a", &[1, 1])],
    };
    let restored = Engine::restore(snapshot).unwrap();
    assert_eq!(
        restored.by_key(IndexName::Subject, &id("x"), 0, 50),
        vec![event("x", "a", 2), event("x", "a", 0), event("x", "a", 1)]
    );
    assert_eq!(
        restored.by_key(IndexName::Caller, &id("a"), 0, 50),
        vec![event("x", "a", 1), event("x", "a", 1)]
    );
}

#[test]
fn restore_lets_a_later_entry_replace_an_earlier_one() {
    let snapshot = Snapshot {
        log: vec![event("x", "a", 0), event("x", "a", 1)],
        index_by_subject: vec![entry("x", &[0]), entry("x", &[1])],
        index_by_caller: vec![entry("a", &[0, 1])],
    };
    let restored = Engine::restore(snapshot).unwrap();
    assert_eq!(restored.by_key(IndexName::Subject, &id("x"), 0, 50), vec![event("x", "a", 1)]);
    assert_eq!(restored.list_keys(IndexName::Subject), vec![id("x")]);
}

#[test]
fn restore_fails_on_a_position_outside_the_log() {
    let snapshot = Snapshot {
        log: vec![event("x", "a", 0)],
        index_by_subject: vec![entry("x", &[0, 1])],
        index_by_caller: vec![entry("a", &[0])],
    };
    assert_eq!(Engine::restore(snapshot).err(), Some(EngineError::RestoreFailure));
    let snapshot = Snapshot {
        log: vec![event("x", "a", 0)],
        index_by_subject: vec![entry("x", &[0])],
        index_by_caller: vec![entry("a", &[0]), entry("b", &[7])],
    };
    assert_eq!(Engine::restore(snapshot).err(), Some(EngineError::RestoreFailure));
}

#[test]
fn restore_fails_on_a_truncated_log() {
    let mut snapshot = sample().snapshot();
    snapshot.log.pop();
    assert_eq!(Engine::restore(snapshot).err(), Some(EngineError::RestoreFailure));
}

#[test]
fn restore_fails_on_a_key_without_positions() {
    let snapshot = Snapshot {
        log: vec![event("x", "a", 0)],
        index_by_subject: vec![entry("x", &[0]), entry("y", &[])],
        index_by_caller: vec![entry("a", &[0])],
    };
    assert_eq!(Engine::restore(snapshot).err(), Some(EngineError::RestoreFailure));
}

#[test]
fn restore_fails_even_where_the_bad_entry_would_be_replaced() {
    let snapshot = Snapshot {
        log: vec![event("x", "a", 0)],
        index_by_subject: vec![entry("x", &[9]), entry("x", &[0])],
        index_by_caller: vec![entry("a", &[0])],
    };
    assert_eq!(Engine::restore(snapshot).err(), Some(EngineError::RestoreFailure));
}

#[test]
fn restore_accepts_a_log_without_index_entries() {
    let snapshot = Snapshot {
        log: vec![event("x", "a", 0)],
        index_by_subject: vec![],
        index_by_caller: vec![],
    };
    let restored = Engine::restore(snapshot).unwrap();
    assert_eq!(restored.len(), 1);
    assert_eq!(restored.last_n(5), vec![event("x", "a", 0)]);
    assert_eq!(restored.by_key(IndexName::Subject, &id("x"), 0, 50), vec![]);
}
