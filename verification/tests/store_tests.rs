use ppg::store::{classify_kind, EventKind, EventStore, StoredNote, METADATA_KIND, TEXT_NOTE_KIND};

fn note(id: &str, author: &str, kind: u16, created_at: u64, content: &str) -> StoredNote {
    StoredNote {
        id: String::from(id),
        author: String::from(author),
        kind,
        created_at,
        content: String::from(content),
    }
}

#[test]
fn empty_store_counts_zero() {
    let store = EventStore::new();
    assert_eq!(store.count(), 0);
    assert_eq!(store.count_kind(TEXT_NOTE_KIND), 0);
}

#[test]
fn put_if_absent_stores_a_new_event_once() {
    let mut store = EventStore::new();
    assert!(store.put_if_absent(note("e1", "alice", TEXT_NOTE_KIND, 100, "hi")));
    assert_eq!(store.count(), 1);
}

#[test]
fn put_if_absent_refuses_a_duplicate_identifier() {
    let mut store = EventStore::new();
    assert!(store.put_if_absent(note("e1", "alice", TEXT_NOTE_KIND, 100, "hi")));
    assert!(!store.put_if_absent(note("e1", "alice", TEXT_NOTE_KIND, 100, "hi")));
    assert_eq!(store.count(), 1);
}

#[test]
fn distinct_identifiers_are_distinct_rows() {
    let mut store = EventStore::new();
    assert!(store.put_if_absent(note("e1", "alice", TEXT_NOTE_KIND, 100, "one")));
    assert!(store.put_if_absent(note("e2", "alice", TEXT_NOTE_KIND, 100, "two")));
    assert_eq!(store.count(), 2);
}

#[test]
fn count_kind_separates_kinds() {
    let mut store = EventStore::new();
    store.put_if_absent(note("e1", "alice", TEXT_NOTE_KIND, 100, "text"));
    store.put_if_absent(note("e2", "alice", METADATA_KIND, 110, "meta"));
    store.put_if_absent(note("e3", "bob", TEXT_NOTE_KIND, 120, "more"));
    assert_eq!(store.count(), 3);
    assert_eq!(store.count_kind(TEXT_NOTE_KIND), 2);
    assert_eq!(store.count_kind(METADATA_KIND), 1);
}

#[test]
fn query_recent_returns_newest_first_whatever_the_arrival_order() {
    let mut store = EventStore::new();
    store.put_if_absent(note("e2", "alice", TEXT_NOTE_KIND, 200, "middle"));
    store.put_if_absent(note("e1", "alice", TEXT_NOTE_KIND, 100, "oldest"));
    store.put_if_absent(note("e3", "alice", TEXT_NOTE_KIND, 300, "newest"));

    let r = store.query_recent(TEXT_NOTE_KIND, 10);
    assert_eq!(r.len(), 3);
    assert_eq!(r[0].created_at, 300);
    assert_eq!(r[1].created_at, 200);
    assert_eq!(r[2].created_at, 100);
    assert_eq!(r[0].content, "newest");
    assert_eq!(r[2].content, "oldest");
}

#[test]
fn query_recent_truncates_to_the_limit_keeping_the_newest() {
    let mut store = EventStore::new();
    store.put_if_absent(note("e1", "alice", TEXT_NOTE_KIND, 100, "oldest"));
    store.put_if_absent(note("e2", "alice", TEXT_NOTE_KIND, 200, "middle"));
    store.put_if_absent(note("e3", "alice", TEXT_NOTE_KIND, 300, "newest"));

    let r = store.query_recent(TEXT_NOTE_KIND, 2);
    assert_eq!(r.len(), 2);
    assert_eq!(r[0].created_at, 300);
    assert_eq!(r[1].created_at, 200);
}

#[test]
fn query_recent_filters_by_kind_and_projects_fields() {
    let mut store = EventStore::new();
    store.put_if_absent(note("e1", "alice", TEXT_NOTE_KIND, 100, "text"));
    store.put_if_absent(note("e2", "bob", METADATA_KIND, 200, "meta"));

    let r = store.query_recent(TEXT_NOTE_KIND, 10);
    assert_eq!(r.len(), 1);
    assert_eq!(r[0].author, "alice");
    assert_eq!(r[0].content, "text");
    assert_eq!(r[0].created_at, 100);
}

#[test]
fn query_recent_with_zero_limit_is_empty() {
    let mut store = EventStore::new();
    store.put_if_absent(note("e1", "alice", TEXT_NOTE_KIND, 100, "text"));
    let r = store.query_recent(TEXT_NOTE_KIND, 0);
    assert_eq!(r.len(), 0);
}

#[test]
fn equal_timestamps_are_all_returned() {
    let mut store = EventStore::new();
    store.put_if_absent(note("e1", "alice", TEXT_NOTE_KIND, 100, "a"));
    store.put_if_absent(note("e2", "bob", TEXT_NOTE_KIND, 100, "b"));
    store.put_if_absent(note("e3", "carol", TEXT_NOTE_KIND, 100, "c"));
    let r = store.query_recent(TEXT_NOTE_KIND, 10);
    assert_eq!(r.len(), 3);
    assert!(r.iter().all(|x| x.created_at == 100));
}

#[test]
fn kind_codes_classify_to_the_enumerated_subset() {
    assert_eq!(classify_kind(TEXT_NOTE_KIND), EventKind::TextNote);
    assert_eq!(classify_kind(METADATA_KIND), EventKind::Metadata);
    assert_eq!(classify_kind(7), EventKind::Other);
    assert_eq!(classify_kind(30023), EventKind::Other);
}
