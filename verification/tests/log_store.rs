use rustlab::log_store::{EntryMeta, LogStore, MAX_DATA_BYTES, MAX_ENTRIES};

#[test]
fn log_store_reads_back_appended_entries() {
    let mut store = LogStore::new();
    assert_eq!(store.len(), 0);
    assert_eq!(store.get(0), None);
    assert_eq!(store.append("hello"), 0);
    assert_eq!(store.append("wörld"), 1);
    assert_eq!(store.append(""), 2);
    assert_eq!(store.get(0), Some("hello"));
    assert_eq!(store.get(1), Some("wörld"));
    assert_eq!(store.get(2), Some(""));
    assert_eq!(store.get(3), None);
    assert_eq!(store.len(), 3);
    assert_eq!(store.used_bytes(), 5 + 6);
}

#[test]
fn log_snapshot_covers_entries_at_the_time() {
    let mut store = LogStore::new();
    store.append("a");
    store.append("b");
    let snap = store.snapshot();
    assert_eq!(snap.get(2), None);
    assert_eq!(snap.get(usize::MAX), None);
}

#[test]
fn log_store_default_has_no_room() {
    let store = LogStore::default();
    assert_eq!(store.len(), 0);
    assert_eq!(store.used_bytes(), 0);
    assert_eq!(store.get(0), None);
}

#[test]
fn log_store_limits() {
    assert_eq!(MAX_ENTRIES, 1_000_000);
    assert_eq!(MAX_DATA_BYTES, 10_000_000);
    let meta = EntryMeta::new(3, 4);
    let copy = meta;
    assert_eq!(format!("{:?}", copy), "EntryMeta { offset: 3, len: 4 }");
}
