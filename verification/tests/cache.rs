use shikigami::cache::{CommitCache, DiffStore, CAP};
use shikigami::jj::DiffFile;

fn empty_entry() -> CommitCache {
    CommitCache::new(Vec::new(), String::new())
}

#[test]
fn lru_evicts_the_least_recently_used_entry_past_capacity() {
    let mut store = DiffStore::default();
    for i in 0..CAP {
        store.insert(format!("c{i}"), CommitCache::new(Vec::new(), String::new()));
    }
    store.touch("c0");
    store.insert("overflow".to_string(), CommitCache::new(Vec::new(), String::new()));
    assert!(store.contains("c0"));
    assert!(!store.contains("c1"));
    assert!(store.contains("overflow"));
}

#[test]
fn save_then_load_round_trips_entries_and_lru_order() {
    // What `save` writes is `entries()`, oldest first; `load` rebuilds the
    // store from it with `from_entries`.
    let mut store = DiffStore::default();
    let mut entry = CommitCache::new(
        vec![DiffFile { status: 'M', path: "a.txt".to_string() }],
        "header\n".to_string(),
    );
    entry.set_diff_raw(Some("a.txt".to_string()), "diff\n".to_string());
    entry.set_diff_raw(None, "whole change diff\n".to_string());
    store.insert("abc123".to_string(), entry);
    store.insert("def456".to_string(), empty_entry());
    store.touch("abc123");

    let saved: Vec<(String, CommitCache)> = store.entries().to_vec();
    let loaded = DiffStore::from_entries(saved);
    let ids: Vec<&str> = loaded.entries().iter().map(|(id, _)| id.as_str()).collect();
    assert_eq!(ids, vec!["def456", "abc123"]);
    let got = loaded.get("abc123").expect("entry survived the round trip");
    assert_eq!(got.files, vec![DiffFile { status: 'M', path: "a.txt".to_string() }]);
    assert_eq!(got.header_raw, "header\n");
    assert_eq!(got.diff_raw(Some("a.txt")).map(String::as_str), Some("diff\n"));
    assert_eq!(got.diff_raw(None).map(String::as_str), Some("whole change diff\n"));
}

#[test]
fn insert_then_get_gives_the_entry_back() {
    let mut store = DiffStore::default();
    store.insert("k".to_string(), CommitCache::new(Vec::new(), "h".to_string()));
    assert_eq!(store.get("k").unwrap().header_raw, "h");
    assert!(store.get("missing").is_none());
}

#[test]
fn inserting_an_existing_key_replaces_it_without_growing() {
    let mut store = DiffStore::default();
    store.insert("k".to_string(), CommitCache::new(Vec::new(), "old".to_string()));
    store.insert("j".to_string(), empty_entry());
    store.insert("k".to_string(), CommitCache::new(Vec::new(), "new".to_string()));
    assert_eq!(store.entries().len(), 2);
    assert_eq!(store.get("k").unwrap().header_raw, "new");
    // `k` is now the most recently used.
    assert_eq!(store.entries()[1].0, "k");
}

#[test]
fn store_never_exceeds_capacity() {
    let mut store = DiffStore::default();
    for i in 0..(CAP + 25) {
        store.insert(format!("c{i}"), empty_entry());
    }
    assert_eq!(store.entries().len(), CAP);
    assert!(!store.contains("c24"));
    assert!(store.contains("c25"));
}

#[test]
fn touch_of_a_missing_key_changes_nothing() {
    let mut store = DiffStore::default();
    store.insert("a".to_string(), empty_entry());
    store.touch("zzz");
    assert_eq!(store.entries().len(), 1);
    assert!(!store.contains("zzz"));
}

#[test]
fn forget_removes_one_entry() {
    let mut store = DiffStore::default();
    store.insert("a".to_string(), empty_entry());
    store.insert("b".to_string(), empty_entry());
    store.forget("a");
    assert!(!store.contains("a"));
    assert!(store.contains("b"));
    assert_eq!(store.entries().len(), 1);
}

#[test]
fn get_mut_edits_in_place() {
    let mut store = DiffStore::default();
    store.insert("a".to_string(), empty_entry());
    store.get_mut("a").unwrap().set_diff_raw(None, "d".to_string());
    assert_eq!(store.get("a").unwrap().diff_raw(None).map(String::as_str), Some("d"));
    assert!(store.get_mut("b").is_none());
}

#[test]
fn a_path_cached_twice_finds_the_later_diff() {
    // As a map built from the pairs in order would keep it.
    let mut entry = CommitCache::new(Vec::new(), String::new());
    entry.diffs_raw = vec![
        (Some("a".to_string()), "first".to_string()),
        (None, "whole".to_string()),
        (Some("a".to_string()), "second".to_string()),
    ];
    assert_eq!(entry.diff_raw(Some("a")).map(String::as_str), Some("second"));
    entry.set_diff_raw(Some("a".to_string()), "third".to_string());
    assert_eq!(entry.diff_raw(Some("a")).map(String::as_str), Some("third"));
    assert_eq!(entry.diff_raw(None).map(String::as_str), Some("whole"));
    assert_eq!(entry.diffs_raw.len(), 3);
}

#[test]
fn inserting_twice_is_inserting_once() {
    let mut once = DiffStore::default();
    once.insert("a".to_string(), empty_entry());
    once.insert("b".to_string(), CommitCache::new(Vec::new(), "h".to_string()));
    let mut twice = DiffStore::default();
    twice.insert("a".to_string(), empty_entry());
    twice.insert("b".to_string(), CommitCache::new(Vec::new(), "h".to_string()));
    twice.insert("b".to_string(), CommitCache::new(Vec::new(), "h".to_string()));
    let ids = |s: &DiffStore| s.entries().iter().map(|(id, e)| (id.clone(), e.header_raw.clone())).collect::<Vec<_>>();
    assert_eq!(ids(&once), ids(&twice));
}

#[test]
fn touch_keeps_the_order_of_the_others() {
    let mut store = DiffStore::default();
    for id in ["a", "b", "c", "d"] {
        store.insert(id.to_string(), empty_entry());
    }
    store.touch("b");
    let ids: Vec<&str> = store.entries().iter().map(|(id, _)| id.as_str()).collect();
    assert_eq!(ids, vec!["a", "c", "d", "b"]);
}
