use block_hub::models::{Block, Entry, FinalHash};
use block_hub::store::{Store, UpsertOutcome};
use block_hub::errors::QueryError;
use block_hub::query::{all_pubkey_counts, block_by_id, pubkey_counts_in_range};

fn hash(h: &str, count: u32, pubkeys: &[&str]) -> FinalHash {
    FinalHash {
        final_hash: h.to_string(),
        count,
        pubkeys: pubkeys.iter().map(|p| p.to_string()).collect(),
    }
}

fn block(id: u64, entries: Vec<Entry>) -> Block {
    Block { block_id: id, entries }
}

fn entry(provenance: &str, hashes: Vec<FinalHash>) -> Entry {
    Entry { block_id: provenance.to_string(), final_hashes: hashes }
}

fn pairs(v: &[(String, u64)]) -> Vec<(&str, u64)> {
    v.iter().map(|(k, c)| (k.as_str(), *c)).collect()
}

#[test]
fn upsert_twice_same_block_keeps_one_record() {
    let mut store = Store::new();
    let first = store.upsert(block(7, vec![entry("a", vec![hash("h", 1, &["p"])])]));
    assert!(first == UpsertOutcome::Inserted);
    let second = store.upsert(block(7, vec![entry("a", vec![hash("h", 1, &["p"])])]));
    assert!(second == UpsertOutcome::AlreadyPresent);
    assert_eq!(store.len(), 1);
}

#[test]
fn upsert_distinct_ids_keeps_both() {
    let mut store = Store::new();
    assert!(store.upsert(block(1, vec![])) == UpsertOutcome::Inserted);
    assert!(store.upsert(block(2, vec![])) == UpsertOutcome::Inserted);
    assert_eq!(store.len(), 2);
}

#[test]
fn get_by_id_finds_stored_block() {
    let mut store = Store::new();
    store.upsert(block(42, vec![entry("prov", vec![])]));
    let found = store.get_by_id(42).expect("block 42 should be stored");
    assert_eq!(found.block_id, 42);
    assert_eq!(found.entries.len(), 1);
    assert_eq!(found.entries[0].block_id, "prov");
}

#[test]
fn get_by_id_missing_is_not_found_not_error() {
    let mut store = Store::new();
    store.upsert(block(1, vec![]));
    assert!(store.get_by_id(999).is_none());
    assert!(block_by_id(&store, 999).is_none());
}

#[test]
fn range_aggregate_counts_each_pubkey_occurrence() {
    let mut store = Store::new();
    store.upsert(block(
        100,
        vec![entry("a", vec![hash("h1", 1, &["p1", "p1", "p2"])])],
    ));
    let got = store.range_aggregate(100, 100).expect("valid range");
    assert_eq!(pairs(&got), vec![("p1", 2), ("p2", 1)]);
}

#[test]
fn range_aggregate_rejects_inverted_range() {
    let mut store = Store::new();
    store.upsert(block(5, vec![entry("a", vec![hash("h", 1, &["p"])])]));
    let got = store.range_aggregate(6, 4);
    assert!(got == Err(QueryError::InvalidRange));
    let got = pubkey_counts_in_range(&store, u64::MAX, 0);
    assert!(got == Err(QueryError::InvalidRange));
}

#[test]
fn range_aggregate_ignores_blocks_outside_range() {
    let mut store = Store::new();
    store.upsert(block(100, vec![entry("a", vec![hash("h1", 1, &["inside"])])]));
    store.upsert(block(200, vec![entry("b", vec![hash("h2", 1, &["outside"])])]));
    let got = store.range_aggregate(100, 150).expect("valid range");
    assert_eq!(pairs(&got), vec![("inside", 1)]);
    let got = store.range_aggregate(150, 250).expect("valid range");
    assert_eq!(pairs(&got), vec![("outside", 1)]);
}

#[test]
fn range_aggregate_empty_when_no_block_in_range() {
    let mut store = Store::new();
    store.upsert(block(100, vec![entry("a", vec![hash("h1", 1, &["p1"])])]));
    let got = store.range_aggregate(300, 400).expect("valid range");
    assert!(got.is_empty());
}

#[test]
fn range_aggregate_orders_by_count_descending() {
    let mut store = Store::new();
    store.upsert(block(
        10,
        vec![entry("a", vec![hash("h1", 1, &["rare", "common", "common"])])],
    ));
    store.upsert(block(11, vec![entry("b", vec![hash("h2", 1, &["common"])])]));
    let got = store.range_aggregate(0, 20).expect("valid range");
    assert_eq!(pairs(&got), vec![("common", 3), ("rare", 1)]);
}

#[test]
fn range_aggregate_breaks_ties_by_first_seen() {
    let mut store = Store::new();
    store.upsert(block(
        1,
        vec![entry("a", vec![hash("h1", 1, &["zeta", "alpha"])])],
    ));
    let got = store.range_aggregate(0, 10).expect("valid range");
    assert_eq!(pairs(&got), vec![("zeta", 1), ("alpha", 1)]);
}

#[test]
fn all_pubkey_counts_covers_full_corpus() {
    let mut store = Store::new();
    store.upsert(block(1, vec![entry("a", vec![hash("h1", 1, &["x", "y"])])]));
    store.upsert(block(
        u64::MAX,
        vec![entry("b", vec![hash("h2", 1, &["y"])])],
    ));
    let got = all_pubkey_counts(&store);
    assert_eq!(pairs(&got), vec![("y", 2), ("x", 1)]);
}

#[test]
fn all_pubkey_counts_empty_store_is_no_data() {
    let store = Store::new();
    assert!(all_pubkey_counts(&store).is_empty());
}

#[test]
fn query_error_messages_are_stable() {
    assert_eq!(
        QueryError::InvalidRange.message(),
        "Invalid range: start_id is greater than end_id"
    );
    assert_eq!(QueryError::Unavailable.message(), "Internal Server Error");
}
