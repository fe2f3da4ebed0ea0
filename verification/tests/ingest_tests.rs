use block_hub::api::{ApiResponse, Entry as WireEntry, FinalHash as WireFinalHash};
use block_hub::hub::Hub;
use block_hub::ingest::{CycleInput, IngestState};
use block_hub::models::{Block, Entry, FinalHash};
use block_hub::store::{Store, UpsertOutcome};
use block_hub::window::{Window, WindowError};

fn simple_block(id: u64) -> Block {
    Block {
        block_id: id,
        entries: vec![Entry {
            block_id: "prov".to_string(),
            final_hashes: vec![FinalHash {
                final_hash: "h".to_string(),
                count: 1,
                pubkeys: vec!["p".to_string()],
            }],
        }],
    }
}

#[test]
fn window_rejects_inverted_bounds() {
    assert!(matches!(Window::new(400, 100, 10), Err(WindowError::EmptyWindow)));
}

#[test]
fn window_rejects_zero_step() {
    assert!(matches!(Window::new(1, 5, 0), Err(WindowError::ZeroStep)));
}

#[test]
fn window_cycles_and_fifth_poll_repeats_first() {
    let w = Window::new(100, 400, 100).expect("valid window");
    let mut ingest = IngestState::new(w);
    let mut polled = Vec::new();
    let mut store = Store::new();
    let mut hub = Hub::new(4);
    for _ in 0..5 {
        polled.push(ingest.current_id());
        ingest.cycle(&mut store, &mut hub, CycleInput::TransportFailed);
    }
    assert_eq!(polled, vec![100, 200, 300, 400, 100]);
    assert_eq!(polled[4], polled[0]);
}

#[test]
fn window_wraps_when_step_overshoots_end() {
    let w = Window::new(10, 25, 10).expect("valid window");
    assert_eq!(w.next_id(10), 20);
    assert_eq!(w.next_id(20), 10);
}

#[test]
fn decoded_cycle_stores_and_broadcasts() {
    let w = Window::new(100, 400, 100).expect("valid window");
    let mut ingest = IngestState::new(w);
    let mut store = Store::new();
    let mut hub = Hub::new(4);
    let s = hub.subscribe();
    let raw = "{\"blockId\":100}".to_string();
    let r = ingest.cycle(&mut store, &mut hub, CycleInput::Decoded(simple_block(100), raw));
    assert!(r == Some(UpsertOutcome::Inserted));
    assert_eq!(store.len(), 1);
    assert_eq!(hub.next_event(s), Some("{\"blockId\":100}".to_string()));
    assert_eq!(ingest.current_id(), 200);
}

#[test]
fn transport_failure_touches_nothing_but_cursor() {
    let w = Window::new(100, 400, 100).expect("valid window");
    let mut ingest = IngestState::new(w);
    let mut store = Store::new();
    let mut hub = Hub::new(4);
    let s = hub.subscribe();
    let r = ingest.cycle(&mut store, &mut hub, CycleInput::TransportFailed);
    assert!(r.is_none());
    assert_eq!(store.len(), 0);
    assert_eq!(hub.next_event(s), None);
    assert_eq!(ingest.current_id(), 200);
}

#[test]
fn decode_failure_discards_whole_payload() {
    let w = Window::new(1, 3, 1).expect("valid window");
    let mut ingest = IngestState::new(w);
    let mut store = Store::new();
    let mut hub = Hub::new(4);
    let s = hub.subscribe();
    let r = ingest.cycle(&mut store, &mut hub, CycleInput::DecodeFailed);
    assert!(r.is_none());
    assert_eq!(store.len(), 0);
    assert_eq!(hub.next_event(s), None);
    assert_eq!(ingest.current_id(), 2);
}

#[test]
fn revisiting_an_id_coalesces_but_still_broadcasts() {
    let w = Window::new(100, 100, 1).expect("valid window");
    let mut ingest = IngestState::new(w);
    let mut store = Store::new();
    let mut hub = Hub::new(4);
    let s = hub.subscribe();
    let r1 = ingest.cycle(
        &mut store,
        &mut hub,
        CycleInput::Decoded(simple_block(100), "raw1".to_string()),
    );
    let r2 = ingest.cycle(
        &mut store,
        &mut hub,
        CycleInput::Decoded(simple_block(100), "raw2".to_string()),
    );
    assert!(r1 == Some(UpsertOutcome::Inserted));
    assert!(r2 == Some(UpsertOutcome::AlreadyPresent));
    assert_eq!(store.len(), 1);
    assert_eq!(hub.next_event(s), Some("raw1".to_string()));
    assert_eq!(hub.next_event(s), Some("raw2".to_string()));
}

#[test]
fn wire_document_normalizes_into_canonical_block() {
    let wire = ApiResponse {
        block_id: 100,
        entries: vec![WireEntry {
            block_id: "a".to_string(),
            final_hashes: vec![WireFinalHash {
                final_hash: "h1".to_string(),
                count: 1,
                pubkeys: vec!["p1".to_string(), "p1".to_string(), "p2".to_string()],
            }],
        }],
    };
    let b = wire.into_block();
    assert_eq!(b.block_id, 100);
    assert_eq!(b.entries.len(), 1);
    assert_eq!(b.entries[0].block_id, "a");
    assert_eq!(b.entries[0].final_hashes.len(), 1);
    assert_eq!(b.entries[0].final_hashes[0].final_hash, "h1");
    assert_eq!(b.entries[0].final_hashes[0].count, 1);
    assert_eq!(b.entries[0].final_hashes[0].pubkeys, vec!["p1", "p1", "p2"]);
}
