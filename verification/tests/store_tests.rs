use libro::entry::{AuditEntry, EventSeverity};
use libro::error::LibroError;
use libro::query::QueryFilter;
use libro::store::{filter_entries, page_of, AuditStore, MemoryStore, StreamCheck};

#[test]
fn load_and_verify_valid() {
    let mut store = MemoryStore::new();
    let e1 = AuditEntry::new(EventSeverity::Info, "s", "a", "{}", "");
    let e2 = AuditEntry::new(EventSeverity::Info, "s", "b", "{}", e1.hash());
    store.append(&e1).unwrap();
    store.append(&e2).unwrap();
    let entries = store.load_and_verify().unwrap();
    assert_eq!(entries.len(), 2);
}

#[test]
fn load_and_verify_corrupted() {
    let mut store = MemoryStore::new();
    let e1 = AuditEntry::new(EventSeverity::Info, "s", "a", "{}", "");
    let e2 = AuditEntry::new(EventSeverity::Info, "s", "b", "{}", "wrong");
    store.append(&e1).unwrap();
    store.append(&e2).unwrap();
    assert!(store.load_and_verify().is_err());
}

#[test]
fn trait_query_default() {
    let mut store = MemoryStore::new();
    let e1 = AuditEntry::new(EventSeverity::Info, "daimon", "start", "{}", "");
    let e2 = AuditEntry::new(EventSeverity::Security, "aegis", "alert", "{}", e1.hash());
    store.append(&e1).unwrap();
    store.append(&e2).unwrap();
    let results = store.query(&QueryFilter::new().source("aegis")).unwrap();
    assert_eq!(results.len(), 1);
    assert_eq!(results[0].source(), "aegis");
}

#[test]
fn load_page_default() {
    let mut store = MemoryStore::new();
    for i in 0..10 {
        let prev = if i == 0 {
            String::new()
        } else {
            store.load_all().unwrap().last().unwrap().hash().to_owned()
        };
        let e = AuditEntry::new(EventSeverity::Info, "s", &format!("e{i}"), "{}", &prev);
        store.append(&e).unwrap();
    }
    let page = store.load_page(3, 3).unwrap();
    assert_eq!(page.len(), 3);
    assert_eq!(page[0].action(), "e3");
    let page = store.load_page(8, 5).unwrap();
    assert_eq!(page.len(), 2);
}

#[test]
fn verify_streamed_valid() {
    let mut store = MemoryStore::new();
    let mut prev = String::new();
    for i in 0..20 {
        let e = AuditEntry::new(EventSeverity::Info, "s", &format!("e{i}"), "{}", &prev);
        prev = e.hash().to_owned();
        store.append(&e).unwrap();
    }
    let total = store.verify_streamed(7).unwrap();
    assert_eq!(total, 20);
}

#[test]
fn verify_streamed_corrupted() {
    let mut store = MemoryStore::new();
    let e1 = AuditEntry::new(EventSeverity::Info, "s", "a", "{}", "");
    let e2 = AuditEntry::new(EventSeverity::Info, "s", "b", "{}", "wrong");
    store.append(&e1).unwrap();
    store.append(&e2).unwrap();
    assert!(store.verify_streamed(1).is_err());
}

#[test]
fn verify_streamed_empty() {
    let store = MemoryStore::new();
    let total = store.verify_streamed(10).unwrap();
    assert_eq!(total, 0);
}

#[test]
fn memory_store() {
    let mut store = MemoryStore::new();
    assert!(store.is_empty());
    let entry = AuditEntry::new(EventSeverity::Info, "src", "act", "{}", "");
    store.append(&entry).unwrap();
    assert_eq!(store.len(), 1);
    let loaded = store.load_all().unwrap();
    assert_eq!(loaded[0].hash(), entry.hash());
}

#[test]
fn verify_streamed_cross_page_link_reports_page_start() {
    let mut store = MemoryStore::new();
    let e1 = AuditEntry::new(EventSeverity::Info, "s", "a", "{}", "");
    let e2 = AuditEntry::new(EventSeverity::Info, "s", "b", "{}", e1.hash());
    let e3 = AuditEntry::new(EventSeverity::Info, "s", "c", "{}", "wrong");
    store.append(&e1).unwrap();
    store.append(&e2).unwrap();
    store.append(&e3).unwrap();
    match store.verify_streamed(2) {
        Err(LibroError::IntegrityViolation { index, expected, actual }) => {
            assert_eq!(index, 2);
            assert_eq!(expected, e2.hash());
            assert_eq!(actual, "wrong");
        }
        other => panic!("unexpected {other:?}"),
    }
}

#[test]
fn verify_streamed_zero_chunk_reads_one_at_a_time() {
    let mut store = MemoryStore::new();
    let e1 = AuditEntry::new(EventSeverity::Info, "s", "a", "{}", "");
    let e2 = AuditEntry::new(EventSeverity::Info, "s", "b", "{}", e1.hash());
    store.append(&e1).unwrap();
    store.append(&e2).unwrap();
    assert_eq!(store.verify_streamed(0).unwrap(), 2);
}

#[test]
fn stream_check_state_machine() {
    let e1 = AuditEntry::new(EventSeverity::Info, "s", "a", "{}", "");
    let e2 = AuditEntry::new(EventSeverity::Info, "s", "b", "{}", e1.hash());
    let mut check = StreamCheck::new(1);
    assert_eq!(check.next_page(), (0, 1));
    assert!(check.feed(&[e1.clone()]).is_ok());
    assert!(!check.is_done());
    assert_eq!(check.next_page(), (1, 1));
    assert!(check.feed(&[e2]).is_ok());
    assert!(check.feed(&[]).is_ok());
    assert!(check.is_done());
    assert_eq!(check.total(), 2);
}

#[test]
fn page_and_filter_helpers() {
    let e1 = AuditEntry::new(EventSeverity::Info, "x", "a", "{}", "");
    let e2 = AuditEntry::new(EventSeverity::Info, "y", "b", "{}", e1.hash());
    let e3 = AuditEntry::new(EventSeverity::Info, "x", "c", "{}", e2.hash());
    let all = vec![e1, e2, e3];
    assert_eq!(page_of(&all, 1, 10).len(), 2);
    assert_eq!(page_of(&all, 3, 1).len(), 0);
    assert_eq!(page_of(&all, 0, 0).len(), 0);
    let xs = filter_entries(all.clone(), &QueryFilter::new().source("x"));
    assert_eq!(xs.len(), 2);
    assert_eq!(xs[1].action(), "c");
}
