use whois_ingest::store::MemoryStore;
use whois_ingest::whois::WhoIsRecord;

fn records(rows: &[(u32, &str, &str)]) -> Vec<WhoIsRecord> {
    let mut text = String::from("num,domain_name,domain_keyword,domain_tld,query_time,registrar_name\n");
    for (num, name, registrar) in rows {
        text.push_str(&format!("{},{},k,t,now,{}\n", num, name, registrar));
    }
    WhoIsRecord::from_buffer(&text).unwrap()
}

#[test]
fn new_store_is_empty() {
    let store = MemoryStore::new();
    assert_eq!(store.len(), 0);
    assert!(store.get("a.org").is_none());
    assert!(store.names().is_empty());
}

#[test]
fn upsert_inserts_then_replaces() {
    let mut store = MemoryStore::new();
    let batch = records(&[(1, "a.org", "first"), (2, "b.org", "other"), (3, "a.org", "second")]);
    store.upsert(batch[0].clone());
    store.upsert(batch[1].clone());
    assert_eq!(store.len(), 2);
    assert_eq!(store.get("a.org"), Some(&batch[0]));
    store.upsert(batch[2].clone());
    assert_eq!(store.len(), 2);
    assert_eq!(store.get("a.org"), Some(&batch[2]));
    assert_eq!(store.get("b.org"), Some(&batch[1]));
    assert_eq!(store.names(), vec!["a.org".to_string(), "b.org".to_string()]);
}

#[test]
fn later_record_of_a_batch_wins() {
    let mut store = MemoryStore::new();
    let batch = records(&[(1, "a.org", "first"), (2, "a.org", "second")]);
    store.apply(&batch);
    assert_eq!(store.len(), 1);
    assert_eq!(store.get("a.org").unwrap().registrar_name.as_deref(), Some("second"));
    assert_eq!(store.get("a.org").unwrap().num, 2);
}

#[test]
fn ingesting_twice_is_ingesting_once() {
    let file = records(&[(1, "a.org", "r1"), (2, "b.org", "r2"), (3, "c.org", "r3"), (4, "b.org", "r4")]);
    let mut once = MemoryStore::new();
    once.apply(&file);
    let mut twice = MemoryStore::new();
    twice.apply(&file);
    twice.apply(&file);
    assert_eq!(once.len(), 3);
    assert_eq!(twice.len(), 3);
    for name in ["a.org", "b.org", "c.org"] {
        assert_eq!(once.get(name), twice.get(name));
    }
    assert_eq!(twice.get("b.org").unwrap().registrar_name.as_deref(), Some("r4"));
}

#[test]
fn newer_ingestion_replaces_attributes() {
    let mut store = MemoryStore::new();
    store.apply(&records(&[(1, "a.org", "old"), (2, "b.org", "kept")]));
    store.apply(&records(&[(7, "a.org", "")]));
    assert_eq!(store.len(), 2);
    assert_eq!(store.get("a.org").unwrap().registrar_name, None);
    assert_eq!(store.get("a.org").unwrap().num, 7);
    assert_eq!(store.get("b.org").unwrap().registrar_name.as_deref(), Some("kept"));
}

#[test]
fn applying_no_records_changes_nothing() {
    let mut store = MemoryStore::new();
    store.apply(&records(&[(1, "a.org", "r")]));
    store.apply(&Vec::new());
    assert_eq!(store.len(), 1);
}
