use logtail::log_parser::{parse_log_line, LogLevel};
use logtail::log_store::LogStore;

fn record_with_level(level: &str) -> logtail::log_parser::LogEntry {
    parse_log_line(&format!("{{\"level\":\"{}\",\"message\":\"m\"}}", level)).unwrap()
}

#[test]
fn error_and_critical_records_raise_the_counter() {
    let mut store = LogStore::new();
    assert_eq!(store.error_count(), 0);
    let batch = vec![
        record_with_level("error"),
        record_with_level("info"),
        record_with_level("error"),
        record_with_level("critical"),
    ];
    store.append_entries(batch);
    assert_eq!(store.error_count(), 3);
    assert_eq!(store.get_all().len(), 4);
}

#[test]
fn clear_resets_records_and_counter_but_not_offsets() {
    let mut store = LogStore::new();
    store.set_offset("a.log", 7);
    store.append_entries(vec![record_with_level("critical")]);
    assert_eq!(store.error_count(), 1);
    store.clear();
    assert_eq!(store.error_count(), 0);
    assert!(store.get_all().is_empty());
    assert_eq!(store.get_offset("a.log"), 7);
}

#[test]
fn offsets_default_to_zero_and_update_per_file() {
    let mut store = LogStore::new();
    assert_eq!(store.get_offset("a.log"), 0);
    store.set_offset("a.log", 10);
    store.set_offset("b.log", 20);
    assert_eq!(store.get_offset("a.log"), 10);
    assert_eq!(store.get_offset("b.log"), 20);
    store.set_offset("a.log", 15);
    assert_eq!(store.get_offset("a.log"), 15);
    assert_eq!(store.get_offset("b.log"), 20);
    store.clear_offsets();
    assert_eq!(store.get_offset("a.log"), 0);
    assert_eq!(store.get_offset("b.log"), 0);
}

#[test]
fn get_all_returns_records_in_insertion_order() {
    let mut store = LogStore::new();
    let a = parse_log_line("{\"message\":\"first\"}").unwrap();
    let b = parse_log_line("{\"message\":\"second\"}").unwrap();
    store.append_entries(vec![a, b]);
    let all = store.get_all();
    assert_eq!(all[0].message, "first");
    assert_eq!(all[1].message, "second");
    assert_eq!(all[0].level, LogLevel::Info);
}
