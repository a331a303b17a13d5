use logtail::file_watcher::{
    is_log_file, load_folder, plan_read, read_file_entries, read_new_entries, FileWatcher,
    ScannedFile,
};
use logtail::log_store::LogStore;

#[test]
fn log_like_extensions_qualify() {
    assert!(is_log_file("a/b/c.log"));
    assert!(is_log_file("x.jsonl"));
    assert!(is_log_file("deep/dir/file.json"));
    assert!(is_log_file("a..log"));
}

#[test]
fn other_paths_do_not_qualify() {
    assert!(!is_log_file("x.txt"));
    assert!(!is_log_file("noextension"));
    assert!(!is_log_file(".log"));
    assert!(!is_log_file("dir/.json"));
    assert!(!is_log_file("dir.log/file"));
    assert!(!is_log_file("x.LOG"));
    assert!(!is_log_file(""));
}

fn one_line() -> Vec<String> {
    vec![String::from("{\"message\":\"new data\"}")]
}

#[test]
fn second_read_with_no_change_is_empty_and_keeps_offset() {
    let mut store = LogStore::new();
    let first = read_new_entries(&mut store, "a.log", 10, &one_line());
    assert_eq!(first.unwrap().len(), 1);
    assert_eq!(store.get_offset("a.log"), 10);
    let second = read_new_entries(&mut store, "a.log", 10, &Vec::new());
    assert!(second.is_none());
    assert_eq!(store.get_offset("a.log"), 10);
}

#[test]
fn truncated_file_is_reread_from_start() {
    let mut store = LogStore::new();
    store.set_offset("a.log", 100);
    assert_eq!(plan_read(&store, "a.log", 40), Some(0));
    let r = read_new_entries(&mut store, "a.log", 40, &one_line());
    assert_eq!(r.unwrap().len(), 1);
    assert_eq!(store.get_offset("a.log"), 40);
}

#[test]
fn grown_file_is_read_from_stored_offset() {
    let mut store = LogStore::new();
    store.set_offset("a.log", 10);
    assert_eq!(plan_read(&store, "a.log", 25), Some(10));
    assert_eq!(plan_read(&store, "a.log", 10), None);
    assert_eq!(plan_read(&store, "a.log", 3), Some(0));
    assert_eq!(plan_read(&store, "empty.log", 0), None);
}

#[test]
fn racing_detection_paths_deliver_one_batch_only() {
    // The event-driven path and the poll both see the same one-line
    // file; serialized on the store, only the first read delivers.
    let mut store = LogStore::new();
    let event_read = read_new_entries(&mut store, "a.log", 5, &one_line());
    let batch = event_read.unwrap();
    assert_eq!(batch.len(), 1);
    store.append_entries(batch);
    let poll_read = read_new_entries(&mut store, "a.log", 5, &one_line());
    assert!(poll_read.is_none());
    assert_eq!(store.get_all().len(), 1);
}

#[test]
fn blank_lines_produce_no_records() {
    let mut store = LogStore::new();
    let lines = vec![String::from("  "), String::from(""), String::from("real line")];
    let es = read_file_entries(&mut store, "a.log", 21, &lines);
    assert_eq!(es.len(), 1);
    assert_eq!(es[0].message, "real line");
    assert_eq!(store.get_offset("a.log"), 21);
}

#[test]
fn initial_scan_sorts_newest_first() {
    let mut store = LogStore::new();
    let older = String::from(
        "{\"id\":\"a\",\"timestamp\":\"2024-01-01T00:00:00.000Z\",\"level\":\"info\",\
         \"category\":\"state\",\"message\":\"old\",\"thread\":\"main\"}",
    );
    let newer = String::from(
        "{\"id\":\"b\",\"timestamp\":\"2024-01-02T00:00:00.000Z\",\"level\":\"info\",\
         \"category\":\"state\",\"message\":\"new\",\"thread\":\"main\"}",
    );
    let files = vec![
        ScannedFile { path: String::from("old.log"), len: 10, lines: vec![older] },
        ScannedFile { path: String::from("new.log"), len: 12, lines: vec![newer] },
    ];
    let batch = load_folder(&mut store, &files);
    assert_eq!(batch.len(), 2);
    assert_eq!(batch[0].timestamp, "2024-01-02T00:00:00.000Z");
    assert_eq!(batch[1].timestamp, "2024-01-01T00:00:00.000Z");
    assert_eq!(store.get_all().len(), 2);
    assert_eq!(store.get_offset("old.log"), 10);
    assert_eq!(store.get_offset("new.log"), 12);
}

#[test]
fn load_folder_replaces_prior_records_and_offsets() {
    let mut store = LogStore::new();
    store.set_offset("gone.log", 99);
    store.append_entries(vec![
        logtail::log_parser::parse_log_line("{\"level\":\"error\"}").unwrap(),
    ]);
    let batch = load_folder(&mut store, &Vec::new());
    assert!(batch.is_empty());
    assert!(store.get_all().is_empty());
    assert_eq!(store.error_count(), 0);
    assert_eq!(store.get_offset("gone.log"), 0);
}

#[test]
fn watch_session_stops_and_restarts() {
    let mut w = FileWatcher::new();
    assert!(w.start(String::from("/tmp/logs"), true));
    assert!(!w.start(String::from("/bad"), false));
    w.stop();
    w.stop();
    assert!(w.start(String::from("/tmp/other"), true));
}
