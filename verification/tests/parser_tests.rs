use logtail::json::{JsonNum, JsonValue};
use logtail::log_parser::{parse_log_line, LogCategory, LogEntry, LogLevel};

#[test]
fn empty_line_yields_nothing() {
    assert!(parse_log_line("").is_none());
}

#[test]
fn whitespace_line_yields_nothing() {
    assert!(parse_log_line(" \t\r\n  ").is_none());
}

#[test]
fn nonempty_line_always_yields_a_record() {
    assert!(parse_log_line("x").is_some());
    assert!(parse_log_line("{").is_some());
    assert!(parse_log_line("{\"level\":5}").is_some());
    assert!(parse_log_line("[1,2,3]").is_some());
    assert!(parse_log_line("42").is_some());
}

#[test]
fn strict_line_parses_exactly() {
    let line = "{\"id\":\"abc\",\"timestamp\":\"2024-01-01T00:00:00.000Z\",\
                \"level\":\"error\",\"category\":\"network\",\
                \"message\":\"boom\",\"thread\":\"worker\"}";
    let e = parse_log_line(line).unwrap();
    assert_eq!(e.id, "abc");
    assert_eq!(e.timestamp, "2024-01-01T00:00:00.000Z");
    assert_eq!(e.level, LogLevel::Error);
    assert_eq!(e.category, LogCategory::Network);
    assert_eq!(e.message, "boom");
    assert_eq!(e.thread, "worker");
    assert_eq!(e.file, None);
    assert_eq!(e.line, None);
    assert!(e.metadata.is_none());
}

#[test]
fn strict_empty_id_gets_generated() {
    let line = "{\"id\":\"\",\"timestamp\":\"t\",\"level\":\"info\",\
                \"category\":\"ui\",\"message\":\"m\",\"thread\":\"main\"}";
    let e = parse_log_line(line).unwrap();
    assert_eq!(e.id.len(), 36);
}

#[test]
fn salvage_defaults_fill_missing_fields() {
    let e = parse_log_line("{\"message\":\"hi\"}").unwrap();
    assert_eq!(e.id.len(), 36);
    assert!(!e.timestamp.is_empty());
    assert_eq!(e.level, LogLevel::Info);
    assert_eq!(e.category, LogCategory::State);
    assert_eq!(e.message, "hi");
    assert_eq!(e.thread, "main");
}

#[test]
fn salvage_missing_message_gets_placeholder() {
    let e = parse_log_line("{\"level\":\"debug\"}").unwrap();
    assert_eq!(e.message, "(no message)");
    assert_eq!(e.level, LogLevel::Debug);
}

#[test]
fn salvage_levels_are_case_insensitive() {
    let e = parse_log_line("{\"level\":\"WARN\"}").unwrap();
    assert_eq!(e.level, LogLevel::Warning);
    let e = parse_log_line("{\"level\":\"Warning\"}").unwrap();
    assert_eq!(e.level, LogLevel::Warning);
    let e = parse_log_line("{\"level\":\"FATAL\"}").unwrap();
    assert_eq!(e.level, LogLevel::Critical);
    let e = parse_log_line("{\"level\":\"CrItIcAl\"}").unwrap();
    assert_eq!(e.level, LogLevel::Critical);
    let e = parse_log_line("{\"level\":\"nonsense\"}").unwrap();
    assert_eq!(e.level, LogLevel::Info);
}

#[test]
fn salvage_categories_are_case_insensitive() {
    let e = parse_log_line("{\"category\":\"NETWORK\"}").unwrap();
    assert_eq!(e.category, LogCategory::Network);
    let e = parse_log_line("{\"category\":\"Ui\"}").unwrap();
    assert_eq!(e.category, LogCategory::Ui);
    let e = parse_log_line("{\"category\":\"background\"}").unwrap();
    assert_eq!(e.category, LogCategory::Background);
    let e = parse_log_line("{\"category\":\"weird\"}").unwrap();
    assert_eq!(e.category, LogCategory::State);
}

#[test]
fn strict_rejects_odd_level_and_salvage_takes_over() {
    // "WARN" is not a structured level token, so the structured tier
    // fails and the tolerant tier maps it case-insensitively.
    let line = "{\"id\":\"abc\",\"timestamp\":\"t\",\"level\":\"WARN\",\
                \"category\":\"ui\",\"message\":\"m\",\"thread\":\"x\"}";
    let e = parse_log_line(line).unwrap();
    assert_eq!(e.level, LogLevel::Warning);
    assert_eq!(e.id, "abc");
}

#[test]
fn salvage_line_number_comes_from_integers_only() {
    let e = parse_log_line("{\"line\":17}").unwrap();
    assert_eq!(e.line, Some(17));
    let e = parse_log_line("{\"line\":\"17\"}").unwrap();
    assert_eq!(e.line, None);
    let e = parse_log_line("{\"line\":-3}").unwrap();
    assert_eq!(e.line, None);
    let e = parse_log_line("{\"line\":2.5}").unwrap();
    assert_eq!(e.line, None);
}

#[test]
fn salvage_line_number_truncates_to_32_bits() {
    // 2^32 + 7 truncates to the low 32 bits in the tolerant tier.
    let e = parse_log_line("{\"line\":4294967303}").unwrap();
    assert_eq!(e.line, Some(7));
}

#[test]
fn plain_text_line_is_wrapped_verbatim() {
    let e = parse_log_line("  plain text here  ").unwrap();
    assert_eq!(e.message, "plain text here");
    assert_eq!(e.level, LogLevel::Info);
    assert_eq!(e.category, LogCategory::State);
    assert_eq!(e.thread, "main");
    assert_eq!(e.id.len(), 36);
    assert!(!e.timestamp.is_empty());
    assert!(e.metadata.is_none());
}

#[test]
fn non_object_json_is_wrapped_as_text() {
    let e = parse_log_line("[1,2]").unwrap();
    assert_eq!(e.message, "[1,2]");
    let e = parse_log_line("\"hello\"").unwrap();
    assert_eq!(e.message, "\"hello\"");
}

#[test]
fn metadata_is_carried_through() {
    let e = parse_log_line("{\"metadata\":{\"k\":1,\"b\":true}}").unwrap();
    let md = e.metadata.unwrap();
    // serde_json hands object members out in key order.
    assert_eq!(md.len(), 2);
    assert_eq!(md[0].0, "b");
    assert_eq!(md[0].1, JsonValue::Bool(true));
    assert_eq!(md[1].0, "k");
    assert_eq!(md[1].1, JsonValue::Num(JsonNum::UInt(1)));
}

#[test]
fn invalid_network_details_are_dropped_not_fatal() {
    let e = parse_log_line("{\"message\":\"m\",\"networkDetails\":{\"url\":\"u\"}}").unwrap();
    assert!(e.network_details.is_none());
    assert_eq!(e.message, "m");
}

#[test]
fn valid_network_details_are_kept() {
    let line = "{\"networkDetails\":{\"url\":\"https://x\",\"method\":\"GET\",\
                \"statusCode\":200,\"duration\":1.5,\
                \"requestHeaders\":{\"a\":\"b\"}}}";
    let e = parse_log_line(line).unwrap();
    let d = e.network_details.unwrap();
    assert_eq!(d.url, "https://x");
    assert_eq!(d.method, "GET");
    assert_eq!(d.status_code, 200);
    assert_eq!(d.duration, JsonNum::Other(String::from("1.5")));
    assert_eq!(d.request_headers.unwrap(), vec![(String::from("a"), String::from("b"))]);
    assert!(d.request_body.is_none());
}

#[test]
fn network_details_status_code_must_fit() {
    let line = "{\"networkDetails\":{\"url\":\"u\",\"method\":\"m\",\
                \"statusCode\":70000,\"duration\":1}}";
    let e = parse_log_line(line).unwrap();
    assert!(e.network_details.is_none());
}

#[test]
fn performance_details_are_kept_and_checked() {
    let good = "{\"performanceDetails\":{\"startTime\":1,\"endTime\":2,\"duration\":1}}";
    let e = parse_log_line(good).unwrap();
    let d = e.performance_details.unwrap();
    assert_eq!(d.start_time, JsonNum::UInt(1));
    assert_eq!(d.memory_delta, None);

    let bad = "{\"performanceDetails\":{\"startTime\":1}}";
    let e = parse_log_line(bad).unwrap();
    assert!(e.performance_details.is_none());
}

fn full_record_value() -> serde_json::Value {
    let mut net = serde_json::Map::new();
    net.insert("url".into(), serde_json::Value::String("https://api".into()));
    net.insert("method".into(), serde_json::Value::String("POST".into()));
    net.insert("statusCode".into(), serde_json::Value::Number(serde_json::Number::from(201u16)));
    net.insert(
        "duration".into(),
        serde_json::Value::Number(serde_json::Number::from_f64(2.5).unwrap()),
    );
    let mut headers = serde_json::Map::new();
    headers.insert("accept".into(), serde_json::Value::String("json".into()));
    net.insert("requestHeaders".into(), serde_json::Value::Object(headers));

    let mut perf = serde_json::Map::new();
    perf.insert("startTime".into(), serde_json::Value::Number(serde_json::Number::from(1u32)));
    perf.insert("endTime".into(), serde_json::Value::Number(serde_json::Number::from(3u32)));
    perf.insert("duration".into(), serde_json::Value::Number(serde_json::Number::from(2u32)));

    let mut md = serde_json::Map::new();
    md.insert("key".into(), serde_json::Value::String("value".into()));

    let mut o = serde_json::Map::new();
    o.insert("id".into(), serde_json::Value::String("id-1".into()));
    o.insert("timestamp".into(), serde_json::Value::String("2024-01-01T00:00:00.000Z".into()));
    o.insert("level".into(), serde_json::Value::String("critical".into()));
    o.insert("category".into(), serde_json::Value::String("performance".into()));
    o.insert("message".into(), serde_json::Value::String("slow".into()));
    o.insert("thread".into(), serde_json::Value::String("bg".into()));
    o.insert("file".into(), serde_json::Value::String("a.rs".into()));
    o.insert("function".into(), serde_json::Value::String("run".into()));
    o.insert("line".into(), serde_json::Value::Number(serde_json::Number::from(42u32)));
    o.insert("queueLabel".into(), serde_json::Value::String("q".into()));
    o.insert("metadata".into(), serde_json::Value::Object(md));
    o.insert("networkDetails".into(), serde_json::Value::Object(net));
    o.insert("performanceDetails".into(), serde_json::Value::Object(perf));
    serde_json::Value::Object(o)
}

#[test]
fn serialized_full_record_round_trips() {
    let line = full_record_value().to_string();
    let e = parse_log_line(&line).unwrap();
    let expected = LogEntry {
        id: "id-1".into(),
        timestamp: "2024-01-01T00:00:00.000Z".into(),
        level: LogLevel::Critical,
        category: LogCategory::Performance,
        message: "slow".into(),
        thread: "bg".into(),
        file: Some("a.rs".into()),
        function_name: Some("run".into()),
        line: Some(42),
        queue_label: Some("q".into()),
        metadata: Some(vec![("key".into(), JsonValue::Str("value".into()))]),
        network_details: Some(logtail::log_parser::NetworkDetails {
            url: "https://api".into(),
            method: "POST".into(),
            status_code: 201,
            duration: JsonNum::Other("2.5".into()),
            request_headers: Some(vec![("accept".into(), "json".into())]),
            request_body: None,
            response_body: None,
        }),
        performance_details: Some(logtail::log_parser::PerformanceDetails {
            start_time: JsonNum::UInt(1),
            end_time: JsonNum::UInt(3),
            duration: JsonNum::UInt(2),
            memory_delta: None,
        }),
    };
    assert_eq!(e, expected);
}

#[test]
fn round_trip_generates_id_only_when_empty() {
    let mut v = full_record_value();
    v.as_object_mut().unwrap().insert("id".into(), serde_json::Value::String("".into()));
    let line = v.to_string();
    let e = parse_log_line(&line).unwrap();
    assert_eq!(e.id.len(), 36);
    assert_eq!(e.message, "slow");
}
