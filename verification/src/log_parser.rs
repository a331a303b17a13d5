//! The tolerant line parser. A line is tried as a fully structured
//! record first, then salvaged field by field if it is a JSON object of
//! another shape, and finally wrapped verbatim as a plain-text record;
//! only empty or all-whitespace lines produce nothing.

use vstd::prelude::*;

use crate::json::{spec_lookup, JsonNum, JsonNumV, JsonValV, JsonValue};
use crate::json::{clone_json, json_of, lookup, parse_json_text};
use crate::json::{clone_members, lemma_obj_deep_view};
use vstd::string::StringExecFns;
use crate::text::{chars_vec, eq_ignore_ascii_case, eq_ignore_ascii_case_spec, str_eq};
use crate::text::{string_from_chars, trim_chars, trim_spec};

verus! {

/// Severity of a record.
#[derive(PartialEq, Eq, Structural, Clone, Copy, Debug)]
pub enum LogLevel {
    Debug,
    Info,
    Warning,
    Error,
    Critical,
}

/// Subsystem a record belongs to.
#[derive(PartialEq, Eq, Structural, Clone, Copy, Debug)]
pub enum LogCategory {
    Network,
    Ui,
    Performance,
    State,
    Background,
}

/// Details of a network request attached to a record.
#[derive(PartialEq, Eq, Debug)]
pub struct NetworkDetails {
    pub url: String,
    pub method: String,
    pub status_code: u16,
    pub duration: JsonNum,
    pub request_headers: Option<Vec<(String, String)>>,
    pub request_body: Option<JsonValue>,
    pub response_body: Option<JsonValue>,
}

/// Timing details attached to a record.
#[derive(PartialEq, Eq, Debug)]
pub struct PerformanceDetails {
    pub start_time: JsonNum,
    pub end_time: JsonNum,
    pub duration: JsonNum,
    pub memory_delta: Option<JsonNum>,
}

/// One parsed log record.
#[derive(PartialEq, Eq, Debug)]
pub struct LogEntry {
    pub id: String,
    pub timestamp: String,
    pub level: LogLevel,
    pub category: LogCategory,
    pub message: String,
    pub thread: String,
    pub file: Option<String>,
    pub function_name: Option<String>,
    pub line: Option<u32>,
    pub queue_label: Option<String>,
    pub metadata: Option<Vec<(String, JsonValue)>>,
    pub network_details: Option<NetworkDetails>,
    pub performance_details: Option<PerformanceDetails>,
}

/// Mathematical model of `NetworkDetails`.
#[verifier::ext_equal]
pub ghost struct NetworkDetailsV {
    pub url: Seq<char>,
    pub method: Seq<char>,
    pub status_code: u16,
    pub duration: JsonNumV,
    pub request_headers: Option<Seq<(Seq<char>, Seq<char>)>>,
    pub request_body: Option<JsonValV>,
    pub response_body: Option<JsonValV>,
}

/// Mathematical model of `PerformanceDetails`.
#[verifier::ext_equal]
pub ghost struct PerformanceDetailsV {
    pub start_time: JsonNumV,
    pub end_time: JsonNumV,
    pub duration: JsonNumV,
    pub memory_delta: Option<JsonNumV>,
}

/// Mathematical model of `LogEntry`.
#[verifier::ext_equal]
pub ghost struct LogEntryV {
    pub id: Seq<char>,
    pub timestamp: Seq<char>,
    pub level: LogLevel,
    pub category: LogCategory,
    pub message: Seq<char>,
    pub thread: Seq<char>,
    pub file: Option<Seq<char>>,
    pub function_name: Option<Seq<char>>,
    pub line: Option<u32>,
    pub queue_label: Option<Seq<char>>,
    pub metadata: Option<Seq<(Seq<char>, JsonValV)>>,
    pub network_details: Option<NetworkDetailsV>,
    pub performance_details: Option<PerformanceDetailsV>,
}

impl DeepView for NetworkDetails {
    type V = NetworkDetailsV;

    open spec fn deep_view(&self) -> NetworkDetailsV {
        NetworkDetailsV {
            url: self.url@,
            method: self.method@,
            status_code: self.status_code,
            duration: self.duration.deep_view(),
            request_headers: self.request_headers.deep_view(),
            request_body: self.request_body.deep_view(),
            response_body: self.response_body.deep_view(),
        }
    }
}

impl DeepView for PerformanceDetails {
    type V = PerformanceDetailsV;

    open spec fn deep_view(&self) -> PerformanceDetailsV {
        PerformanceDetailsV {
            start_time: self.start_time.deep_view(),
            end_time: self.end_time.deep_view(),
            duration: self.duration.deep_view(),
            memory_delta: self.memory_delta.deep_view(),
        }
    }
}

impl DeepView for LogEntry {
    type V = LogEntryV;

    open spec fn deep_view(&self) -> LogEntryV {
        LogEntryV {
            id: self.id@,
            timestamp: self.timestamp@,
            level: self.level,
            category: self.category,
            message: self.message@,
            thread: self.thread@,
            file: self.file.deep_view(),
            function_name: self.function_name.deep_view(),
            line: self.line,
            queue_label: self.queue_label.deep_view(),
            metadata: self.metadata.deep_view(),
            network_details: self.network_details.deep_view(),
            performance_details: self.performance_details.deep_view(),
        }
    }
}

/// The token a level is written as in a structured record.
pub open spec fn level_token(l: LogLevel) -> Seq<char> {
    match l {
        LogLevel::Debug => "debug"@,
        LogLevel::Info => "info"@,
        LogLevel::Warning => "warning"@,
        LogLevel::Error => "error"@,
        LogLevel::Critical => "critical"@,
    }
}

/// The token a category is written as in a structured record.
pub open spec fn category_token(c: LogCategory) -> Seq<char> {
    match c {
        LogCategory::Network => "network"@,
        LogCategory::Ui => "ui"@,
        LogCategory::Performance => "performance"@,
        LogCategory::State => "state"@,
        LogCategory::Background => "background"@,
    }
}

/// Strict reading of a level token: the exact lower-case token only.
pub open spec fn level_strict(s: Seq<char>) -> Option<LogLevel> {
    if s == "debug"@ {
        Some(LogLevel::Debug)
    } else if s == "info"@ {
        Some(LogLevel::Info)
    } else if s == "warning"@ {
        Some(LogLevel::Warning)
    } else if s == "error"@ {
        Some(LogLevel::Error)
    } else if s == "critical"@ {
        Some(LogLevel::Critical)
    } else {
        None
    }
}

/// Strict reading of a category token.
pub open spec fn category_strict(s: Seq<char>) -> Option<LogCategory> {
    if s == "network"@ {
        Some(LogCategory::Network)
    } else if s == "ui"@ {
        Some(LogCategory::Ui)
    } else if s == "performance"@ {
        Some(LogCategory::Performance)
    } else if s == "state"@ {
        Some(LogCategory::State)
    } else if s == "background"@ {
        Some(LogCategory::Background)
    } else {
        None
    }
}

/// Tolerant reading of a level token: known tokens are matched without
/// regard to ASCII case, anything else falls back to `Info`.
pub open spec fn level_of_token(s: Seq<char>) -> LogLevel {
    if eq_ignore_ascii_case_spec(s, "debug"@) {
        LogLevel::Debug
    } else if eq_ignore_ascii_case_spec(s, "info"@) {
        LogLevel::Info
    } else if eq_ignore_ascii_case_spec(s, "warning"@) || eq_ignore_ascii_case_spec(s, "warn"@) {
        LogLevel::Warning
    } else if eq_ignore_ascii_case_spec(s, "error"@) {
        LogLevel::Error
    } else if eq_ignore_ascii_case_spec(s, "critical"@) || eq_ignore_ascii_case_spec(s, "fatal"@) {
        LogLevel::Critical
    } else {
        LogLevel::Info
    }
}

/// Tolerant reading of a category token; anything unknown is `State`.
pub open spec fn category_of_token(s: Seq<char>) -> LogCategory {
    if eq_ignore_ascii_case_spec(s, "network"@) {
        LogCategory::Network
    } else if eq_ignore_ascii_case_spec(s, "ui"@) {
        LogCategory::Ui
    } else if eq_ignore_ascii_case_spec(s, "performance"@) {
        LogCategory::Performance
    } else if eq_ignore_ascii_case_spec(s, "state"@) {
        LogCategory::State
    } else if eq_ignore_ascii_case_spec(s, "background"@) {
        LogCategory::Background
    } else {
        LogCategory::State
    }
}

/// Reads a level token strictly.
pub fn level_strict_exec(s: &str) -> (r: Option<LogLevel>)
    ensures
        r == level_strict(s@),
{
    if str_eq(s, "debug") {
        Some(LogLevel::Debug)
    } else if str_eq(s, "info") {
        Some(LogLevel::Info)
    } else if str_eq(s, "warning") {
        Some(LogLevel::Warning)
    } else if str_eq(s, "error") {
        Some(LogLevel::Error)
    } else if str_eq(s, "critical") {
        Some(LogLevel::Critical)
    } else {
        None
    }
}

/// Reads a category token strictly.
pub fn category_strict_exec(s: &str) -> (r: Option<LogCategory>)
    ensures
        r == category_strict(s@),
{
    if str_eq(s, "network") {
        Some(LogCategory::Network)
    } else if str_eq(s, "ui") {
        Some(LogCategory::Ui)
    } else if str_eq(s, "performance") {
        Some(LogCategory::Performance)
    } else if str_eq(s, "state") {
        Some(LogCategory::State)
    } else if str_eq(s, "background") {
        Some(LogCategory::Background)
    } else {
        None
    }
}

/// Reads a level token tolerantly.
pub fn level_of_token_exec(s: &str) -> (r: LogLevel)
    ensures
        r == level_of_token(s@),
{
    let v = chars_vec(s);
    if eq_ignore_ascii_case(&v, &chars_vec("debug")) {
        LogLevel::Debug
    } else if eq_ignore_ascii_case(&v, &chars_vec("info")) {
        LogLevel::Info
    } else if eq_ignore_ascii_case(&v, &chars_vec("warning")) || eq_ignore_ascii_case(
        &v,
        &chars_vec("warn"),
    ) {
        LogLevel::Warning
    } else if eq_ignore_ascii_case(&v, &chars_vec("error")) {
        LogLevel::Error
    } else if eq_ignore_ascii_case(&v, &chars_vec("critical")) || eq_ignore_ascii_case(
        &v,
        &chars_vec("fatal"),
    ) {
        LogLevel::Critical
    } else {
        LogLevel::Info
    }
}

/// Reads a category token tolerantly.
pub fn category_of_token_exec(s: &str) -> (r: LogCategory)
    ensures
        r == category_of_token(s@),
{
    let v = chars_vec(s);
    if eq_ignore_ascii_case(&v, &chars_vec("network")) {
        LogCategory::Network
    } else if eq_ignore_ascii_case(&v, &chars_vec("ui")) {
        LogCategory::Ui
    } else if eq_ignore_ascii_case(&v, &chars_vec("performance")) {
        LogCategory::Performance
    } else if eq_ignore_ascii_case(&v, &chars_vec("state")) {
        LogCategory::State
    } else if eq_ignore_ascii_case(&v, &chars_vec("background")) {
        LogCategory::Background
    } else {
        LogCategory::State
    }
}

/// Result of reading one member of a JSON object: `Invalid` when the
/// member is there but has the wrong shape, otherwise the value read
/// (`Absent` also covers an explicit null, which the structured shape
/// treats like a missing member).
pub ghost enum FieldRead<T> {
    Invalid,
    Absent,
    Got(T),
}

impl<T> FieldRead<T> {
    /// The member is either missing or was read.
    pub open spec fn ok(self) -> bool {
        !(self is Invalid)
    }

    /// The value read, as an option.
    pub open spec fn opt(self) -> Option<T> {
        match self {
            FieldRead::Got(t) => Some(t),
            _ => None,
        }
    }
}

/// A member that must be a string when present.
pub open spec fn read_str(fs: Seq<(Seq<char>, JsonValV)>, key: Seq<char>) -> FieldRead<
    Seq<char>,
> {
    match spec_lookup(fs, key) {
        None => FieldRead::Absent,
        Some(JsonValV::Null) => FieldRead::Absent,
        Some(JsonValV::Str(s)) => FieldRead::Got(s),
        Some(_) => FieldRead::Invalid,
    }
}

/// A member that must be a number when present.
pub open spec fn read_num(fs: Seq<(Seq<char>, JsonValV)>, key: Seq<char>) -> FieldRead<
    JsonNumV,
> {
    match spec_lookup(fs, key) {
        None => FieldRead::Absent,
        Some(JsonValV::Null) => FieldRead::Absent,
        Some(JsonValV::Num(n)) => FieldRead::Got(n),
        Some(_) => FieldRead::Invalid,
    }
}

/// A member that must be an unsigned integer no larger than `max`
/// when present.
pub open spec fn read_uint(fs: Seq<(Seq<char>, JsonValV)>, key: Seq<char>, max: u64) -> FieldRead<
    u64,
> {
    match spec_lookup(fs, key) {
        None => FieldRead::Absent,
        Some(JsonValV::Null) => FieldRead::Absent,
        Some(JsonValV::Num(JsonNumV::UInt(u))) => if u <= max {
            FieldRead::Got(u)
        } else {
            FieldRead::Invalid
        },
        Some(_) => FieldRead::Invalid,
    }
}

/// A member that must be an object when present.
pub open spec fn read_obj(fs: Seq<(Seq<char>, JsonValV)>, key: Seq<char>) -> FieldRead<
    Seq<(Seq<char>, JsonValV)>,
> {
    match spec_lookup(fs, key) {
        None => FieldRead::Absent,
        Some(JsonValV::Null) => FieldRead::Absent,
        Some(JsonValV::Obj(ms)) => FieldRead::Got(ms),
        Some(_) => FieldRead::Invalid,
    }
}

/// A member that may be any value; null and absence both read as
/// nothing. Such a member is never invalid.
pub open spec fn read_any(fs: Seq<(Seq<char>, JsonValV)>, key: Seq<char>) -> Option<JsonValV> {
    match spec_lookup(fs, key) {
        None => None,
        Some(JsonValV::Null) => None,
        Some(v) => Some(v),
    }
}

/// A member that must be a string-to-string mapping when present.
pub open spec fn read_headers(fs: Seq<(Seq<char>, JsonValV)>, key: Seq<char>) -> FieldRead<
    Seq<(Seq<char>, Seq<char>)>,
> {
    match spec_lookup(fs, key) {
        None => FieldRead::Absent,
        Some(JsonValV::Null) => FieldRead::Absent,
        Some(JsonValV::Obj(ms)) => if forall|i: int| 0 <= i < ms.len() ==> ms[i].1 is Str {
            FieldRead::Got(ms.map(|i: int, m: (Seq<char>, JsonValV)| (m.0, m.1->Str_0)))
        } else {
            FieldRead::Invalid
        },
        Some(_) => FieldRead::Invalid,
    }
}

/// The network details a JSON value denotes, if it has exactly the
/// structured shape: url and method strings, a status code that fits
/// 16 bits, a numeric duration, and optional headers and bodies.
pub open spec fn spec_net_details(v: JsonValV) -> Option<NetworkDetailsV> {
    match v {
        JsonValV::Obj(fs) => {
            let url = read_str(fs, "url"@);
            let method = read_str(fs, "method"@);
            let status = read_uint(fs, "statusCode"@, 0xffff);
            let duration = read_num(fs, "duration"@);
            let headers = read_headers(fs, "requestHeaders"@);
            if url is Got && method is Got && status is Got && duration is Got && headers.ok() {
                Some(
                    NetworkDetailsV {
                        url: url->Got_0,
                        method: method->Got_0,
                        status_code: status->Got_0 as u16,
                        duration: duration->Got_0,
                        request_headers: headers.opt(),
                        request_body: read_any(fs, "requestBody"@),
                        response_body: read_any(fs, "responseBody"@),
                    },
                )
            } else {
                None
            }
        },
        _ => None,
    }
}

/// The performance details a JSON value denotes, if it has exactly the
/// structured shape: numeric start, end and duration, and an optional
/// numeric memory delta.
pub open spec fn spec_perf_details(v: JsonValV) -> Option<PerformanceDetailsV> {
    match v {
        JsonValV::Obj(fs) => {
            let start = read_num(fs, "startTime"@);
            let end = read_num(fs, "endTime"@);
            let duration = read_num(fs, "duration"@);
            let memory = read_num(fs, "memoryDelta"@);
            if start is Got && end is Got && duration is Got && memory.ok() {
                Some(
                    PerformanceDetailsV {
                        start_time: start->Got_0,
                        end_time: end->Got_0,
                        duration: duration->Got_0,
                        memory_delta: memory.opt(),
                    },
                )
            } else {
                None
            }
        },
        _ => None,
    }
}

/// What the tolerant tier reads out of a string member: the string if
/// one is there, nothing otherwise.
pub open spec fn salvage_str(fs: Seq<(Seq<char>, JsonValV)>, key: Seq<char>) -> Option<
    Seq<char>,
> {
    match spec_lookup(fs, key) {
        Some(JsonValV::Str(s)) => Some(s),
        _ => None,
    }
}

/// The record salvaged field by field from a JSON object that is not a
/// fully structured record: recognized members are taken when their
/// shape fits, everything else falls back to a default; `gen` and
/// `now` are the freshly generated identifier and timestamp used for
/// missing ones.
pub open spec fn spec_salvage(
    fs: Seq<(Seq<char>, JsonValV)>,
    gen: Seq<char>,
    now: Seq<char>,
) -> LogEntryV {
    LogEntryV {
        id: match salvage_str(fs, "id"@) {
            Some(s) => if s.len() > 0 {
                s
            } else {
                gen
            },
            None => gen,
        },
        timestamp: match salvage_str(fs, "timestamp"@) {
            Some(s) => if s.len() > 0 {
                s
            } else {
                now
            },
            None => now,
        },
        level: match salvage_str(fs, "level"@) {
            Some(s) => level_of_token(s),
            None => LogLevel::Info,
        },
        category: match salvage_str(fs, "category"@) {
            Some(s) => category_of_token(s),
            None => LogCategory::State,
        },
        message: match salvage_str(fs, "message"@) {
            Some(s) => s,
            None => "(no message)"@,
        },
        thread: match salvage_str(fs, "thread"@) {
            Some(s) => s,
            None => "main"@,
        },
        file: salvage_str(fs, "file"@),
        function_name: salvage_str(fs, "function"@),
        line: match spec_lookup(fs, "line"@) {
            Some(JsonValV::Num(JsonNumV::UInt(u))) => Some(u as u32),
            _ => None,
        },
        queue_label: salvage_str(fs, "queueLabel"@),
        metadata: match spec_lookup(fs, "metadata"@) {
            Some(JsonValV::Obj(ms)) => Some(ms),
            _ => None,
        },
        network_details: match spec_lookup(fs, "networkDetails"@) {
            Some(v) => spec_net_details(v),
            None => None,
        },
        performance_details: match spec_lookup(fs, "performanceDetails"@) {
            Some(v) => spec_perf_details(v),
            None => None,
        },
    }
}

/// The record a JSON object denotes when it has exactly the structured
/// shape: id, timestamp, exact level and category tokens, message and
/// thread all strings, and every optional member well-formed. Any
/// departure makes the strict tier fail (and the tolerant tier take
/// over).
pub open spec fn spec_strict(fs: Seq<(Seq<char>, JsonValV)>) -> Option<LogEntryV> {
    let id = read_str(fs, "id"@);
    let timestamp = read_str(fs, "timestamp"@);
    let level = read_str(fs, "level"@);
    let category = read_str(fs, "category"@);
    let message = read_str(fs, "message"@);
    let thread = read_str(fs, "thread"@);
    let file = read_str(fs, "file"@);
    let function_name = read_str(fs, "function"@);
    let line = read_uint(fs, "line"@, 0xffff_ffff);
    let queue_label = read_str(fs, "queueLabel"@);
    let metadata = read_obj(fs, "metadata"@);
    let network = spec_lookup(fs, "networkDetails"@);
    let performance = spec_lookup(fs, "performanceDetails"@);
    if id is Got && timestamp is Got && level is Got && level_strict(level->Got_0) is Some
        && category is Got && category_strict(category->Got_0) is Some && message is Got
        && thread is Got && file.ok() && function_name.ok() && line.ok() && queue_label.ok()
        && metadata.ok() && (match network {
        None => true,
        Some(JsonValV::Null) => true,
        Some(v) => spec_net_details(v) is Some,
    }) && (match performance {
        None => true,
        Some(JsonValV::Null) => true,
        Some(v) => spec_perf_details(v) is Some,
    }) {
        Some(
            LogEntryV {
                id: id->Got_0,
                timestamp: timestamp->Got_0,
                level: level_strict(level->Got_0)->0,
                category: category_strict(category->Got_0)->0,
                message: message->Got_0,
                thread: thread->Got_0,
                file: file.opt(),
                function_name: function_name.opt(),
                line: match line.opt() {
                    Some(u) => Some(u as u32),
                    None => None,
                },
                queue_label: queue_label.opt(),
                metadata: metadata.opt(),
                network_details: match network {
                    None => None,
                    Some(JsonValV::Null) => None,
                    Some(v) => spec_net_details(v),
                },
                performance_details: match performance {
                    None => None,
                    Some(JsonValV::Null) => None,
                    Some(v) => spec_perf_details(v),
                },
            },
        )
    } else {
        None
    }
}

/// A record whose id was empty gets the freshly generated one.
pub open spec fn with_fresh_id(e: LogEntryV, gen: Seq<char>) -> LogEntryV {
    if e.id.len() == 0 {
        LogEntryV { id: gen, ..e }
    } else {
        e
    }
}

/// The plain-text wrapping of a line that is not JSON: the trimmed
/// line verbatim as the message of an informational record.
pub open spec fn spec_plain(line: Seq<char>, gen: Seq<char>, now: Seq<char>) -> LogEntryV {
    LogEntryV {
        id: gen,
        timestamp: now,
        level: LogLevel::Info,
        category: LogCategory::State,
        message: line,
        thread: "main"@,
        file: None,
        function_name: None,
        line: None,
        queue_label: None,
        metadata: None,
        network_details: None,
        performance_details: None,
    }
}

/// What `parse_log_line` produces for a line, given the generated
/// identifier `gen` and timestamp `now`: nothing for an all-whitespace
/// line; the structured record if the line is a JSON object of exactly
/// the structured shape; a field-by-field salvage for any other JSON
/// object; and the plain-text wrapping for everything else.
pub open spec fn spec_parse(line: Seq<char>, gen: Seq<char>, now: Seq<char>) -> Option<
    LogEntryV,
> {
    let t = trim_spec(line);
    if t.len() == 0 {
        None
    } else {
        Some(
            match json_of(t) {
                Some(JsonValV::Obj(fs)) => match spec_strict(fs) {
                    Some(e) => with_fresh_id(e, gen),
                    None => spec_salvage(fs, gen, now),
                },
                _ => spec_plain(t, gen, now),
            },
        )
    }
}

/// An optional string written out as a JSON value, null when absent.
pub open spec fn opt_str_json(v: Option<Seq<char>>) -> JsonValV {
    match v {
        Some(s) => JsonValV::Str(s),
        None => JsonValV::Null,
    }
}

/// The JSON object a record's network details are written out as,
/// every member present and absent optionals written as null.
pub open spec fn net_fields(d: NetworkDetailsV) -> Seq<(Seq<char>, JsonValV)> {
    seq![
        ("url"@, JsonValV::Str(d.url)),
        ("method"@, JsonValV::Str(d.method)),
        ("statusCode"@, JsonValV::Num(JsonNumV::UInt(d.status_code as u64))),
        ("duration"@, JsonValV::Num(d.duration)),
        (
            "requestHeaders"@,
            match d.request_headers {
                Some(hs) => JsonValV::Obj(
                    hs.map(|i: int, h: (Seq<char>, Seq<char>)| (h.0, JsonValV::Str(h.1))),
                ),
                None => JsonValV::Null,
            },
        ),
        (
            "requestBody"@,
            match d.request_body {
                Some(v) => v,
                None => JsonValV::Null,
            },
        ),
        (
            "responseBody"@,
            match d.response_body {
                Some(v) => v,
                None => JsonValV::Null,
            },
        ),
    ]
}

/// The JSON object a record's performance details are written out as.
pub open spec fn perf_fields(d: PerformanceDetailsV) -> Seq<(Seq<char>, JsonValV)> {
    seq![
        ("startTime"@, JsonValV::Num(d.start_time)),
        ("endTime"@, JsonValV::Num(d.end_time)),
        ("duration"@, JsonValV::Num(d.duration)),
        (
            "memoryDelta"@,
            match d.memory_delta {
                Some(n) => JsonValV::Num(n),
                None => JsonValV::Null,
            },
        ),
    ]
}

/// The JSON object a record is written out as: every member present,
/// level and category as their tokens, absent optionals as null.
pub open spec fn entry_fields(e: LogEntryV) -> Seq<(Seq<char>, JsonValV)> {
    seq![
        ("id"@, JsonValV::Str(e.id)),
        ("timestamp"@, JsonValV::Str(e.timestamp)),
        ("level"@, JsonValV::Str(level_token(e.level))),
        ("category"@, JsonValV::Str(category_token(e.category))),
        ("message"@, JsonValV::Str(e.message)),
        ("thread"@, JsonValV::Str(e.thread)),
        ("file"@, opt_str_json(e.file)),
        ("function"@, opt_str_json(e.function_name)),
        (
            "line"@,
            match e.line {
                Some(u) => JsonValV::Num(JsonNumV::UInt(u as u64)),
                None => JsonValV::Null,
            },
        ),
        ("queueLabel"@, opt_str_json(e.queue_label)),
        (
            "metadata"@,
            match e.metadata {
                Some(ms) => JsonValV::Obj(ms),
                None => JsonValV::Null,
            },
        ),
        (
            "networkDetails"@,
            match e.network_details {
                Some(d) => JsonValV::Obj(net_fields(d)),
                None => JsonValV::Null,
            },
        ),
        (
            "performanceDetails"@,
            match e.performance_details {
                Some(d) => JsonValV::Obj(perf_fields(d)),
                None => JsonValV::Null,
            },
        ),
    ]
}

proof fn lemma_net_round_trip(d: NetworkDetailsV)
    requires
        d.request_body != Some(JsonValV::Null),
        d.response_body != Some(JsonValV::Null),
    ensures
        spec_net_details(JsonValV::Obj(net_fields(d))) == Some(d),
{
    reveal_strlit("url");
    reveal_strlit("method");
    reveal_strlit("statusCode");
    reveal_strlit("duration");
    reveal_strlit("requestHeaders");
    reveal_strlit("requestBody");
    reveal_strlit("responseBody");
    let fs = net_fields(d);
    assert(fs[0].0 == "url"@ && fs[1].0 == "method"@ && fs[2].0 == "statusCode"@ && fs[3].0
        == "duration"@ && fs[4].0 == "requestHeaders"@ && fs[5].0 == "requestBody"@ && fs[6].0
        == "responseBody"@);
    crate::json::lemma_lookup_at(fs, "url"@, 0);
    crate::json::lemma_lookup_at(fs, "method"@, 1);
    crate::json::lemma_lookup_at(fs, "statusCode"@, 2);
    crate::json::lemma_lookup_at(fs, "duration"@, 3);
    crate::json::lemma_lookup_at(fs, "requestHeaders"@, 4);
    crate::json::lemma_lookup_at(fs, "requestBody"@, 5);
    crate::json::lemma_lookup_at(fs, "responseBody"@, 6);
    if d.request_headers is Some {
        let hs = d.request_headers->0;
        let written = hs.map(|i: int, h: (Seq<char>, Seq<char>)| (h.0, JsonValV::Str(h.1)));
        assert(forall|i: int| 0 <= i < written.len() ==> written[i].1 is Str);
        assert(written.map(|i: int, m: (Seq<char>, JsonValV)| (m.0, m.1->Str_0)) =~= hs);
        assert(read_headers(fs, "requestHeaders"@) == FieldRead::Got(hs));
    }
    let got = spec_net_details(JsonValV::Obj(fs))->0;
    assert(got =~~= d);
}

proof fn lemma_perf_round_trip(d: PerformanceDetailsV)
    ensures
        spec_perf_details(JsonValV::Obj(perf_fields(d))) == Some(d),
{
    reveal_strlit("startTime");
    reveal_strlit("endTime");
    reveal_strlit("duration");
    reveal_strlit("memoryDelta");
    let fs = perf_fields(d);
    assert(fs[0].0 == "startTime"@ && fs[1].0 == "endTime"@ && fs[2].0 == "duration"@ && fs[3].0
        == "memoryDelta"@);
    crate::json::lemma_lookup_at(fs, "startTime"@, 0);
    crate::json::lemma_lookup_at(fs, "endTime"@, 1);
    crate::json::lemma_lookup_at(fs, "duration"@, 2);
    crate::json::lemma_lookup_at(fs, "memoryDelta"@, 3);
    let got = spec_perf_details(JsonValV::Obj(fs))->0;
    assert(got =~~= d);
}

proof fn lemma_level_token_strict(l: LogLevel)
    ensures
        level_strict(level_token(l)) == Some(l),
{
    reveal_strlit("debug");
    reveal_strlit("info");
    reveal_strlit("warning");
    reveal_strlit("error");
    reveal_strlit("critical");
    assert("debug"@.len() == 5 && "info"@.len() == 4 && "warning"@.len() == 7 && "error"@.len()
        == 5 && "critical"@.len() == 8);
    assert("debug"@ != "error"@) by {
        assert("debug"@[0] == 'd');
        assert("error"@[0] == 'e');
    }
    match l {
        LogLevel::Debug => {
            assert(level_strict("debug"@) == Some(LogLevel::Debug));
        },
        LogLevel::Info => {
            assert(level_strict("info"@) == Some(LogLevel::Info));
        },
        LogLevel::Warning => {
            assert(level_strict("warning"@) == Some(LogLevel::Warning));
        },
        LogLevel::Error => {
            assert(level_strict("error"@) == Some(LogLevel::Error));
        },
        LogLevel::Critical => {
            assert(level_strict("critical"@) == Some(LogLevel::Critical));
        },
    }
}

proof fn lemma_category_token_strict(c: LogCategory)
    ensures
        category_strict(category_token(c)) == Some(c),
{
    reveal_strlit("network");
    reveal_strlit("ui");
    reveal_strlit("performance");
    reveal_strlit("state");
    reveal_strlit("background");
    assert("network"@.len() == 7 && "ui"@.len() == 2 && "performance"@.len() == 11
        && "state"@.len() == 5 && "background"@.len() == 10);
    match c {
        LogCategory::Network => {
            assert(category_strict("network"@) == Some(LogCategory::Network));
        },
        LogCategory::Ui => {
            assert(category_strict("ui"@) == Some(LogCategory::Ui));
        },
        LogCategory::Performance => {
            assert(category_strict("performance"@) == Some(LogCategory::Performance));
        },
        LogCategory::State => {
            assert(category_strict("state"@) == Some(LogCategory::State));
        },
        LogCategory::Background => {
            assert(category_strict("background"@) == Some(LogCategory::Background));
        },
    }
}

/// Law: a record written out as a full JSON object reads back as the
/// same record through the structured tier, except that an empty id
/// is replaced by the freshly generated one. (A body member that is
/// an explicit JSON null is excluded: written out it is
/// indistinguishable from an absent member.)
pub proof fn lemma_strict_round_trip(e: LogEntryV, gen: Seq<char>)
    requires
        (e.network_details matches Some(d) ==> d.request_body != Some(JsonValV::Null)
            && d.response_body != Some(JsonValV::Null)),
    ensures
        (spec_strict(entry_fields(e)) is Some),
        e.id.len() > 0 ==> with_fresh_id(spec_strict(entry_fields(e))->0, gen) == e,
        e.id.len() == 0 ==> with_fresh_id(spec_strict(entry_fields(e))->0, gen) == (LogEntryV {
            id: gen,
            ..e
        }),
{
    reveal_strlit("id");
    reveal_strlit("timestamp");
    reveal_strlit("level");
    reveal_strlit("category");
    reveal_strlit("message");
    reveal_strlit("thread");
    reveal_strlit("file");
    reveal_strlit("function");
    reveal_strlit("line");
    reveal_strlit("queueLabel");
    reveal_strlit("metadata");
    reveal_strlit("networkDetails");
    reveal_strlit("performanceDetails");
    let fs = entry_fields(e);
    assert("id"@.len() == 2 && "timestamp"@.len() == 9 && "level"@.len() == 5
        && "category"@.len() == 8 && "message"@.len() == 7 && "thread"@.len() == 6
        && "file"@.len() == 4 && "function"@.len() == 8 && "line"@.len() == 4
        && "queueLabel"@.len() == 10 && "metadata"@.len() == 8 && "networkDetails"@.len() == 14
        && "performanceDetails"@.len() == 18);
    assert("category"@ != "function"@) by {
        assert("category"@[0] == 'c');
        assert("function"@[0] == 'f');
    }
    assert("category"@ != "metadata"@) by {
        assert("category"@[0] == 'c');
        assert("metadata"@[0] == 'm');
    }
    assert("function"@ != "metadata"@) by {
        assert("function"@[0] == 'f');
        assert("metadata"@[0] == 'm');
    }
    assert("file"@ != "line"@) by {
        assert("file"@[0] == 'f');
        assert("line"@[0] == 'l');
    }
    assert(fs[0].0 == "id"@ && fs[1].0 == "timestamp"@ && fs[2].0 == "level"@ && fs[3].0
        == "category"@ && fs[4].0 == "message"@ && fs[5].0 == "thread"@ && fs[6].0 == "file"@
        && fs[7].0 == "function"@ && fs[8].0 == "line"@ && fs[9].0 == "queueLabel"@ && fs[10].0
        == "metadata"@ && fs[11].0 == "networkDetails"@ && fs[12].0 == "performanceDetails"@);
    crate::json::lemma_lookup_at(fs, "id"@, 0);
    crate::json::lemma_lookup_at(fs, "timestamp"@, 1);
    crate::json::lemma_lookup_at(fs, "level"@, 2);
    crate::json::lemma_lookup_at(fs, "category"@, 3);
    crate::json::lemma_lookup_at(fs, "message"@, 4);
    crate::json::lemma_lookup_at(fs, "thread"@, 5);
    crate::json::lemma_lookup_at(fs, "file"@, 6);
    crate::json::lemma_lookup_at(fs, "function"@, 7);
    crate::json::lemma_lookup_at(fs, "line"@, 8);
    crate::json::lemma_lookup_at(fs, "queueLabel"@, 9);
    crate::json::lemma_lookup_at(fs, "metadata"@, 10);
    crate::json::lemma_lookup_at(fs, "networkDetails"@, 11);
    crate::json::lemma_lookup_at(fs, "performanceDetails"@, 12);
    lemma_level_token_strict(e.level);
    lemma_category_token_strict(e.category);
    if e.network_details is Some {
        lemma_net_round_trip(e.network_details->0);
    }
    if e.performance_details is Some {
        lemma_perf_round_trip(e.performance_details->0);
    }
    assert(spec_strict(fs) is Some);
    let got = spec_strict(fs)->0;
    assert(got.id == e.id);
    assert(got =~~= e);
    if e.id.len() == 0 {
        assert(with_fresh_id(got, gen) =~~= LogEntryV { id: gen, ..e });
    }
}

/// A `String` holding the given text.
fn key(s: &str) -> (r: String)
    ensures
        r@ == s@,
{
    String::from_str(s)
}

/// Reads network details out of a JSON value, exactly when it has the
/// structured shape.
fn validate_net(v: &JsonValue) -> (r: Option<NetworkDetails>)
    ensures
        match r {
            Some(d) => spec_net_details(v.deep_view()) == Some(d.deep_view()),
            None => spec_net_details(v.deep_view()) is None,
        },
{
    let fs = match v {
        JsonValue::Obj(fs) => fs,
        _ => {
            return None;
        },
    };
    proof {
        lemma_obj_deep_view(*fs);
    }
    let ghost m = fs.deep_view();
    let url = match lookup(fs, &key("url")) {
        Some(JsonValue::Str(s)) => s.clone(),
        _ => {
            return None;
        },
    };
    let method = match lookup(fs, &key("method")) {
        Some(JsonValue::Str(s)) => s.clone(),
        _ => {
            return None;
        },
    };
    let status_code = match lookup(fs, &key("statusCode")) {
        Some(JsonValue::Num(JsonNum::UInt(u))) => if *u <= 0xffff {
            *u as u16
        } else {
            return None;
        },
        _ => {
            return None;
        },
    };
    let duration = match lookup(fs, &key("duration")) {
        Some(JsonValue::Num(n)) => n.duplicate(),
        _ => {
            return None;
        },
    };
    let request_headers = match lookup(fs, &key("requestHeaders")) {
        None => None,
        Some(hv) => match hv {
            JsonValue::Null => None,
            JsonValue::Obj(hs) => {
                let ghost hm = hs.deep_view();
                proof {
                    lemma_obj_deep_view(*hs);
                }
                let mut out: Vec<(String, String)> = Vec::new();
                let n = hs.len();
                let mut i: usize = 0;
                #[verifier::loop_isolation(false)]
                while i < n
                    invariant
                        0 <= i <= n,
                        n == hs.len(),
                        out.deep_view().len() == i,
                        forall|j: int| #![trigger hm[j]]
                            0 <= j < i ==> hm[j].1 is Str && out.deep_view()[j] == (
                            hm[j].0,
                            hm[j].1->Str_0,
                            ),
                    decreases n - i,
                {
                    let ghost prev = out@;
                    match &hs[i].1 {
                        JsonValue::Str(s) => {
                            out.push((hs[i].0.clone(), s.clone()));
                            proof {
                                assert(out@ == prev.push((hs@[i as int].0, *s)));
                                assert(forall|j: int| 0 <= j < prev.len() ==> out@[j] == prev[j]);
                                assert(forall|j: int|
                                    0 <= j < prev.len() ==> out.deep_view()[j] == prev[j].deep_view());
                                assert(hs@[i as int].1 == JsonValue::Str(*s));
                                assert(hm[i as int].1 == JsonValV::Str(s@));
                                assert(out.deep_view()[i as int] == (
                                    hm[i as int].0,
                                    hm[i as int].1->Str_0,
                                ));
                            }
                        },
                        _ => {
                            proof {
                                assert(!(hm[i as int].1 is Str));
                            }
                            return None;
                        },
                    }
                    i = i + 1;
                    proof {
                        assert(out.deep_view().len() == i);
                        assert(out.deep_view()[i - 1] == (hm[i - 1].0, hm[i - 1].1->Str_0));
                        assert(hm[i - 1].1 is Str);
                        assert forall|j: int| #![trigger hm[j]]
                            0 <= j < i implies hm[j].1 is Str && out.deep_view()[j] == (
                            hm[j].0,
                            hm[j].1->Str_0,
                        ) by {
                            if j < i - 1 {
                                assert(hm[j].1 is Str);
                                assert(out.deep_view()[j] == prev[j].deep_view());
                            }
                        }
                    }
                }
                proof {
                    assert(read_headers(m, "requestHeaders"@) is Got);
                    assert(out.deep_view() =~= read_headers(m, "requestHeaders"@)->Got_0);
                }
                Some(out)
            },
            _ => {
                return None;
            },
        },
    };
    let request_body = match lookup(fs, &key("requestBody")) {
        None => None,
        Some(bv) => match bv {
            JsonValue::Null => None,
            _ => Some(clone_json(bv)),
        },
    };
    let response_body = match lookup(fs, &key("responseBody")) {
        None => None,
        Some(bv) => match bv {
            JsonValue::Null => None,
            _ => Some(clone_json(bv)),
        },
    };
    let d = NetworkDetails {
        url,
        method,
        status_code,
        duration,
        request_headers,
        request_body,
        response_body,
    };
    proof {
        assert(spec_net_details(v.deep_view()) == Some(d.deep_view())) by {
            assert(d.deep_view() =~~= spec_net_details(v.deep_view())->0);
        }
    }
    Some(d)
}

/// Reads performance details out of a JSON value, exactly when it has
/// the structured shape.
fn validate_perf(v: &JsonValue) -> (r: Option<PerformanceDetails>)
    ensures
        match r {
            Some(d) => spec_perf_details(v.deep_view()) == Some(d.deep_view()),
            None => spec_perf_details(v.deep_view()) is None,
        },
{
    let fs = match v {
        JsonValue::Obj(fs) => fs,
        _ => {
            return None;
        },
    };
    proof {
        lemma_obj_deep_view(*fs);
    }
    let start_time = match lookup(fs, &key("startTime")) {
        Some(JsonValue::Num(n)) => n.duplicate(),
        _ => {
            return None;
        },
    };
    let end_time = match lookup(fs, &key("endTime")) {
        Some(JsonValue::Num(n)) => n.duplicate(),
        _ => {
            return None;
        },
    };
    let duration = match lookup(fs, &key("duration")) {
        Some(JsonValue::Num(n)) => n.duplicate(),
        _ => {
            return None;
        },
    };
    let memory_delta = match lookup(fs, &key("memoryDelta")) {
        None => None,
        Some(mv) => match mv {
            JsonValue::Null => None,
            JsonValue::Num(n) => Some(n.duplicate()),
            _ => {
                return None;
            },
        },
    };
    let d = PerformanceDetails { start_time, end_time, duration, memory_delta };
    proof {
        assert(spec_perf_details(v.deep_view()) == Some(d.deep_view())) by {
            assert(d.deep_view() =~~= spec_perf_details(v.deep_view())->0);
        }
    }
    Some(d)
}

/// Relies on uuid::Uuid::new_v4 and its Display form: a fresh random
/// identifier, printed hyphenated, which is 36 characters long.
#[verifier::external_body]
fn gen_id() -> (r: String)
    ensures
        r@.len() == 36,
{
    uuid::Uuid::new_v4().to_string()
}

/// Relies on chrono::Utc::now and DateTime::to_rfc3339_opts: the
/// current UTC time with millisecond precision and a 'Z' suffix; the
/// printed form is never empty.
#[verifier::external_body]
fn now_timestamp() -> (r: String)
    ensures
        r@.len() > 0,
{
    chrono::Utc::now().to_rfc3339_opts(chrono::SecondsFormat::Millis, true)
}

/// A copy of an optional string with the same model.
fn duplicate_opt_string(v: &Option<String>) -> (r: Option<String>)
    ensures
        r.deep_view() == v.deep_view(),
{
    match v {
        Some(s) => Some(s.clone()),
        None => None,
    }
}

impl NetworkDetails {
    /// A copy of these details with the same model.
    pub fn duplicate(&self) -> (r: NetworkDetails)
        ensures
            r.deep_view() == self.deep_view(),
    {
        let request_headers = match &self.request_headers {
            Some(hs) => {
                let n = hs.len();
                let mut out: Vec<(String, String)> = Vec::new();
                let mut i: usize = 0;
                #[verifier::loop_isolation(false)]
                while i < n
                    invariant
                        0 <= i <= n,
                        n == hs.len(),
                        out.deep_view() =~= hs.deep_view().subrange(0, i as int),
                    decreases n - i,
                {
                    out.push((hs[i].0.clone(), hs[i].1.clone()));
                    i = i + 1;
                    proof {
                        assert(out.deep_view() =~= hs.deep_view().subrange(0, i as int));
                    }
                }
                proof {
                    assert(out.deep_view() =~= hs.deep_view());
                }
                Some(out)
            },
            None => None,
        };
        let r = NetworkDetails {
            url: self.url.clone(),
            method: self.method.clone(),
            status_code: self.status_code,
            duration: self.duration.duplicate(),
            request_headers,
            request_body: match &self.request_body {
                Some(b) => Some(clone_json(b)),
                None => None,
            },
            response_body: match &self.response_body {
                Some(b) => Some(clone_json(b)),
                None => None,
            },
        };
        proof {
            assert(r.deep_view() =~~= self.deep_view());
        }
        r
    }
}

impl PerformanceDetails {
    /// A copy of these details with the same model.
    pub fn duplicate(&self) -> (r: PerformanceDetails)
        ensures
            r.deep_view() == self.deep_view(),
    {
        PerformanceDetails {
            start_time: self.start_time.duplicate(),
            end_time: self.end_time.duplicate(),
            duration: self.duration.duplicate(),
            memory_delta: match &self.memory_delta {
                Some(n) => Some(n.duplicate()),
                None => None,
            },
        }
    }
}

impl LogEntry {
    /// A copy of this record with the same model.
    pub fn duplicate(&self) -> (r: LogEntry)
        ensures
            r.deep_view() == self.deep_view(),
    {
        let r = LogEntry {
            id: self.id.clone(),
            timestamp: self.timestamp.clone(),
            level: self.level,
            category: self.category,
            message: self.message.clone(),
            thread: self.thread.clone(),
            file: duplicate_opt_string(&self.file),
            function_name: duplicate_opt_string(&self.function_name),
            line: self.line,
            queue_label: duplicate_opt_string(&self.queue_label),
            metadata: match &self.metadata {
                Some(ms) => Some(clone_members(ms)),
                None => None,
            },
            network_details: match &self.network_details {
                Some(d) => Some(d.duplicate()),
                None => None,
            },
            performance_details: match &self.performance_details {
                Some(d) => Some(d.duplicate()),
                None => None,
            },
        };
        proof {
            assert(r.deep_view() =~~= self.deep_view());
        }
        r
    }
}

/// A value that is not an object never models as one.
proof fn lemma_view_not_obj(v: JsonValue)
    requires
        !(v is Obj),
    ensures
        !(v.deep_view() is Obj),
{
    match v {
        JsonValue::Null => {},
        JsonValue::Bool(_) => {},
        JsonValue::Num(_) => {},
        JsonValue::Str(_) => {},
        JsonValue::Arr(_) => {},
        JsonValue::Obj(_) => {},
    }
}

/// Builds the record the tolerant tier reads out of a JSON object.
fn salvage_entry(fs: &Vec<(String, JsonValue)>, gen: String, now: String) -> (r: LogEntry)
    ensures
        r.deep_view() == spec_salvage(fs.deep_view(), gen@, now@),
{
    let ghost m = fs.deep_view();
    let id = match lookup(fs, &key("id")) {
        Some(JsonValue::Str(s)) => if !s.as_str().is_empty() {
            s.clone()
        } else {
            gen
        },
        _ => gen,
    };
    let timestamp = match lookup(fs, &key("timestamp")) {
        Some(JsonValue::Str(s)) => if !s.as_str().is_empty() {
            s.clone()
        } else {
            now
        },
        _ => now,
    };
    let level = match lookup(fs, &key("level")) {
        Some(JsonValue::Str(s)) => level_of_token_exec(s.as_str()),
        _ => LogLevel::Info,
    };
    let category = match lookup(fs, &key("category")) {
        Some(JsonValue::Str(s)) => category_of_token_exec(s.as_str()),
        _ => LogCategory::State,
    };
    let message = match lookup(fs, &key("message")) {
        Some(JsonValue::Str(s)) => s.clone(),
        _ => key("(no message)"),
    };
    let thread = match lookup(fs, &key("thread")) {
        Some(JsonValue::Str(s)) => s.clone(),
        _ => key("main"),
    };
    let file = match lookup(fs, &key("file")) {
        Some(JsonValue::Str(s)) => Some(s.clone()),
        _ => None,
    };
    let function_name = match lookup(fs, &key("function")) {
        Some(JsonValue::Str(s)) => Some(s.clone()),
        _ => None,
    };
    let line = match lookup(fs, &key("line")) {
        Some(JsonValue::Num(JsonNum::UInt(u))) => Some(#[verifier::truncate] (*u as u32)),
        _ => None,
    };
    let queue_label = match lookup(fs, &key("queueLabel")) {
        Some(JsonValue::Str(s)) => Some(s.clone()),
        _ => None,
    };
    let metadata = match lookup(fs, &key("metadata")) {
        Some(mv) => match mv {
            JsonValue::Obj(ms) => {
                proof {
                    lemma_obj_deep_view(*ms);
                }
                Some(clone_members(ms))
            },
            _ => None,
        },
        None => None,
    };
    let network_details = match lookup(fs, &key("networkDetails")) {
        Some(v) => validate_net(v),
        None => None,
    };
    let performance_details = match lookup(fs, &key("performanceDetails")) {
        Some(v) => validate_perf(v),
        None => None,
    };
    let r = LogEntry {
        id,
        timestamp,
        level,
        category,
        message,
        thread,
        file,
        function_name,
        line,
        queue_label,
        metadata,
        network_details,
        performance_details,
    };
    proof {
        assert(r.deep_view() =~~= spec_salvage(m, gen@, now@));
    }
    r
}

/// Builds the structured record out of a JSON object, exactly when the
/// object has the structured shape.
fn strict_entry(fs: &Vec<(String, JsonValue)>) -> (r: Option<LogEntry>)
    ensures
        match r {
            Some(e) => spec_strict(fs.deep_view()) == Some(e.deep_view()),
            None => spec_strict(fs.deep_view()) is None,
        },
{
    let ghost m = fs.deep_view();
    let id = match lookup(fs, &key("id")) {
        Some(JsonValue::Str(s)) => s.clone(),
        _ => {
            return None;
        },
    };
    let timestamp = match lookup(fs, &key("timestamp")) {
        Some(JsonValue::Str(s)) => s.clone(),
        _ => {
            return None;
        },
    };
    let level = match lookup(fs, &key("level")) {
        Some(JsonValue::Str(s)) => match level_strict_exec(s.as_str()) {
            Some(l) => l,
            None => {
                return None;
            },
        },
        _ => {
            return None;
        },
    };
    let category = match lookup(fs, &key("category")) {
        Some(JsonValue::Str(s)) => match category_strict_exec(s.as_str()) {
            Some(c) => c,
            None => {
                return None;
            },
        },
        _ => {
            return None;
        },
    };
    let message = match lookup(fs, &key("message")) {
        Some(JsonValue::Str(s)) => s.clone(),
        _ => {
            return None;
        },
    };
    let thread = match lookup(fs, &key("thread")) {
        Some(JsonValue::Str(s)) => s.clone(),
        _ => {
            return None;
        },
    };
    let file = match lookup(fs, &key("file")) {
        None => None,
        Some(v) => match v {
            JsonValue::Null => None,
            JsonValue::Str(s) => Some(s.clone()),
            _ => {
                return None;
            },
        },
    };
    let function_name = match lookup(fs, &key("function")) {
        None => None,
        Some(v) => match v {
            JsonValue::Null => None,
            JsonValue::Str(s) => Some(s.clone()),
            _ => {
                return None;
            },
        },
    };
    let line = match lookup(fs, &key("line")) {
        None => None,
        Some(v) => match v {
            JsonValue::Null => None,
            JsonValue::Num(JsonNum::UInt(u)) => if *u <= 0xffff_ffff {
                Some(*u as u32)
            } else {
                return None;
            },
            _ => {
                return None;
            },
        },
    };
    let queue_label = match lookup(fs, &key("queueLabel")) {
        None => None,
        Some(v) => match v {
            JsonValue::Null => None,
            JsonValue::Str(s) => Some(s.clone()),
            _ => {
                return None;
            },
        },
    };
    let metadata = match lookup(fs, &key("metadata")) {
        None => None,
        Some(v) => match v {
            JsonValue::Null => None,
            JsonValue::Obj(ms) => {
                proof {
                    lemma_obj_deep_view(*ms);
                }
                Some(clone_members(ms))
            },
            _ => {
                return None;
            },
        },
    };
    let network_details = match lookup(fs, &key("networkDetails")) {
        None => None,
        Some(v) => match v {
            JsonValue::Null => None,
            _ => match validate_net(v) {
                Some(d) => Some(d),
                None => {
                    return None;
                },
            },
        },
    };
    let performance_details = match lookup(fs, &key("performanceDetails")) {
        None => None,
        Some(v) => match v {
            JsonValue::Null => None,
            _ => match validate_perf(v) {
                Some(d) => Some(d),
                None => {
                    return None;
                },
            },
        },
    };
    let e = LogEntry {
        id,
        timestamp,
        level,
        category,
        message,
        thread,
        file,
        function_name,
        line,
        queue_label,
        metadata,
        network_details,
        performance_details,
    };
    proof {
        assert(spec_strict(m) is Some);
        assert(e.deep_view() =~~= spec_strict(m)->0);
    }
    Some(e)
}

/// Wraps a non-JSON line verbatim as an informational record.
fn plain_entry(t: &Vec<char>, gen: String, now: String) -> (r: LogEntry)
    ensures
        r.deep_view() == spec_plain(t@, gen@, now@),
{
    let r = LogEntry {
        id: gen,
        timestamp: now,
        level: LogLevel::Info,
        category: LogCategory::State,
        message: string_from_chars(t),
        thread: key("main"),
        file: None,
        function_name: None,
        line: None,
        queue_label: None,
        metadata: None,
        network_details: None,
        performance_details: None,
    };
    proof {
        assert(r.deep_view() =~~= spec_plain(t@, gen@, now@));
    }
    r
}

/// Parses one line of a log file. An empty or all-whitespace line
/// yields nothing; every other line yields exactly one record, as
/// `spec_parse` lays down, for some freshly generated identifier and
/// timestamp.
pub fn parse_log_line(line: &str) -> (r: Option<LogEntry>)
    ensures
        r is Some <==> trim_spec(line@).len() > 0,
        match r {
            Some(e) => exists|gen: Seq<char>, now: Seq<char>|
                gen.len() == 36 && now.len() > 0 && #[trigger] spec_parse(line@, gen, now)
                    == Some(e.deep_view()),
            None => true,
        },
{
    let cs = chars_vec(line);
    let t = trim_chars(&cs);
    if t.len() == 0 {
        return None;
    }
    let gen = gen_id();
    let now = now_timestamp();
    let ghost genv = gen@;
    let ghost nowv = now@;
    let e = match parse_json_text(&t) {
        Some(val) => match val {
            JsonValue::Obj(fs) => {
                proof {
                    lemma_obj_deep_view(fs);
                }
                match strict_entry(&fs) {
                    Some(e0) => {
                        let mut e1 = e0;
                        if e1.id.as_str().is_empty() {
                            e1.id = gen;
                        }
                        proof {
                            assert(e1.deep_view() == with_fresh_id(
                                spec_strict(fs.deep_view())->0,
                                genv,
                            ));
                        }
                        e1
                    },
                    None => salvage_entry(&fs, gen, now),
                }
            },
            _ => {
                proof {
                    lemma_view_not_obj(val);
                }
                plain_entry(&t, gen, now)
            },
        },
        None => plain_entry(&t, gen, now),
    };
    proof {
        assert(spec_parse(line@, genv, nowv) == Some(e.deep_view()));
    }
    Some(e)
}

} // verus!
