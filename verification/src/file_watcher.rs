//! The directory tailer's decision logic: which files qualify, where
//! an incremental read starts (with truncation detection), how a batch
//! of raw lines becomes records, and the initial full scan that sorts
//! its records newest-first. The blocking work around it — directory
//! walking, file reads, the platform watch and the poll timer — stays
//! with the caller, which hands the bytes read to these functions.

use vstd::multiset::Multiset;
use vstd::prelude::*;

use crate::log_parser::{parse_log_line, spec_parse, LogEntry, LogEntryV};
use crate::log_store::{spec_error_count, LogStore};
use crate::text::{chars_eq, chars_vec, lemma_lex_total, lemma_lex_trans, lex_leq, trim_spec};

verus! {

broadcast use vstd::std_specs::vec::group_vec_axioms;

/// The characters after the last occurrence of `c`; all of `s` when
/// `c` does not occur.
pub open spec fn suffix_after_last(s: Seq<char>, c: char) -> Seq<char>
    decreases s.len(),
{
    if s.len() == 0 {
        s
    } else if s.last() == c {
        Seq::empty()
    } else {
        suffix_after_last(s.drop_last(), c).push(s.last())
    }
}

proof fn lemma_suffix_after_last_at(s: Seq<char>, c: char, k: int)
    requires
        0 <= k < s.len(),
        s[k] == c,
        forall|j: int| k < j < s.len() ==> s[j] != c,
    ensures
        suffix_after_last(s, c) == s.subrange(k + 1, s.len() as int),
    decreases s.len(),
{
    if k == s.len() - 1 {
        assert(s.subrange(k + 1, s.len() as int).len() == 0);
        assert(suffix_after_last(s, c) =~= s.subrange(k + 1, s.len() as int));
    } else {
        lemma_suffix_after_last_at(s.drop_last(), c, k);
        assert(s.drop_last().subrange(k + 1, s.len() - 1).push(s.last()) =~= s.subrange(
            k + 1,
            s.len() as int,
        ));
    }
}

proof fn lemma_suffix_after_last_none(s: Seq<char>, c: char)
    requires
        forall|j: int| 0 <= j < s.len() ==> s[j] != c,
    ensures
        suffix_after_last(s, c) == s,
    decreases s.len(),
{
    if s.len() > 0 {
        lemma_suffix_after_last_none(s.drop_last(), c);
        assert(s.drop_last().push(s.last()) =~= s);
    }
}

/// The name part of a '/'-separated path: what follows the last slash.
pub open spec fn file_name_of(p: Seq<char>) -> Seq<char> {
    suffix_after_last(p, '/')
}

/// The extension of a path: what follows the last dot of its file
/// name, provided that dot is not the name's first character (a name
/// that only starts with a dot has no extension).
pub open spec fn extension_of(p: Seq<char>) -> Option<Seq<char>> {
    let name = file_name_of(p);
    if exists|i: int| 1 <= i < name.len() && name[i] == '.' {
        Some(suffix_after_last(name, '.'))
    } else {
        None
    }
}

/// Whether the tailer reads this file: its extension is `log`,
/// `jsonl` or `json`.
pub open spec fn is_log_file_spec(p: Seq<char>) -> bool {
    match extension_of(p) {
        Some(ext) => ext == "log"@ || ext == "jsonl"@ || ext == "json"@,
        None => false,
    }
}

/// Decides whether a path names a file the tailer reads.
pub fn is_log_file(path: &str) -> (r: bool)
    ensures
        r == is_log_file_spec(path@),
{
    let cs = chars_vec(path);
    let n = cs.len();
    // `k` becomes the index right after the last '/' (0 when none).
    let mut k: usize = n;
    while k > 0 && cs[k - 1] != '/'
        invariant
            0 <= k <= n,
            n == cs.len(),
            forall|j: int| k <= j < n ==> cs@[j] != '/',
        decreases k,
    {
        k = k - 1;
    }
    let ghost name = file_name_of(path@);
    proof {
        if k > 0 {
            lemma_suffix_after_last_at(cs@, '/', k - 1);
        } else {
            lemma_suffix_after_last_none(cs@, '/');
            assert(cs@.subrange(0, n as int) =~= cs@);
        }
        assert(name == cs@.subrange(k as int, n as int));
    }
    // `m` becomes the index right after the last '.' that does not
    // start the file name (k + 1 when none).
    let mut m: usize = n;
    while m > 0 && m - 1 > k && cs[m - 1] != '.'
        invariant
            k <= m <= n || m == n,
            k <= n,
            n == cs.len(),
            forall|j: int| m <= j < n ==> cs@[j] != '.',
        decreases m,
    {
        m = m - 1;
    }
    if m == 0 || m - 1 <= k {
        proof {
            assert(forall|i: int| 1 <= i < name.len() ==> name[i] != '.');
            assert(extension_of(path@) is None);
        }
        return false;
    }
    proof {
        assert(cs@[m - 1] == '.');
        assert(name[m - 1 - k] == '.');
        assert(1 <= m - 1 - k < name.len());
        assert(extension_of(path@) is Some);
        lemma_suffix_after_last_at(name, '.', m - 1 - k);
        assert(name.subrange(m - k, name.len() as int) =~= cs@.subrange(m as int, n as int));
    }
    let mut ext: Vec<char> = Vec::new();
    let mut i: usize = m;
    while i < n
        invariant
            m <= i <= n,
            n == cs.len(),
            ext@ == cs@.subrange(m as int, i as int),
        decreases n - i,
    {
        ext.push(cs[i]);
        i = i + 1;
        proof {
            assert(ext@ =~= cs@.subrange(m as int, i as int));
        }
    }
    proof {
        assert(ext@ == extension_of(path@)->0);
    }
    chars_eq(&ext, &chars_vec("log")) || chars_eq(&ext, &chars_vec("jsonl")) || chars_eq(
        &ext,
        &chars_vec("json"),
    )
}

/// Where an incremental read starts, given the stored offset and the
/// file's current length: from the stored offset normally; from 0
/// when the file shrank below it (truncation or rotation); nowhere
/// when no bytes lie beyond the effective offset.
pub open spec fn spec_plan_read(stored: u64, file_len: u64) -> Option<u64> {
    let effective: u64 = if file_len < stored {
        0
    } else {
        stored
    };
    if file_len <= effective {
        None
    } else {
        Some(effective)
    }
}

/// Decides where an incremental read of `path` starts, if anywhere.
pub fn plan_read(store: &LogStore, path: &str, file_len: u64) -> (r: Option<u64>)
    ensures
        r == spec_plan_read(store.offset_of(path@), file_len),
{
    let stored = store.get_offset(path);
    let effective: u64 = if file_len < stored {
        0
    } else {
        stored
    };
    if file_len <= effective {
        None
    } else {
        Some(effective)
    }
}

/// `e` is a record that parsing `line` can produce, for some freshly
/// generated identifier and timestamp.
pub open spec fn is_entry_for(line: Seq<char>, e: LogEntryV) -> bool {
    exists|gen: Seq<char>, now: Seq<char>|
        gen.len() == 36 && now.len() > 0 && #[trigger] spec_parse(line, gen, now) == Some(e)
}

/// `out` is what parsing `lines` in order can produce: blank lines
/// drop out, every other line contributes exactly one record.
pub open spec fn is_batch_for(lines: Seq<Seq<char>>, out: Seq<LogEntryV>) -> bool
    decreases lines.len(),
{
    if lines.len() == 0 {
        out.len() == 0
    } else if trim_spec(lines[0]).len() == 0 {
        is_batch_for(lines.drop_first(), out)
    } else {
        out.len() > 0 && is_entry_for(lines[0], out[0]) && is_batch_for(
            lines.drop_first(),
            out.drop_first(),
        )
    }
}

proof fn lemma_batch_push_blank(lines: Seq<Seq<char>>, out: Seq<LogEntryV>, l: Seq<char>)
    requires
        is_batch_for(lines, out),
        trim_spec(l).len() == 0,
    ensures
        is_batch_for(lines.push(l), out),
    decreases lines.len(),
{
    if lines.len() == 0 {
        assert(lines.push(l)[0] == l);
        assert(lines.push(l).drop_first() =~= lines);
    } else {
        assert(lines.push(l)[0] == lines[0]);
        assert(lines.push(l).drop_first() =~= lines.drop_first().push(l));
        if trim_spec(lines[0]).len() == 0 {
            lemma_batch_push_blank(lines.drop_first(), out, l);
        } else {
            lemma_batch_push_blank(lines.drop_first(), out.drop_first(), l);
        }
    }
}

proof fn lemma_batch_push_entry(
    lines: Seq<Seq<char>>,
    out: Seq<LogEntryV>,
    l: Seq<char>,
    e: LogEntryV,
)
    requires
        is_batch_for(lines, out),
        trim_spec(l).len() > 0,
        is_entry_for(l, e),
    ensures
        is_batch_for(lines.push(l), out.push(e)),
    decreases lines.len(),
{
    if lines.len() == 0 {
        assert(lines.push(l)[0] == l);
        assert(out.push(e)[0] == e);
        assert(lines.push(l).drop_first() =~= lines);
        assert(out.push(e).drop_first() =~= out);
    } else {
        assert(lines.push(l)[0] == lines[0]);
        assert(lines.push(l).drop_first() =~= lines.drop_first().push(l));
        if trim_spec(lines[0]).len() == 0 {
            lemma_batch_push_entry(lines.drop_first(), out, l, e);
        } else {
            assert(out.push(e)[0] == out[0]);
            assert(out.push(e).drop_first() =~= out.drop_first().push(e));
            lemma_batch_push_entry(lines.drop_first(), out.drop_first(), l, e);
        }
    }
}

/// Parses a batch of raw lines in order; blank lines drop out.
pub fn parse_lines(lines: &Vec<String>) -> (r: Vec<LogEntry>)
    ensures
        is_batch_for(lines.deep_view(), r.deep_view()),
{
    let mut out: Vec<LogEntry> = Vec::new();
    let n = lines.len();
    let mut i: usize = 0;
    #[verifier::loop_isolation(false)]
    while i < n
        invariant
            0 <= i <= n,
            n == lines.len(),
            is_batch_for(lines.deep_view().subrange(0, i as int), out.deep_view()),
        decreases n - i,
    {
        let ghost lpre = lines.deep_view().subrange(0, i as int);
        let ghost opre = out.deep_view();
        match parse_log_line(lines[i].as_str()) {
            Some(e) => {
                let ghost ev = e.deep_view();
                proof {
                    assert(is_entry_for(lines.deep_view()[i as int], ev));
                }
                out.push(e);
                proof {
                    assert(out.deep_view() =~= opre.push(ev));
                    lemma_batch_push_entry(lpre, opre, lines.deep_view()[i as int], ev);
                }
            },
            None => {
                proof {
                    lemma_batch_push_blank(lpre, opre, lines.deep_view()[i as int]);
                }
            },
        }
        i = i + 1;
        proof {
            assert(lines.deep_view().subrange(0, i as int) =~= lpre.push(
                lines.deep_view()[i - 1],
            ));
        }
    }
    proof {
        assert(lines.deep_view().subrange(0, n as int) =~= lines.deep_view());
    }
    out
}

/// Reads the newly appended part of a file, as the change-detection
/// paths do. The caller stats the file and, when `plan_read` says
/// there is new data, reads the raw lines from that byte position and
/// hands them in. When there is nothing new — in particular when the
/// offset already stands at the file's length — the store is left
/// untouched and no batch is produced; otherwise the lines are parsed
/// and the stored offset advances to the file's length as observed at
/// this read. The records are returned, not appended: the caller
/// appends and publishes them as one batch.
pub fn read_new_entries(store: &mut LogStore, path: &str, file_len: u64, lines: &Vec<String>) -> (r:
    Option<Vec<LogEntry>>)
    ensures
        r is Some <==> spec_plan_read(old(store).offset_of(path@), file_len) is Some,
        match r {
            Some(es) => {
                &&& is_batch_for(lines.deep_view(), es.deep_view())
                &&& final(store).offset_of(path@) == file_len
                &&& forall|q: Seq<char>|
                    q != path@ ==> final(store).offset_of(q) == old(store).offset_of(q)
                &&& final(store).entries_view() == old(store).entries_view()
                &&& final(store).error_count_view() == old(store).error_count_view()
                &&& final(store).wf() == old(store).wf()
            },
            None => *final(store) == *old(store),
        },
{
    match plan_read(store, path, file_len) {
        None => None,
        Some(_start) => {
            let es = parse_lines(lines);
            store.set_offset(path, file_len);
            Some(es)
        },
    }
}

/// Reads a whole file from its start, as the initial full scan does:
/// every line is parsed and the stored offset is set to the file's
/// length. The records are returned, not appended.
pub fn read_file_entries(store: &mut LogStore, path: &str, file_len: u64, lines: &Vec<String>) -> (
    r: Vec<LogEntry>)
    ensures
        is_batch_for(lines.deep_view(), r.deep_view()),
        final(store).offset_of(path@) == file_len,
        forall|q: Seq<char>| q != path@ ==> final(store).offset_of(q) == old(store).offset_of(q),
        final(store).entries_view() == old(store).entries_view(),
        final(store).error_count_view() == old(store).error_count_view(),
        final(store).wf() == old(store).wf(),
{
    let es = parse_lines(lines);
    store.set_offset(path, file_len);
    es
}

/// Records ordered newest-first by timestamp.
pub open spec fn sorted_desc(es: Seq<LogEntryV>) -> bool {
    forall|i: int, j: int| 0 <= i <= j < es.len() ==> lex_leq(es[j].timestamp, es[i].timestamp)
}

/// Sorts records newest-first by timestamp (code-point order on the
/// timestamp text, which is chronological for the fixed-width
/// timestamp format records carry).
pub fn sort_entries_desc(v: Vec<LogEntry>) -> (r: Vec<LogEntry>)
    ensures
        sorted_desc(r.deep_view()),
        r.deep_view().to_multiset() == v.deep_view().to_multiset(),
{
    broadcast use vstd::seq_lib::group_to_multiset_ensures;

    let mut rest = v;
    let mut out: Vec<LogEntry> = Vec::new();
    #[verifier::loop_isolation(false)]
    while rest.len() > 0
        invariant
            sorted_desc(out.deep_view()),
            forall|a: int, b: int|
                0 <= a < out.deep_view().len() && 0 <= b < rest.deep_view().len() ==> lex_leq(
                    #[trigger] rest.deep_view()[b].timestamp,
                    #[trigger] out.deep_view()[a].timestamp,
                ),
            out.deep_view().to_multiset().add(rest.deep_view().to_multiset())
                == v.deep_view().to_multiset(),
        decreases rest.len(),
    {
        let ghost rm = rest.deep_view();
        let mut mi: usize = 0;
        let mut idx: usize = 1;
        proof {
            lemma_lex_total(rm[0].timestamp, rm[0].timestamp);
        }
        while idx < rest.len()
            invariant
                rest.deep_view() == rm,
                0 <= mi < rest.len(),
                1 <= idx <= rest.len(),
                forall|j: int|
                    0 <= j < idx ==> lex_leq(
                        #[trigger] rm[j].timestamp,
                        rm[mi as int].timestamp,
                    ),
            decreases rest.len() - idx,
        {
            let a = chars_vec(rest[idx].timestamp.as_str());
            let b = chars_vec(rest[mi].timestamp.as_str());
            proof {
                assert(a@ == rm[idx as int].timestamp);
                assert(b@ == rm[mi as int].timestamp);
            }
            if !crate::text::chars_leq(&a, &b) {
                proof {
                    lemma_lex_total(a@, b@);
                    assert forall|j: int| 0 <= j < idx implies lex_leq(
                        rm[j].timestamp,
                        rm[idx as int].timestamp,
                    ) by {
                        lemma_lex_trans(rm[j].timestamp, rm[mi as int].timestamp, a@);
                    }
                    lemma_lex_total(rm[idx as int].timestamp, rm[idx as int].timestamp);
                }
                mi = idx;
            } else {
                proof {
                    assert(lex_leq(rm[idx as int].timestamp, rm[mi as int].timestamp));
                }
            }
            idx = idx + 1;
        }
        proof {
            lemma_lex_total(rm[mi as int].timestamp, rm[mi as int].timestamp);
        }
        let ghost opre = out.deep_view();
        let e = rest.remove(mi);
        out.push(e);
        proof {
            let ev = e.deep_view();
            assert(ev == rm[mi as int]);
            assert forall|j: int| 0 <= j < rest@.len() implies rest.deep_view()[j] == rm.remove(
                mi as int,
            )[j] by {
                if j < mi {
                    assert(rest@[j] == rest@[j]);
                } else {
                    assert(rest@[j] == rest@[j]);
                }
            }
            assert(rest.deep_view() =~= rm.remove(mi as int));
            assert(out.deep_view() =~= opre.push(ev));
            assert(out.deep_view().to_multiset() =~= opre.to_multiset().insert(ev));
            assert(rest.deep_view().to_multiset() =~= rm.to_multiset().remove(ev));
            assert(out.deep_view().to_multiset().add(rest.deep_view().to_multiset()) =~= opre
                .to_multiset().add(rm.to_multiset()));
            assert forall|a: int, b: int|
                0 <= a < out.deep_view().len() && 0 <= b < rest.deep_view().len() implies lex_leq(
                rest.deep_view()[b].timestamp,
                out.deep_view()[a].timestamp,
            ) by {
                let rb = rest.deep_view()[b];
                if a < opre.len() {
                    assert(lex_leq(rb.timestamp, opre[a].timestamp));
                } else {
                    if b < mi {
                        assert(rb == rm[b]);
                    } else {
                        assert(rb == rm[b + 1]);
                    }
                    assert(lex_leq(rb.timestamp, ev.timestamp));
                }
            }
        }
    }
    proof {
        assert(rest.deep_view().to_multiset() =~= Multiset::<LogEntryV>::empty());
        assert(out.deep_view().to_multiset() =~= v.deep_view().to_multiset());
    }
    out
}

/// One file of the initial scan: its path, its length when read, and
/// the raw lines of its whole content.
pub struct ScannedFile {
    pub path: String,
    pub len: u64,
    pub lines: Vec<String>,
}

/// A copy of a batch of records with the same model.
pub fn duplicate_entries(es: &Vec<LogEntry>) -> (r: Vec<LogEntry>)
    ensures
        r.deep_view() == es.deep_view(),
{
    let n = es.len();
    let mut out: Vec<LogEntry> = Vec::new();
    let mut i: usize = 0;
    #[verifier::loop_isolation(false)]
    while i < n
        invariant
            0 <= i <= n,
            n == es.len(),
            out.deep_view() =~= es.deep_view().subrange(0, i as int),
        decreases n - i,
    {
        out.push(es[i].duplicate());
        i = i + 1;
        proof {
            assert(out.deep_view() =~= es.deep_view().subrange(0, i as int));
        }
    }
    proof {
        assert(out.deep_view() =~= es.deep_view());
    }
    out
}

/// The initial full read of a freshly loaded folder: the store and
/// its offsets are cleared, every scanned file is read from byte 0
/// and its offset set to its length, and all records, sorted
/// newest-first by timestamp, are appended as one batch and returned.
pub fn load_folder(store: &mut LogStore, files: &Vec<ScannedFile>) -> (r: Vec<LogEntry>)
    requires
        old(store).wf(),
    ensures
        final(store).wf(),
        sorted_desc(r.deep_view()),
        final(store).entries_view() == r.deep_view(),
        final(store).error_count_view() == spec_error_count(r.deep_view()),
        exists|batches: Seq<Seq<LogEntryV>>|
            {
                &&& batches.len() == files@.len()
                &&& (forall|k: int|
                    0 <= k < batches.len() ==> is_batch_for(
                        #[trigger] files@[k].lines.deep_view(),
                        batches[k],
                    ))
                &&& r.deep_view().to_multiset() == batches.flatten().to_multiset()
            },
        forall|k: int|
            0 <= k < files@.len() && (forall|k2: int|
                k < k2 < files@.len() ==> files@[k2].path@ != #[trigger] files@[k].path@)
                ==> final(store).offset_of(files@[k].path@) == files@[k].len,
{
    store.clear();
    store.clear_offsets();
    let mut all: Vec<LogEntry> = Vec::new();
    let ghost mut batches: Seq<Seq<LogEntryV>> = Seq::empty();
    let n = files.len();
    let mut i: usize = 0;
    #[verifier::loop_isolation(false)]
    while i < n
        invariant
            0 <= i <= n,
            n == files.len(),
            batches.len() == i,
            forall|k: int|
                0 <= k < i ==> is_batch_for(#[trigger] files@[k].lines.deep_view(), batches[k]),
            all.deep_view() == batches.flatten(),
            store.entries_view() == Seq::<LogEntryV>::empty(),
            store.error_count_view() == 0,
            store.wf(),
            forall|k: int|
                0 <= k < i && (forall|k2: int|
                    k < k2 < i ==> files@[k2].path@ != #[trigger] files@[k].path@)
                    ==> store.offset_of(files@[k].path@) == files@[k].len,
        decreases n - i,
    {
        let mut es = read_file_entries(store, files[i].path.as_str(), files[i].len, &files[i].lines);
        let ghost ev = es.deep_view();
        let ghost apre = all.deep_view();
        all.append(&mut es);
        proof {
            let bpre = batches;
            batches = batches.push(ev);
            lemma_flatten_push(bpre, ev);
            assert(all.deep_view() =~= apre + ev);
            assert(batches.flatten() == bpre.flatten() + ev);
        }
        i = i + 1;
    }
    let all_sorted = sort_entries_desc(all);
    let copy = duplicate_entries(&all_sorted);
    store.append_entries(copy);
    proof {
        assert(store.entries_view() =~= all_sorted.deep_view());
    }
    all_sorted
}

/// Flattening distributes over appending one more batch.
proof fn lemma_flatten_push(bs: Seq<Seq<LogEntryV>>, b: Seq<LogEntryV>)
    ensures
        bs.push(b).flatten() == bs.flatten() + b,
    decreases bs.len(),
{
    if bs.len() == 0 {
        assert(bs.push(b)[0] == b);
        assert(bs.push(b).drop_first() =~= bs);
        assert(bs.flatten() =~= Seq::<LogEntryV>::empty());
        assert(bs.push(b).flatten() =~= bs.flatten() + b);
    } else {
        lemma_flatten_push(bs.drop_first(), b);
        assert(bs.push(b)[0] == bs[0]);
        assert(bs.push(b).drop_first() =~= bs.drop_first().push(b));
        assert(bs[0] + (bs.drop_first().flatten() + b) =~= (bs[0] + bs.drop_first().flatten())
            + b);
    }
}

/// The watch session: at most one root is watched at a time. The
/// platform watch registration and the poll thread live with the
/// caller; this state machine decides what each request does. A
/// `start` implicitly ends the prior session; a failed registration
/// leaves the session stopped; `stop` is a no-op when nothing runs.
pub struct FileWatcher {
    watched: Option<String>,
}

impl FileWatcher {
    /// The watched root, when a session is active.
    pub closed spec fn watched_view(&self) -> Option<Seq<char>> {
        match self.watched {
            Some(ref p) => Some(p@),
            None => None,
        }
    }

    /// A watcher with no active session.
    pub fn new() -> (r: FileWatcher)
        ensures
            r.watched_view() is None,
    {
        FileWatcher { watched: None }
    }

    /// Starts watching `folder`, ending any prior session first.
    /// `registered` reports whether the caller's platform watch
    /// registration of the root succeeded; on failure the session
    /// stays stopped and the failure is handed back.
    pub fn start(&mut self, folder: String, registered: bool) -> (r: bool)
        ensures
            r == registered,
            registered ==> final(self).watched_view() == Some(folder@),
            !registered ==> final(self).watched_view() is None,
    {
        self.stop();
        if registered {
            self.watched = Some(folder);
            true
        } else {
            false
        }
    }

    /// Ends the session if one is active; safe to call at any time.
    pub fn stop(&mut self)
        ensures
            final(self).watched_view() is None,
    {
        self.watched = None;
    }
}

/// Law: reading a file twice with no change in between delivers
/// nothing the second time. The first read leaves the stored offset
/// at the file's length; for the same length the plan is then empty,
/// and an incremental read with an empty plan returns no batch and
/// leaves the store — offset included — exactly as it was.
pub proof fn lemma_incremental_read_idempotent(store: LogStore, path: Seq<char>, file_len: u64)
    requires
        store.offset_of(path) == file_len,
    ensures
        spec_plan_read(store.offset_of(path), file_len) is None,
{
}

/// Law: a file whose length fell below the stored offset is re-read
/// from the start: the plan after truncation begins at byte 0.
pub proof fn lemma_truncation_rereads_from_start(stored: u64, file_len: u64)
    requires
        0 < file_len < stored,
    ensures
        spec_plan_read(stored, file_len) == Some(0u64),
{
}

/// Law: of two racing incremental reads of one unchanged file —
/// event-driven and polled — serialized on the store, only the first
/// delivers records. The first advances the offset to the file's
/// length; the second then plans no read, returns no batch, and
/// appends nothing.
pub proof fn lemma_concurrent_reads_deliver_once(store: LogStore, path: Seq<char>, file_len: u64)
    requires
        store.offset_of(path) == file_len,
    ensures
        spec_plan_read(store.offset_of(path), file_len) is None,
{
}

} // verus!
