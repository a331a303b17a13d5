//! The in-memory store behind the tailer: the append-only sequence of
//! parsed records with a running count of error-level records, and the
//! table of per-file byte offsets that incremental reads advance.

use vstd::prelude::*;

use crate::log_parser::{LogEntry, LogEntryV, LogLevel};

verus! {

broadcast use vstd::std_specs::vec::group_vec_axioms;

/// A level that counts towards the error counter.
pub open spec fn is_error_level(l: LogLevel) -> bool {
    l == LogLevel::Error || l == LogLevel::Critical
}

/// How many records of a batch are error-level.
pub open spec fn spec_error_count(es: Seq<LogEntryV>) -> int
    decreases es.len(),
{
    if es.len() == 0 {
        0
    } else {
        spec_error_count(es.drop_last()) + if is_error_level(es.last().level) {
            1int
        } else {
            0int
        }
    }
}

pub proof fn lemma_error_count_bound(es: Seq<LogEntryV>)
    ensures
        0 <= spec_error_count(es) <= es.len(),
    decreases es.len(),
{
    if es.len() > 0 {
        lemma_error_count_bound(es.drop_last());
    }
}

/// The offset stored for `path` in an offset table: the value of the
/// first pair naming it, or 0 when none does.
pub open spec fn spec_offset_of(pairs: Seq<(Seq<char>, u64)>, path: Seq<char>) -> u64
    decreases pairs.len(),
{
    if pairs.len() == 0 {
        0
    } else if pairs[0].0 == path {
        pairs[0].1
    } else {
        spec_offset_of(pairs.drop_first(), path)
    }
}

/// The store of parsed records and per-file read offsets. Records are
/// append-only between clears; the error counter always equals the
/// number of error-level records held. The offset table is kept as a
/// sequence of pairs where the newest entry for a file stands first
/// and shadows older ones.
pub struct LogStore {
    entries: Vec<LogEntry>,
    offsets: Vec<(String, u64)>,
    error_count: usize,
}

impl LogStore {
    /// The records held, in insertion order.
    pub closed spec fn entries_view(&self) -> Seq<LogEntryV> {
        self.entries.deep_view()
    }

    /// The offset table, newest pair first.
    pub closed spec fn offsets_view(&self) -> Seq<(Seq<char>, u64)> {
        self.offsets.deep_view()
    }

    /// The offset stored for a file, 0 when none is.
    pub open spec fn offset_of(&self, path: Seq<char>) -> u64 {
        spec_offset_of(self.offsets_view(), path)
    }

    /// The error counter.
    pub closed spec fn error_count_view(&self) -> int {
        self.error_count as int
    }

    /// Well-formedness: the counter equals the number of error-level
    /// records held. `new` establishes it and every method keeps it.
    pub closed spec fn wf(&self) -> bool {
        self.error_count == spec_error_count(self.entries.deep_view())
    }

    /// An empty store: no records, no offsets, a zero counter.
    pub fn new() -> (r: LogStore)
        ensures
            r.entries_view() == Seq::<LogEntryV>::empty(),
            r.offsets_view() == Seq::<(Seq<char>, u64)>::empty(),
            r.error_count_view() == 0,
            r.wf(),
    {
        let r = LogStore { entries: Vec::new(), offsets: Vec::new(), error_count: 0 };
        proof {
            assert(r.entries.deep_view() =~= Seq::<LogEntryV>::empty());
            assert(r.offsets.deep_view() =~= Seq::<(Seq<char>, u64)>::empty());
        }
        r
    }

    /// Appends a batch of records; every error-level record in the
    /// batch raises the error counter by one, as part of the same
    /// operation.
    pub fn append_entries(&mut self, new_entries: Vec<LogEntry>)
        requires
            old(self).wf(),
        ensures
            final(self).wf(),
            final(self).entries_view() == old(self).entries_view() + new_entries.deep_view(),
            final(self).error_count_view() == old(self).error_count_view() + spec_error_count(
                new_entries.deep_view(),
            ),
            final(self).offsets_view() == old(self).offsets_view(),
    {
        let ghost base = self.entries.deep_view();
        let ghost batch = new_entries.deep_view();
        let mut rest = new_entries;
        let n = rest.len();
        let mut i: usize = 0;
        // Taking records from the front keeps the batch order.
        #[verifier::loop_isolation(false)]
        while i < n
            invariant
                0 <= i <= n,
                n == i + rest.len(),
                rest.deep_view() =~= batch.subrange(i as int, n as int),
                self.entries.deep_view() =~= base + batch.subrange(0, i as int),
                self.error_count == spec_error_count(self.entries.deep_view()),
                self.offsets == old(self).offsets,
            decreases n - i,
        {
            let ghost pre = rest@;
            let ghost pred = rest.deep_view();
            let e = rest.remove(0);
            proof {
                assert(e == pre[0]);
                assert(pred[0] == pre[0].deep_view());
                assert(e.deep_view() == batch[i as int]);
                assert(rest@ =~= pre.remove(0));
                assert forall|k: int| 0 <= k < rest@.len() implies rest.deep_view()[k] == batch[
                    i + 1 + k
                ] by {
                    assert(rest@[k] == pre[k + 1]);
                    assert(pred[k + 1] == pre[k + 1].deep_view());
                }
                assert(rest.deep_view() =~= batch.subrange(i as int + 1, n as int));
                lemma_error_count_bound(self.entries.deep_view());
            }
            let ghost entries_pre = self.entries@;
            let ghost entries_pre_d = self.entries.deep_view();
            let is_err = match e.level {
                LogLevel::Error => true,
                LogLevel::Critical => true,
                _ => false,
            };
            self.entries.push(e);
            proof {
                assert(self.entries@ == entries_pre.push(e));
                assert forall|k: int|
                    0 <= k < self.entries@.len() implies self.entries.deep_view()[k] == (base
                    + batch.subrange(0, i as int + 1))[k] by {
                    if k < entries_pre.len() {
                        assert(self.entries@[k] == entries_pre[k]);
                        assert(entries_pre_d[k] == entries_pre[k].deep_view());
                    } else {
                        assert(self.entries@[k] == e);
                    }
                }
                assert(self.entries.deep_view() =~= base + batch.subrange(0, i as int + 1));
                assert(self.entries.deep_view().drop_last() =~= base + batch.subrange(
                    0,
                    i as int,
                ));
                assert(self.entries.deep_view().last() == batch[i as int]);
                assert(self.entries@.len() == self.entries.len());
            }
            if is_err {
                self.error_count = self.error_count + 1;
            }
            i = i + 1;
        }
        proof {
            assert(self.entries.deep_view() =~= base + batch);
            lemma_error_count_batch(base, batch);
        }
    }

    /// A snapshot of all records held, in insertion order.
    pub fn get_all(&self) -> (r: Vec<LogEntry>)
        ensures
            r.deep_view() == self.entries_view(),
    {
        let n = self.entries.len();
        let mut out: Vec<LogEntry> = Vec::new();
        let mut i: usize = 0;
        #[verifier::loop_isolation(false)]
        while i < n
            invariant
                0 <= i <= n,
                n == self.entries.len(),
                out.deep_view() =~= self.entries.deep_view().subrange(0, i as int),
            decreases n - i,
        {
            out.push(self.entries[i].duplicate());
            i = i + 1;
            proof {
                assert(out.deep_view() =~= self.entries.deep_view().subrange(0, i as int));
            }
        }
        proof {
            assert(out.deep_view() =~= self.entries.deep_view());
        }
        out
    }

    /// Drops all records and resets the error counter; offsets are
    /// kept (they are cleared separately, on a fresh folder load).
    pub fn clear(&mut self)
        ensures
            final(self).entries_view() == Seq::<LogEntryV>::empty(),
            final(self).error_count_view() == 0,
            final(self).offsets_view() == old(self).offsets_view(),
            final(self).wf(),
    {
        self.entries.clear();
        self.error_count = 0;
        proof {
            assert(self.entries.deep_view() =~= Seq::<LogEntryV>::empty());
        }
    }

    /// The stored offset for a file; 0 when the file was never read.
    pub fn get_offset(&self, path: &str) -> (r: u64)
        ensures
            r == self.offset_of(path@),
    {
        let n = self.offsets.len();
        let mut i: usize = 0;
        let ghost m = self.offsets.deep_view();
        proof {
            assert(m.subrange(0, m.len() as int) =~= m);
        }
        #[verifier::loop_isolation(false)]
        while i < n
            invariant
                0 <= i <= n,
                n == self.offsets.len(),
                spec_offset_of(m, path@) == spec_offset_of(
                    m.subrange(i as int, m.len() as int),
                    path@,
                ),
            decreases n - i,
        {
            proof {
                let rest = m.subrange(i as int, m.len() as int);
                assert(rest[0] == m[i as int]);
                assert(rest.drop_first() =~= m.subrange(i + 1, m.len() as int));
            }
            if crate::text::str_eq(self.offsets[i].0.as_str(), path) {
                return self.offsets[i].1;
            }
            i = i + 1;
        }
        proof {
            assert(m.subrange(n as int, m.len() as int).len() == 0);
        }
        0
    }

    /// Records `offset` as the read position for a file. The new pair
    /// stands first and shadows any older one; other files keep their
    /// offsets.
    pub fn set_offset(&mut self, path: &str, offset: u64)
        ensures
            final(self).wf() == old(self).wf(),
            final(self).offset_of(path@) == offset,
            forall|q: Seq<char>|
                q != path@ ==> final(self).offset_of(q) == old(self).offset_of(q),
            final(self).entries_view() == old(self).entries_view(),
            final(self).error_count_view() == old(self).error_count_view(),
    {
        let ghost m = self.offsets.deep_view();
        let p = crate::text::string_from_chars(&crate::text::chars_vec(path));
        self.offsets.insert(0, (p, offset));
        proof {
            assert(self.offsets.deep_view()[0] == (path@, offset));
            assert(self.offsets.deep_view().drop_first() =~= m);
            assert(self.offset_of(path@) == offset);
            assert forall|q: Seq<char>| q != path@ implies spec_offset_of(
                self.offsets.deep_view(),
                q,
            ) == spec_offset_of(m, q) by {
                assert(self.offsets.deep_view()[0].0 != q);
            }
        }
    }

    /// Forgets every stored offset.
    pub fn clear_offsets(&mut self)
        ensures
            final(self).wf() == old(self).wf(),
            final(self).offsets_view() == Seq::<(Seq<char>, u64)>::empty(),
            forall|q: Seq<char>| final(self).offset_of(q) == 0,
            final(self).entries_view() == old(self).entries_view(),
            final(self).error_count_view() == old(self).error_count_view(),
    {
        self.offsets.clear();
        proof {
            assert(self.offsets.deep_view() =~= Seq::<(Seq<char>, u64)>::empty());
        }
    }

    /// How many records held are error-level.
    pub fn error_count(&self) -> (r: usize)
        ensures
            r == self.error_count_view(),
    {
        self.error_count
    }
}

/// Counting errors distributes over appending a batch.
pub proof fn lemma_error_count_batch(a: Seq<LogEntryV>, b: Seq<LogEntryV>)
    ensures
        spec_error_count(a + b) == spec_error_count(a) + spec_error_count(b),
    decreases b.len(),
{
    if b.len() == 0 {
        assert(a + b =~= a);
    } else {
        lemma_error_count_batch(a, b.drop_last());
        assert((a + b).drop_last() =~= a + b.drop_last());
        assert((a + b).last() == b.last());
    }
}

} // verus!
