//! Per-server session state: the edits made so far and the last test run.
//! It is the memory that test-failure attribution and the status resource
//! read.

use vstd::prelude::*;

use crate::assoc::KeyEq;
use crate::graph::types::SymbolId;
use crate::runner::TestResults;

verus! {

#[verifier::external_type_specification]
#[verifier::external_body]
pub struct ExInstant(std::time::Instant);

/// Calls `Instant::now`; nothing is promised of the reading.
#[verifier::external_body]
fn now() -> std::time::Instant {
    std::time::Instant::now()
}

/// Calls `Instant::elapsed`; the span depends on the clock.
#[verifier::external_body]
fn elapsed_since(t: &std::time::Instant) -> std::time::Duration {
    t.elapsed()
}

/// Calls `Duration::as_millis`; the span depends on the clock.
#[verifier::external_body]
fn millis_of(d: &std::time::Duration) -> u128 {
    d.as_millis()
}

/// Session state shared by the tool handlers.
#[derive(Debug)]
pub struct SessionState {
    modified_files: Vec<(String, std::time::Instant)>,
    modified_symbols: Vec<(SymbolId, std::time::Instant)>,
    last_test_results: Option<TestResults>,
    session_start: Option<std::time::Instant>,
}

/// How many edits were recorded after the latest edit of `id` in `log`
/// (`0` for the latest edit overall); `None` when `id` was never edited.
pub open spec fn edits_ago_in(log: Seq<(Seq<char>, Seq<char>, crate::graph::types::SymbolKind)>, id: (Seq<char>, Seq<char>, crate::graph::types::SymbolKind)) -> Option<nat>
    decreases log.len(),
{
    if log.len() == 0 {
        None
    } else if log.last() == id {
        Some(0)
    } else {
        match edits_ago_in(log.drop_last(), id) {
            Some(n) => Some(n + 1),
            None => None,
        }
    }
}

impl SessionState {
    /// The edited symbols, oldest first.
    pub closed spec fn edit_log(&self) -> Seq<(Seq<char>, Seq<char>, crate::graph::types::SymbolKind)> {
        self.modified_symbols@.map_values(|e: (SymbolId, std::time::Instant)| e.0@)
    }

    /// The edited files, oldest first.
    pub closed spec fn file_log(&self) -> Seq<Seq<char>> {
        self.modified_files@.map_values(|e: (String, std::time::Instant)| e.0@)
    }

    /// The results of the last recorded test run.
    pub closed spec fn last_results(&self) -> Option<TestResults> {
        self.last_test_results
    }

    /// The session has a start time.
    pub closed spec fn started(&self) -> bool {
        self.session_start is Some
    }

    /// A session started now, with no edits and no test run.
    pub fn new() -> (r: Self)
        ensures
            r.edit_log().len() == 0,
            r.file_log().len() == 0,
            r.last_results() is None,
            r.started(),
    {
        let s = SessionState {
            modified_files: Vec::new(),
            modified_symbols: Vec::new(),
            last_test_results: None,
            session_start: Some(now()),
        };
        assert(s.edit_log() =~= Seq::empty());
        assert(s.file_log() =~= Seq::empty());
        s
    }

    /// Record an edit of `path`.
    pub fn record_file_edit(&mut self, path: &str)
        ensures
            final(self).file_log() == old(self).file_log().push(path@),
            final(self).edit_log() == old(self).edit_log(),
            final(self).last_results() == old(self).last_results(),
            final(self).started() == old(self).started(),
    {
        let t = now();
        let ghost before = self.file_log();
        self.modified_files.push((path.to_owned(), t));
        assert(self.file_log() =~= before.push(path@));
    }

    /// Record an edit of the symbol `id`.
    pub fn record_symbol_edit(&mut self, id: SymbolId)
        ensures
            final(self).edit_log() == old(self).edit_log().push(id@),
            final(self).file_log() == old(self).file_log(),
            final(self).last_results() == old(self).last_results(),
            final(self).started() == old(self).started(),
    {
        let ghost before = self.edit_log();
        let ghost v = id@;
        self.modified_symbols.push((id, now()));
        assert(self.edit_log() =~= before.push(v));
    }

    /// Record the results of a test run, replacing the previous one.
    pub fn record_test_results(&mut self, results: TestResults)
        ensures
            final(self).last_results() == Some(results),
            final(self).edit_log() == old(self).edit_log(),
            final(self).file_log() == old(self).file_log(),
            final(self).started() == old(self).started(),
    {
        self.last_test_results = Some(results);
    }

    /// The edited symbols with the time of each edit, oldest first.
    pub fn modified_symbols(&self) -> (r: &[(SymbolId, std::time::Instant)])
        ensures
            r@.map_values(|e: (SymbolId, std::time::Instant)| e.0@) == self.edit_log(),
    {
        self.modified_symbols.as_slice()
    }

    /// The results of the last test run, if any.
    pub fn last_test_results(&self) -> (r: Option<&TestResults>)
        ensures
            match r {
                Some(t) => self.last_results() == Some(*t),
                None => self.last_results() is None,
            },
    {
        match &self.last_test_results {
            Some(t) => Some(t),
            None => None,
        }
    }

    /// Milliseconds since the session started, or `None` for a session
    /// without a start time. The value depends on the clock.
    pub fn elapsed_ms(&self) -> (r: Option<u128>)
        ensures
            r is Some <==> self.started(),
    {
        match &self.session_start {
            Some(t) => {
                let d = elapsed_since(t);
                Some(millis_of(&d))
            },
            None => None,
        }
    }

    /// How many edits ago the symbol `id` was last modified (`0` for the
    /// latest edit), or `None` when it has not been edited in this session.
    pub fn edits_ago(&self, id: &SymbolId) -> (r: Option<usize>)
        ensures
            match r {
                Some(n) => edits_ago_in(self.edit_log(), id@) == Some(n as nat),
                None => edits_ago_in(self.edit_log(), id@) is None,
            },
    {
        let ghost log = self.edit_log();
        let n = self.modified_symbols.len();
        let mut k: usize = 0;
        assert(log.take(n as int) =~= log);
        while k < n
            invariant
                n == self.modified_symbols@.len(),
                log == self.edit_log(),
                log.len() == n,
                k <= n,
                edits_ago_in(log, id@) == match edits_ago_in(log.take(n - k), id@) {
                    Some(m) => Some((m + k) as nat),
                    None => None::<nat>,
                },
            decreases n - k,
        {
            let i = n - 1 - k;
            assert(log.take(n - k).drop_last() =~= log.take(n - k - 1));
            assert(log.take(n - k).last() == log[i as int]);
            assert(log[i as int] == self.modified_symbols@[i as int].0@);
            if self.modified_symbols[i].0.key_eq(id) {
                return Some(k);
            }
            k = k + 1;
        }
        assert(log.take(0) =~= Seq::empty());
        None
    }
}

impl Default for SessionState {
    /// A session with no start time, no edits and no test run.
    fn default() -> (r: Self)
        ensures
            r.edit_log().len() == 0,
            r.file_log().len() == 0,
            r.last_results() is None,
            !r.started(),
    {
        let s = SessionState {
            modified_files: Vec::new(),
            modified_symbols: Vec::new(),
            last_test_results: None,
            session_start: None,
        };
        assert(s.edit_log() =~= Seq::empty());
        assert(s.file_log() =~= Seq::empty());
        s
    }
}

/// Recording an edit of `id` makes it the latest edit (`0` edits ago) and
/// moves every other edited symbol one edit further back.
pub proof fn lemma_record_shifts_edits_ago(
    log: Seq<(Seq<char>, Seq<char>, crate::graph::types::SymbolKind)>,
    id: (Seq<char>, Seq<char>, crate::graph::types::SymbolKind),
    other: (Seq<char>, Seq<char>, crate::graph::types::SymbolKind),
)
    ensures
        edits_ago_in(log.push(id), id) == Some(0nat),
        other != id ==> edits_ago_in(log.push(other), id) == match edits_ago_in(log, id) {
            Some(n) => Some(n + 1),
            None => None::<nat>,
        },
{
    assert(log.push(id).drop_last() =~= log);
    assert(log.push(other).drop_last() =~= log);
}

/// A symbol is reported as edited exactly when it occurs in the edit log.
pub proof fn lemma_edits_ago_iff_edited(
    log: Seq<(Seq<char>, Seq<char>, crate::graph::types::SymbolKind)>,
    id: (Seq<char>, Seq<char>, crate::graph::types::SymbolKind),
)
    ensures
        (edits_ago_in(log, id) is Some) == log.contains(id),
        edits_ago_in(log, id) matches Some(n) ==> n < log.len() && log[log.len() - 1 - n] == id,
    decreases log.len(),
{
    if log.len() > 0 {
        lemma_edits_ago_iff_edited(log.drop_last(), id);
        if log.last() != id {
            if log.contains(id) {
                let j = choose|j: int| 0 <= j < log.len() && log[j] == id;
                assert(log.drop_last()[j] == id);
            }
            if log.drop_last().contains(id) {
                let j = choose|j: int| 0 <= j < log.drop_last().len() && log.drop_last()[j] == id;
                assert(log[j] == id);
            }
        } else {
            assert(log[log.len() - 1] == id);
        }
    }
}

} // verus!
