//! An import run's state as clients receive it: the summary and failures moved field for
//! field from the run's records, and the run's state named.
use vstd::prelude::*;

use crate::import_run::{Failure, ImportStateKind, Status, Summary};

verus! {

#[derive(Debug, Clone, PartialEq, Eq)]
pub struct ImportFailure {
    pub name: String,
    pub reason: String,
}

#[derive(Debug, Clone, PartialEq, Eq)]
pub struct ImportSummary {
    pub total_scanned: u32,
    pub created: u32,
    pub linked: u32,
    pub skipped: u32,
    pub failed: u32,
    pub failures: Vec<ImportFailure>,
}

#[derive(Debug, Clone, PartialEq, Eq)]
pub struct ImportStatus {
    pub state: ImportStateKind,
    pub last_summary: Option<ImportSummary>,
}

/// The client form of a failure.
pub open spec fn failure_of(f: Failure) -> ImportFailure {
    ImportFailure { name: f.name, reason: f.reason }
}

/// The client form of a summary holds the same counts and the failures in the same order.
pub open spec fn summary_matches(r: ImportSummary, s: Summary) -> bool {
    &&& r.total_scanned == s.total_scanned
    &&& r.created == s.created
    &&& r.linked == s.linked
    &&& r.skipped == s.skipped
    &&& r.failed == s.failed
    &&& r.failures@ == s.failures@.map_values(|f: Failure| failure_of(f))
}

impl ImportFailure {
    pub fn from(f: Failure) -> (r: ImportFailure)
        ensures
            r == failure_of(f),
    {
        ImportFailure { name: f.name, reason: f.reason }
    }
}

impl ImportSummary {
    pub fn from(s: Summary) -> (r: ImportSummary)
        ensures
            summary_matches(r, s),
    {
        let Summary { total_scanned, created, linked, skipped, failed, failures } = s;
        let ghost orig = failures@;
        let n = failures.len();
        let mut rev = crate::discovery::into_reversed(failures);
        let mut out: Vec<ImportFailure> = Vec::new();
        let mut i: usize = 0;
        while i < n
            invariant
                i <= n,
                orig.len() == n,
                rev@.len() == n - i,
                forall|k: int| 0 <= k < rev@.len() ==> #[trigger] rev@[k] == orig[n - 1 - k],
                out@ == orig.take(i as int).map_values(|f: Failure| failure_of(f)),
            decreases n - i,
        {
            let f = rev.pop().unwrap();
            assert(f == orig[i as int]);
            out.push(ImportFailure::from(f));
            assert(orig.take(i + 1) =~= orig.take(i as int).push(f));
            assert(out@ =~= orig.take(i + 1).map_values(|f: Failure| failure_of(f)));
            i = i + 1;
        }
        assert(orig.take(n as int) =~= orig);
        ImportSummary { total_scanned, created, linked, skipped, failed, failures: out }
    }
}

impl ImportStatus {
    /// A running import is reported as running, any other as idle, with the last
    /// completed run's summary.
    pub fn from(s: Status) -> (r: ImportStatus)
        ensures
            r.state == (if s.running {
                ImportStateKind::Running
            } else {
                ImportStateKind::Idle
            }),
            match (r.last_summary, s.last_summary) {
                (Some(a), Some(b)) => summary_matches(a, b),
                (None, None) => true,
                _ => false,
            },
    {
        let state = s.state();
        let last_summary = match s.last_summary {
            Some(summary) => Some(ImportSummary::from(summary)),
            None => None,
        };
        ImportStatus { state, last_summary }
    }
}

} // verus!
