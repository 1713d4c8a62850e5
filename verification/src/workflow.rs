//! The bookkeeping of a Music directory scan: its phases, the counters it publishes,
//! and how each reconciliation, match and import result is counted.
use vstd::prelude::*;

use crate::matching::{MatchOutcome, PreparedAlbum};
use crate::sort::{Keyed, key_of, sort_by, sort_by_key_vec};
use crate::reconciliation::{
    AlbumCandidate, DuplicateLocations, DuplicateView, ImportOutcome, LocationOutcome,
    LocationUpdate, ReconciliationPlan, candidate_views, duplicate_views, has_duplicate_entry,
    is_observed, observed, string_views,
};
use crate::text::{chars_of, str_equal, string_of};

verus! {

#[derive(Clone, Copy, Debug, PartialEq, Eq, Structural)]
pub enum ScanPhase {
    Scanning,
    Matching,
    Completed,
    Failed,
}

impl ScanPhase {
    /// A scan is active while it scans or matches.
    pub fn is_active(self) -> (r: bool)
        ensures
            r == (self == ScanPhase::Scanning || self == ScanPhase::Matching),
    {
        match self {
            ScanPhase::Scanning | ScanPhase::Matching => true,
            _ => false,
        }
    }
}

#[derive(Clone, Copy, Debug, PartialEq, Eq, Structural)]
pub struct ScanSummary {
    pub album_directories_found: usize,
    pub candidates_processed: usize,
    pub candidates_total: usize,
    pub albums_imported: usize,
    pub locations_attached: usize,
    pub locations_changed: usize,
    pub unchanged_locations: usize,
    pub locations_cleared: usize,
    pub unmatched_candidates: usize,
    pub ambiguous_matches: usize,
    pub duplicate_locations: usize,
    pub skipped_directories: usize,
    pub failures: usize,
    pub filesystem_errors: usize,
}

pub open spec fn zero_summary() -> ScanSummary {
    ScanSummary {
        album_directories_found: 0,
        candidates_processed: 0,
        candidates_total: 0,
        albums_imported: 0,
        locations_attached: 0,
        locations_changed: 0,
        unchanged_locations: 0,
        locations_cleared: 0,
        unmatched_candidates: 0,
        ambiguous_matches: 0,
        duplicate_locations: 0,
        skipped_directories: 0,
        failures: 0,
        filesystem_errors: 0,
    }
}

impl Default for ScanSummary {
    fn default() -> (r: Self)
        ensures
            r == zero_summary(),
    {
        ScanSummary {
            album_directories_found: 0,
            candidates_processed: 0,
            candidates_total: 0,
            albums_imported: 0,
            locations_attached: 0,
            locations_changed: 0,
            unchanged_locations: 0,
            locations_cleared: 0,
            unmatched_candidates: 0,
            ambiguous_matches: 0,
            duplicate_locations: 0,
            skipped_directories: 0,
            failures: 0,
            filesystem_errors: 0,
        }
    }
}

/// What a scan has done so far, and why it failed if it did.
#[derive(Clone, Debug, PartialEq, Eq)]
pub struct ScanSnapshot {
    pub phase: ScanPhase,
    pub summary: ScanSummary,
    pub failure_reason: Option<String>,
}

impl Default for ScanSnapshot {
    fn default() -> (r: Self)
        ensures
            r.phase == ScanPhase::Scanning,
            r.summary == zero_summary(),
            r.failure_reason is None,
    {
        ScanSnapshot { phase: ScanPhase::Scanning, summary: ScanSummary::default(), failure_reason: None }
    }
}

impl ScanSnapshot {
    /// Ends the scan as failed, counting one more failure and recording why.
    pub fn fail(&mut self, reason: &str)
        requires
            old(self).summary.failures < usize::MAX,
        ensures
            final(self).phase == ScanPhase::Failed,
            final(self).summary == (ScanSummary {
                failures: (old(self).summary.failures + 1) as usize,
                ..old(self).summary
            }),
            final(self).failure_reason matches Some(r) && r@ == reason@,
    {
        self.phase = ScanPhase::Failed;
        self.summary.failures = self.summary.failures + 1;
        self.failure_reason = Some(reason.to_owned());
    }
}

/// A filesystem error met during discovery.
#[derive(Clone, Debug, PartialEq, Eq)]
pub struct FilesystemDiagnostic {
    pub reason: String,
    pub path: String,
    pub os_error: String,
}

/// Discovery's counters while it walks the Music directory.
#[derive(Clone, Copy, Debug, PartialEq, Eq, Structural)]
pub struct DiscoveryProgress {
    pub album_directories_found: usize,
    pub skipped_directories: usize,
    pub filesystem_errors: usize,
}

/// What discovery found.
#[derive(Debug, PartialEq, Eq)]
pub struct DiscoveryReport {
    pub resolved_root: Option<String>,
    pub candidates: Vec<AlbumCandidate>,
    pub diagnostics: Vec<FilesystemDiagnostic>,
    pub root_failed: bool,
    pub skipped_directories: usize,
}

impl Default for DiscoveryReport {
    fn default() -> (r: Self)
        ensures
            r.resolved_root is None,
            r.candidates@.len() == 0,
            r.diagnostics@.len() == 0,
            !r.root_failed,
            r.skipped_directories == 0,
    {
        DiscoveryReport {
            resolved_root: None,
            candidates: Vec::new(),
            diagnostics: Vec::new(),
            root_failed: false,
            skipped_directories: 0,
        }
    }
}

/// `Path::join` of a root and a path: an absolute path replaces the root, an empty root
/// adds nothing, and a separator is added when the root lacks a trailing one.
pub open spec fn join_path(root: Seq<char>, path: Seq<char>) -> Seq<char> {
    if path.len() > 0 && path[0] == '/' {
        path
    } else if root.len() == 0 {
        path
    } else if root.last() == '/' {
        root + path
    } else {
        root + seq!['/'] + path
    }
}

impl DiscoveryReport {
    /// The absolute form of a path relative to the resolved Music directory.
    pub fn absolute_path(&self, relative_path: &str) -> (r: String)
        ensures
            r@ == join_path(
                match self.resolved_root {
                    Some(root) => root@,
                    None => Seq::empty(),
                },
                relative_path@,
            ),
    {
        let root: Vec<char> = match &self.resolved_root {
            Some(r) => chars_of(r.as_str()),
            None => Vec::new(),
        };
        let path = chars_of(relative_path);
        if path.len() > 0 && path[0] == '/' {
            return string_of(&path);
        }
        if root.len() == 0 {
            return string_of(&path);
        }
        let mut out = root;
        let ghost r0 = out@;
        if out[out.len() - 1] != '/' {
            out.push('/');
        }
        let ghost r1 = out@;
        let mut i: usize = 0;
        while i < path.len()
            invariant
                i <= path@.len(),
                out@ == r1 + path@.take(i as int),
            decreases path.len() - i,
        {
            assert(path@.take(i + 1) == path@.take(i as int).push(path@[i as int]));
            out.push(path[i]);
            i = i + 1;
        }
        assert(path@.take(path@.len() as int) == path@);
        proof {
            if r0.last() == '/' {
                assert(out@ =~= r0 + path@);
            } else {
                assert(out@ =~= r0 + seq!['/'] + path@);
            }
        }
        string_of(&out)
    }
}

impl ScanSummary {
    /// The summary discovery starts the scan with: every directory found is a candidate,
    /// with the report's filesystem errors and skipped directories.
    pub fn from(report: &DiscoveryReport) -> (r: ScanSummary)
        ensures
            r == (ScanSummary {
                album_directories_found: report.candidates@.len() as usize,
                candidates_total: report.candidates@.len() as usize,
                filesystem_errors: report.diagnostics@.len() as usize,
                skipped_directories: report.skipped_directories,
                ..zero_summary()
            }),
    {
        ScanSummary {
            album_directories_found: report.candidates.len(),
            candidates_total: report.candidates.len(),
            filesystem_errors: report.diagnostics.len(),
            skipped_directories: report.skipped_directories,
            ..ScanSummary::default()
        }
    }
}

/// A scan's published state, with the directories already counted as duplicates.
pub struct Progress {
    pub snapshot: ScanSnapshot,
    pub duplicate_paths: Vec<String>,
}

pub open spec fn counted_duplicate(p: Progress, path: Seq<char>) -> bool {
    string_views(p.duplicate_paths@).contains(path)
}

/// The counted paths after `path` is reported: it is added unless already there.
pub open spec fn with_path(paths: Seq<Seq<char>>, path: Seq<char>) -> Seq<Seq<char>> {
    if paths.contains(path) {
        paths
    } else {
        paths.push(path)
    }
}

/// The counted paths after each of `reported` is reported in turn.
pub open spec fn with_paths(paths: Seq<Seq<char>>, reported: Seq<Seq<char>>) -> Seq<Seq<char>>
    decreases reported.len(),
{
    if reported.len() == 0 {
        paths
    } else {
        with_path(with_paths(paths, reported.drop_last()), reported.last())
    }
}

/// Every path of the duplicate entries, entry after entry.
pub open spec fn all_paths(dups: Seq<DuplicateView>) -> Seq<Seq<char>>
    decreases dups.len(),
{
    if dups.len() == 0 {
        Seq::empty()
    } else {
        all_paths(dups.drop_last()) + dups.last().paths
    }
}

proof fn lemma_with_paths_len(paths: Seq<Seq<char>>, reported: Seq<Seq<char>>)
    ensures
        paths.len() <= with_paths(paths, reported).len() <= paths.len() + reported.len(),
    decreases reported.len(),
{
    if reported.len() > 0 {
        lemma_with_paths_len(paths, reported.drop_last());
    }
}

proof fn lemma_with_paths_append(paths: Seq<Seq<char>>, a: Seq<Seq<char>>, b: Seq<Seq<char>>)
    ensures
        with_paths(paths, a + b) == with_paths(with_paths(paths, a), b),
    decreases b.len(),
{
    if b.len() == 0 {
        assert(a + b =~= a);
    } else {
        assert((a + b).drop_last() =~= a + b.drop_last());
        lemma_with_paths_append(paths, a, b.drop_last());
    }
}

proof fn lemma_all_paths_len(dups: Seq<DuplicateView>, i: int)
    requires
        0 <= i <= dups.len(),
    ensures
        all_paths(dups.take(i)).len() <= all_paths(dups).len(),
    decreases dups.len(),
{
    if i < dups.len() {
        assert(dups.drop_last().take(i) =~= dups.take(i));
        lemma_all_paths_len(dups.drop_last(), i);
    } else {
        assert(dups.take(i) =~= dups);
    }
}

impl Progress {
    pub fn new() -> (r: Progress)
        ensures
            r.snapshot.phase == ScanPhase::Scanning,
            r.snapshot.summary == zero_summary(),
            r.snapshot.failure_reason is None,
            r.duplicate_paths@.len() == 0,
    {
        Progress { snapshot: ScanSnapshot::default(), duplicate_paths: Vec::new() }
    }

    /// The snapshot to publish.
    pub fn publish(&self) -> (r: ScanSnapshot)
        ensures
            r.phase == self.snapshot.phase,
            r.summary == self.snapshot.summary,
            r.failure_reason == self.snapshot.failure_reason,
    {
        ScanSnapshot {
            phase: self.snapshot.phase,
            summary: self.snapshot.summary,
            failure_reason: match &self.snapshot.failure_reason {
                Some(r) => Some(r.clone()),
                None => None,
            },
        }
    }

    /// Takes discovery's counters into the summary.
    pub fn discovery(&mut self, discovered: DiscoveryProgress)
        ensures
            final(self).snapshot.summary == (ScanSummary {
                album_directories_found: discovered.album_directories_found,
                skipped_directories: discovered.skipped_directories,
                filesystem_errors: discovered.filesystem_errors,
                ..old(self).snapshot.summary
            }),
            final(self).snapshot.phase == old(self).snapshot.phase,
            final(self).snapshot.failure_reason == old(self).snapshot.failure_reason,
            final(self).duplicate_paths == old(self).duplicate_paths,
    {
        self.snapshot.summary.album_directories_found = discovered.album_directories_found;
        self.snapshot.summary.skipped_directories = discovered.skipped_directories;
        self.snapshot.summary.filesystem_errors = discovered.filesystem_errors;
    }

    /// Counts one applied location change.
    pub fn location(&mut self, outcome: LocationOutcome)
        requires
            old(self).snapshot.summary.locations_attached < usize::MAX,
            old(self).snapshot.summary.locations_changed < usize::MAX,
            old(self).snapshot.summary.locations_cleared < usize::MAX,
            old(self).snapshot.summary.unchanged_locations < usize::MAX,
        ensures
            final(self).snapshot.summary == counted_location(old(self).snapshot.summary, outcome),
            final(self).snapshot.phase == old(self).snapshot.phase,
            final(self).snapshot.failure_reason == old(self).snapshot.failure_reason,
            final(self).duplicate_paths == old(self).duplicate_paths,
    {
        match outcome {
            LocationOutcome::Attached => self.snapshot.summary.locations_attached =
                self.snapshot.summary.locations_attached + 1,
            LocationOutcome::Changed => self.snapshot.summary.locations_changed =
                self.snapshot.summary.locations_changed + 1,
            LocationOutcome::Cleared => self.snapshot.summary.locations_cleared =
                self.snapshot.summary.locations_cleared + 1,
            LocationOutcome::Unchanged => self.snapshot.summary.unchanged_locations =
                self.snapshot.summary.unchanged_locations + 1,
        }
    }

    /// Counts a directory as a duplicate location, once however often it is reported;
    /// returns whether it was counted now.
    pub fn duplicate(&mut self, path: &str) -> (counted: bool)
        requires
            !counted_duplicate(*old(self), path@) ==> old(self).snapshot.summary.duplicate_locations
                < usize::MAX && old(self).snapshot.summary.skipped_directories < usize::MAX,
        ensures
            counted == !counted_duplicate(*old(self), path@),
            counted ==> final(self).snapshot.summary == (ScanSummary {
                duplicate_locations: (old(self).snapshot.summary.duplicate_locations + 1) as usize,
                skipped_directories: (old(self).snapshot.summary.skipped_directories + 1) as usize,
                ..old(self).snapshot.summary
            }),
            !counted ==> final(self).snapshot.summary == old(self).snapshot.summary,
            string_views(final(self).duplicate_paths@) == with_path(
                string_views(old(self).duplicate_paths@),
                path@,
            ),
            final(self).snapshot.phase == old(self).snapshot.phase,
            final(self).snapshot.failure_reason == old(self).snapshot.failure_reason,
    {
        let mut i: usize = 0;
        while i < self.duplicate_paths.len()
            invariant
                i <= self.duplicate_paths@.len(),
                forall|j: int| 0 <= j < i ==> (#[trigger] self.duplicate_paths@[j])@ != path@,
            decreases self.duplicate_paths.len() - i,
        {
            if str_equal(self.duplicate_paths[i].as_str(), path) {
                proof {
                    assert(string_views(self.duplicate_paths@)[i as int] == path@);
                }
                return false;
            }
            i = i + 1;
        }
        proof {
            assert forall|j: int| 0 <= j < self.duplicate_paths@.len() implies #[trigger] string_views(self.duplicate_paths@)[j] != path@ by {
                assert(string_views(self.duplicate_paths@)[j] == self.duplicate_paths@[j]@);
            }
        }
        let ghost before = self.duplicate_paths@;
        self.duplicate_paths.push(path.to_owned());
        proof {
            assert(string_views(self.duplicate_paths@) =~= string_views(before).push(path@));
        }
        self.snapshot.summary.duplicate_locations = self.snapshot.summary.duplicate_locations + 1;
        self.snapshot.summary.skipped_directories = self.snapshot.summary.skipped_directories + 1;
        true
    }

    /// Counts a match that could not be stored.
    pub fn persistence_failure(&mut self)
        requires
            old(self).snapshot.summary.failures < usize::MAX,
            old(self).snapshot.summary.skipped_directories < usize::MAX,
        ensures
            final(self).snapshot.summary == (ScanSummary {
                failures: (old(self).snapshot.summary.failures + 1) as usize,
                skipped_directories: (old(self).snapshot.summary.skipped_directories + 1) as usize,
                ..old(self).snapshot.summary
            }),
            final(self).snapshot.phase == old(self).snapshot.phase,
            final(self).snapshot.failure_reason == old(self).snapshot.failure_reason,
            final(self).duplicate_paths == old(self).duplicate_paths,
    {
        self.snapshot.summary.failures = self.snapshot.summary.failures + 1;
        self.snapshot.summary.skipped_directories = self.snapshot.summary.skipped_directories + 1;
    }

    /// Counts the result of matching one candidate against Tidal.
    pub fn record_match(&mut self, outcome: &MatchOutcome)
        requires
            old(self).snapshot.summary.candidates_processed < usize::MAX,
            old(self).snapshot.summary.unmatched_candidates < usize::MAX,
            old(self).snapshot.summary.ambiguous_matches < usize::MAX,
            old(self).snapshot.summary.failures < usize::MAX,
            old(self).snapshot.summary.skipped_directories < usize::MAX,
        ensures
            ({
                let s = old(self).snapshot.summary;
                let processed = ScanSummary {
                    candidates_processed: (s.candidates_processed + 1) as usize,
                    ..s
                };
                final(self).snapshot.summary == match outcome {
                    MatchOutcome::Unique(_) => processed,
                    MatchOutcome::Unmatched => ScanSummary {
                        unmatched_candidates: (s.unmatched_candidates + 1) as usize,
                        skipped_directories: (s.skipped_directories + 1) as usize,
                        ..processed
                    },
                    MatchOutcome::Ambiguous(_) => ScanSummary {
                        ambiguous_matches: (s.ambiguous_matches + 1) as usize,
                        skipped_directories: (s.skipped_directories + 1) as usize,
                        ..processed
                    },
                    MatchOutcome::Failed => ScanSummary {
                        failures: (s.failures + 1) as usize,
                        skipped_directories: (s.skipped_directories + 1) as usize,
                        ..processed
                    },
                }
            }),
            final(self).snapshot.phase == old(self).snapshot.phase,
            final(self).snapshot.failure_reason == old(self).snapshot.failure_reason,
            final(self).duplicate_paths == old(self).duplicate_paths,
    {
        self.snapshot.summary.candidates_processed = self.snapshot.summary.candidates_processed + 1;
        match outcome {
            MatchOutcome::Unique(_) => {},
            MatchOutcome::Unmatched => {
                self.snapshot.summary.unmatched_candidates = self.snapshot.summary.unmatched_candidates + 1;
                self.snapshot.summary.skipped_directories = self.snapshot.summary.skipped_directories + 1;
            },
            MatchOutcome::Ambiguous(_) => {
                self.snapshot.summary.ambiguous_matches = self.snapshot.summary.ambiguous_matches + 1;
                self.snapshot.summary.skipped_directories = self.snapshot.summary.skipped_directories + 1;
            },
            MatchOutcome::Failed => {
                self.snapshot.summary.failures = self.snapshot.summary.failures + 1;
                self.snapshot.summary.skipped_directories = self.snapshot.summary.skipped_directories + 1;
            },
        }
    }
}

/// Which location change a guarded update makes: from no location it attaches, from one
/// location to another it changes, and to no location it clears.
pub fn location_outcome(update: &LocationUpdate) -> (r: LocationOutcome)
    ensures
        r == if update.relative_path is None {
            LocationOutcome::Cleared
        } else if update.previous_path is None {
            LocationOutcome::Attached
        } else {
            LocationOutcome::Changed
        },
{
    match (&update.previous_path, &update.relative_path) {
        (None, Some(_)) => LocationOutcome::Attached,
        (Some(_), Some(_)) => LocationOutcome::Changed,
        (_, None) => LocationOutcome::Cleared,
    }
}

/// How a stored album's location relates to the directory being imported for it.
#[derive(Debug, PartialEq, Eq)]
pub enum StoredLocation {
    /// The album is already recorded at this directory.
    Same,
    /// The album is recorded elsewhere.
    Other(String),
    /// The album has no location yet.
    Unset,
}

/// Compares an album's stored location with the directory being imported.
pub fn classify_stored_location(stored: &Option<String>, path: &str) -> (r: StoredLocation)
    ensures
        match stored {
            Some(s) => if s@ == path@ {
                r == StoredLocation::Same
            } else {
                r matches StoredLocation::Other(o) && o@ == s@
            },
            None => r == StoredLocation::Unset,
        },
{
    match stored {
        Some(s) => if str_equal(s.as_str(), path) {
            StoredLocation::Same
        } else {
            StoredLocation::Other(s.clone())
        },
        None => StoredLocation::Unset,
    }
}


impl Progress {
    /// Counts each of `paths` as a duplicate location, in turn.
    pub fn duplicate_all(&mut self, paths: &[String])
        requires
            old(self).snapshot.summary.duplicate_locations + paths@.len() <= usize::MAX,
            old(self).snapshot.summary.skipped_directories + paths@.len() <= usize::MAX,
        ensures
            string_views(final(self).duplicate_paths@) == with_paths(
                string_views(old(self).duplicate_paths@),
                string_views(paths@),
            ),
            ({
                let added = final(self).duplicate_paths@.len() - old(self).duplicate_paths@.len();
                final(self).snapshot.summary == (ScanSummary {
                    duplicate_locations: (old(self).snapshot.summary.duplicate_locations
                        + added) as usize,
                    skipped_directories: (old(self).snapshot.summary.skipped_directories
                        + added) as usize,
                    ..old(self).snapshot.summary
                })
            }),
            0 <= final(self).duplicate_paths@.len() - old(self).duplicate_paths@.len() <= paths@.len(),
            final(self).snapshot.phase == old(self).snapshot.phase,
            final(self).snapshot.failure_reason == old(self).snapshot.failure_reason,
    {
        let ghost start = *self;
        let mut i: usize = 0;
        while i < paths.len()
            invariant
                i <= paths@.len(),
                start.snapshot.summary.duplicate_locations + paths@.len() <= usize::MAX,
                start.snapshot.summary.skipped_directories + paths@.len() <= usize::MAX,
                string_views(self.duplicate_paths@) == with_paths(
                    string_views(start.duplicate_paths@),
                    string_views(paths@.take(i as int)),
                ),
                0 <= self.duplicate_paths@.len() - start.duplicate_paths@.len() <= i,
                self.snapshot.summary == (ScanSummary {
                    duplicate_locations: (start.snapshot.summary.duplicate_locations
                        + (self.duplicate_paths@.len() - start.duplicate_paths@.len())) as usize,
                    skipped_directories: (start.snapshot.summary.skipped_directories
                        + (self.duplicate_paths@.len() - start.duplicate_paths@.len())) as usize,
                    ..start.snapshot.summary
                }),
                self.snapshot.phase == start.snapshot.phase,
                self.snapshot.failure_reason == start.snapshot.failure_reason,
            decreases paths.len() - i,
        {
            let ghost before = *self;
            proof {
                assert(string_views(paths@.take(i + 1)).drop_last() =~= string_views(
                    paths@.take(i as int),
                ));
                assert(string_views(paths@.take(i + 1)).last() == paths@[i as int]@);
            }
            let counted = self.duplicate(paths[i].as_str());
            proof {
                assert(string_views(self.duplicate_paths@).len() == self.duplicate_paths@.len());
                assert(string_views(before.duplicate_paths@).len() == before.duplicate_paths@.len());
            }
            i = i + 1;
        }
        assert(paths@.take(paths@.len() as int) =~= paths@);
    }

    /// Counts what reconciliation decided before any of it is applied: the candidates it
    /// settled, the locations it keeps, the ambiguous candidates and the duplicate
    /// locations.
    pub fn record_plan(&mut self, candidates_total: usize, plan: &ReconciliationPlan)
        requires
            plan.unknown_candidates@.len() <= candidates_total,
            old(self).snapshot.summary.unchanged_locations + plan.unchanged_locations <= usize::MAX,
            old(self).snapshot.summary.ambiguous_matches + plan.ambiguous_candidates@.len()
                <= usize::MAX,
            old(self).snapshot.summary.skipped_directories + plan.ambiguous_candidates@.len()
                + all_paths(duplicate_views(plan.duplicate_paths_by_album_id@)).len() <= usize::MAX,
            old(self).snapshot.summary.duplicate_locations + all_paths(
                duplicate_views(plan.duplicate_paths_by_album_id@),
            ).len() <= usize::MAX,
        ensures
            string_views(final(self).duplicate_paths@) == with_paths(
                string_views(old(self).duplicate_paths@),
                all_paths(duplicate_views(plan.duplicate_paths_by_album_id@)),
            ),
            ({
                let s = old(self).snapshot.summary;
                let ambiguous = plan.ambiguous_candidates@.len();
                let added = final(self).duplicate_paths@.len() - old(self).duplicate_paths@.len();
                final(self).snapshot.summary == (ScanSummary {
                    candidates_processed: (candidates_total
                        - plan.unknown_candidates@.len()) as usize,
                    unchanged_locations: (s.unchanged_locations
                        + plan.unchanged_locations) as usize,
                    ambiguous_matches: (s.ambiguous_matches + ambiguous) as usize,
                    skipped_directories: (s.skipped_directories + ambiguous + added) as usize,
                    duplicate_locations: (s.duplicate_locations + added) as usize,
                    ..s
                })
            }),
            final(self).snapshot.phase == old(self).snapshot.phase,
            final(self).snapshot.failure_reason == old(self).snapshot.failure_reason,
    {
        let ghost dups = duplicate_views(plan.duplicate_paths_by_album_id@);
        let ambiguous = plan.ambiguous_candidates.len();
        self.snapshot.summary.candidates_processed = candidates_total - plan.unknown_candidates.len();
        self.snapshot.summary.unchanged_locations = self.snapshot.summary.unchanged_locations
            + plan.unchanged_locations;
        self.snapshot.summary.ambiguous_matches = self.snapshot.summary.ambiguous_matches + ambiguous;
        self.snapshot.summary.skipped_directories = self.snapshot.summary.skipped_directories
            + ambiguous;
        let ghost start = *self;
        let mut i: usize = 0;
        while i < plan.duplicate_paths_by_album_id.len()
            invariant
                i <= dups.len(),
                dups == duplicate_views(plan.duplicate_paths_by_album_id@),
                start.snapshot.summary.duplicate_locations + all_paths(dups).len() <= usize::MAX,
                start.snapshot.summary.skipped_directories + all_paths(dups).len() <= usize::MAX,
                string_views(self.duplicate_paths@) == with_paths(
                    string_views(start.duplicate_paths@),
                    all_paths(dups.take(i as int)),
                ),
                0 <= self.duplicate_paths@.len() - start.duplicate_paths@.len() <= all_paths(
                    dups.take(i as int),
                ).len(),
                self.snapshot.summary == (ScanSummary {
                    duplicate_locations: (start.snapshot.summary.duplicate_locations
                        + (self.duplicate_paths@.len() - start.duplicate_paths@.len())) as usize,
                    skipped_directories: (start.snapshot.summary.skipped_directories
                        + (self.duplicate_paths@.len() - start.duplicate_paths@.len())) as usize,
                    ..start.snapshot.summary
                }),
                self.snapshot.phase == start.snapshot.phase,
                self.snapshot.failure_reason == start.snapshot.failure_reason,
            decreases dups.len() - i,
        {
            let ghost before = *self;
            proof {
                assert(dups.take(i + 1).drop_last() =~= dups.take(i as int));
                assert(dups.take(i + 1).last() == dups[i as int]);
                lemma_all_paths_len(dups, i + 1);
                assert(string_views(before.duplicate_paths@).len() == before.duplicate_paths@.len());
                assert(string_views(start.duplicate_paths@).len() == start.duplicate_paths@.len());
                assert(all_paths(dups.take(i + 1)).len() == all_paths(dups.take(i as int)).len()
                    + plan.duplicate_paths_by_album_id@[i as int].paths@.len());
            }
            self.duplicate_all(plan.duplicate_paths_by_album_id[i].paths.as_slice());
            proof {
                lemma_with_paths_append(
                    string_views(start.duplicate_paths@),
                    all_paths(dups.take(i as int)),
                    dups[i as int].paths,
                );
            }
            i = i + 1;
        }
        assert(dups.take(dups.len() as int) =~= dups);
    }
}


/// A directory that matched a single Tidal album.
#[derive(Debug)]
pub struct CandidateMatch {
    pub candidate: AlbumCandidate,
    pub prepared: PreparedAlbum,
}

impl Keyed for CandidateMatch {
    open spec fn key(&self) -> Seq<char> {
        self.prepared.album.id@
    }

    fn key_text(&self) -> (r: Vec<char>) {
        chars_of(self.prepared.album.id.as_str())
    }
}

/// The directories that matched one Tidal album.
#[derive(Debug)]
pub struct MatchGroup {
    pub album_id: String,
    pub matches: Vec<CandidateMatch>,
}

pub open spec fn match_key() -> spec_fn(CandidateMatch) -> Seq<char> {
    key_of::<CandidateMatch>()
}

/// Consecutive matches of the same album, as (album id, matches) runs.
pub open spec fn runs(s: Seq<CandidateMatch>) -> Seq<(Seq<char>, Seq<CandidateMatch>)>
    decreases s.len(),
{
    if s.len() == 0 {
        Seq::empty()
    } else {
        let r = runs(s.drop_last());
        let x = s.last();
        if r.len() > 0 && r.last().0 == x.key() {
            r.update(r.len() - 1, (x.key(), r.last().1.push(x)))
        } else {
            r.push((x.key(), seq![x]))
        }
    }
}

pub open spec fn group_view(g: MatchGroup) -> (Seq<char>, Seq<CandidateMatch>) {
    (g.album_id@, g.matches@)
}

/// Groups matches by Tidal album: the groups come in album id order, and each holds its
/// matches in the order they arrived.
pub fn group_matches(matches: Vec<CandidateMatch>) -> (r: Vec<MatchGroup>)
    ensures
        r@.map_values(|g: MatchGroup| group_view(g)) == runs(sort_by(matches@, match_key())),
{
    let sorted = sort_by_key_vec(matches);
    let ghost all = sorted@;
    let n = sorted.len();
    let mut rest = sorted;
    let mut rev: Vec<CandidateMatch> = Vec::new();
    while rest.len() > 0
        invariant
            rest@.len() + rev@.len() == n,
            all.len() == n,
            forall|j: int| 0 <= j < rest@.len() ==> #[trigger] rest@[j] == all[j],
            forall|j: int| 0 <= j < rev@.len() ==> #[trigger] rev@[j] == all[n - 1 - j],
        decreases rest.len(),
    {
        let x = rest.pop().unwrap();
        rev.push(x);
    }
    let mut groups: Vec<MatchGroup> = Vec::new();
    let mut i: usize = 0;
    while i < n
        invariant
            i <= n,
            all.len() == n,
            rev@.len() == n - i,
            forall|j: int| 0 <= j < rev@.len() ==> #[trigger] rev@[j] == all[n - 1 - j],
            groups@.map_values(|g: MatchGroup| group_view(g)) == runs(all.take(i as int)),
        decreases n - i,
    {
        let x = rev.pop().unwrap();
        assert(x == all[i as int]);
        assert(all.take(i + 1).drop_last() =~= all.take(i as int));
        let ghost before = groups@.map_values(|g: MatchGroup| group_view(g));
        let id = x.prepared.album.id.clone();
        let last = groups.len();
        let same = last > 0 && str_equal(groups[last - 1].album_id.as_str(), id.as_str());
        if same {
            let mut g = groups.pop().unwrap();
            g.matches.push(x);
            groups.push(g);
            assert(groups@.map_values(|g: MatchGroup| group_view(g)) =~= before.update(
                before.len() - 1,
                (id@, before.last().1.push(x)),
            ));
        } else {
            let mut ms: Vec<CandidateMatch> = Vec::new();
            ms.push(x);
            groups.push(MatchGroup { album_id: id, matches: ms });
            assert(groups@.map_values(|g: MatchGroup| group_view(g)) =~= before.push(
                (x.key(), seq![x]),
            ));
        }
        i = i + 1;
    }
    assert(all.take(n as int) =~= all);
    groups
}

/// A group is contested when several directories matched its album, or when
/// reconciliation already found duplicate locations for it; then none is imported.
pub fn is_contested(group: &MatchGroup, plan: &ReconciliationPlan) -> (r: bool)
    ensures
        r == (group.matches@.len() > 1 || has_duplicate_entry(
            duplicate_views(plan.duplicate_paths_by_album_id@),
            group.album_id@,
        )),
{
    if group.matches.len() > 1 {
        return true;
    }
    let ghost dups = duplicate_views(plan.duplicate_paths_by_album_id@);
    let mut i: usize = 0;
    while i < plan.duplicate_paths_by_album_id.len()
        invariant
            i <= dups.len(),
            dups == duplicate_views(plan.duplicate_paths_by_album_id@),
            forall|j: int| 0 <= j < i ==> (#[trigger] dups[j]).album_id != group.album_id@,
        decreases dups.len() - i,
    {
        if str_equal(plan.duplicate_paths_by_album_id[i].album_id.as_str(), group.album_id.as_str()) {
            assert(dups[i as int].album_id == group.album_id@);
            return true;
        }
        i = i + 1;
    }
    false
}

pub open spec fn match_paths(ms: Seq<CandidateMatch>) -> Seq<Seq<char>> {
    ms.map_values(|m: CandidateMatch| m.candidate.relative_path@)
}

/// The stored location to count as a duplicate too: only one that a directory of this
/// scan occupies.
pub open spec fn observed_stored(stored: Option<String>, cands: Seq<AlbumCandidate>) -> Seq<Seq<char>> {
    match stored {
        Some(p) => if observed(candidate_views(cands), p@) {
            seq![p@]
        } else {
            Seq::empty()
        },
        None => Seq::empty(),
    }
}


/// The stored location, when a directory of this scan occupies it.
fn observed_stored_paths(stored: &Option<String>, candidates: &[AlbumCandidate]) -> (r: Vec<String>)
    ensures
        string_views(r@) == observed_stored(*stored, candidates@),
{
    let mut r: Vec<String> = Vec::new();
    if let Some(p) = stored {
        if is_observed(candidates, p.as_str()) {
            r.push(p.clone());
            assert(string_views(r@) =~= seq![p@]);
            return r;
        }
    }
    assert(string_views(r@) =~= Seq::<Seq<char>>::empty());
    r
}

impl Progress {
    /// Moves the scan on to matching against Tidal.
    pub fn begin_matching(&mut self)
        ensures
            final(self).snapshot.phase == ScanPhase::Matching,
            final(self).snapshot.summary == old(self).snapshot.summary,
            final(self).snapshot.failure_reason == old(self).snapshot.failure_reason,
            final(self).duplicate_paths == old(self).duplicate_paths,
    {
        self.snapshot.phase = ScanPhase::Matching;
    }

    /// Ends the scan as completed.
    pub fn complete(&mut self)
        ensures
            final(self).snapshot.phase == ScanPhase::Completed,
            final(self).snapshot.summary == old(self).snapshot.summary,
            final(self).snapshot.failure_reason == old(self).snapshot.failure_reason,
            final(self).duplicate_paths == old(self).duplicate_paths,
    {
        self.snapshot.phase = ScanPhase::Completed;
    }

    /// Decides whether the scan goes on to matching once reconciliation is done: it fails
    /// when the catalog could not be reconciled, or else when the Music directory itself
    /// could not be read.
    pub fn after_reconciliation(&mut self, reconciled: bool, root_failed: bool) -> (go_on: bool)
        requires
            old(self).snapshot.summary.failures < usize::MAX,
        ensures
            go_on == (reconciled && !root_failed),
            go_on ==> *final(self) == *old(self),
            !go_on ==> final(self).snapshot.phase == ScanPhase::Failed,
            !go_on ==> final(self).snapshot.summary == (ScanSummary {
                failures: (old(self).snapshot.summary.failures + 1) as usize,
                ..old(self).snapshot.summary
            }),
            !reconciled ==> (final(self).snapshot.failure_reason matches Some(r) && r@
                == "Could not reconcile Catalog locations."@),
            reconciled && root_failed ==> (final(self).snapshot.failure_reason matches Some(r)
                && r@ == "Could not scan the Music directory."@),
            final(self).duplicate_paths == old(self).duplicate_paths,
    {
        if !reconciled {
            self.snapshot.fail("Could not reconcile Catalog locations.");
            return false;
        }
        if root_failed {
            self.snapshot.fail("Could not scan the Music directory.");
            return false;
        }
        true
    }

    /// Counts a location update that could not be stored.
    pub fn location_failed(&mut self)
        requires
            old(self).snapshot.summary.failures < usize::MAX,
        ensures
            final(self).snapshot.summary == (ScanSummary {
                failures: (old(self).snapshot.summary.failures + 1) as usize,
                ..old(self).snapshot.summary
            }),
            final(self).snapshot.phase == old(self).snapshot.phase,
            final(self).snapshot.failure_reason == old(self).snapshot.failure_reason,
            final(self).duplicate_paths == old(self).duplicate_paths,
    {
        self.snapshot.summary.failures = self.snapshot.summary.failures + 1;
    }

    /// Counts a contested group once its album's stored location is known: that location,
    /// when this scan observed it, and then every matched directory are duplicates.
    pub fn record_contested(
        &mut self,
        group: &MatchGroup,
        stored: &Option<String>,
        candidates: &[AlbumCandidate],
    )
        requires
            old(self).snapshot.summary.duplicate_locations + group.matches@.len() + 1 <= usize::MAX,
            old(self).snapshot.summary.skipped_directories + group.matches@.len() + 1 <= usize::MAX,
        ensures
            string_views(final(self).duplicate_paths@) == with_paths(
                string_views(old(self).duplicate_paths@),
                observed_stored(*stored, candidates@) + match_paths(group.matches@),
            ),
            ({
                let added = final(self).duplicate_paths@.len() - old(self).duplicate_paths@.len();
                final(self).snapshot.summary == (ScanSummary {
                    duplicate_locations: (old(self).snapshot.summary.duplicate_locations
                        + added) as usize,
                    skipped_directories: (old(self).snapshot.summary.skipped_directories
                        + added) as usize,
                    ..old(self).snapshot.summary
                })
            }),
            final(self).snapshot.phase == old(self).snapshot.phase,
            final(self).snapshot.failure_reason == old(self).snapshot.failure_reason,
    {
        let mut paths = observed_stored_paths(stored, candidates);
        let ghost head = paths@;
        assert(string_views(head).len() == head.len());
        assert(string_views(paths@) =~= string_views(head) + match_paths(group.matches@).take(0));
        let mut i: usize = 0;
        while i < group.matches.len()
            invariant
                i <= group.matches@.len(),
                head.len() <= 1,
                string_views(head) == observed_stored(*stored, candidates@),
                paths@.len() == head.len() + i,
                string_views(paths@) == string_views(head) + match_paths(group.matches@).take(i as int),
            decreases group.matches.len() - i,
        {
            let ghost before = paths@;
            paths.push(group.matches[i].candidate.relative_path.clone());
            assert(match_paths(group.matches@)[i as int] == group.matches@[i as int].candidate.relative_path@);
            assert(string_views(paths@) =~= string_views(before).push(group.matches@[i as int].candidate.relative_path@));
            assert(string_views(paths@) =~= string_views(head) + match_paths(group.matches@).take(i + 1));
            i = i + 1;
        }
        assert(match_paths(group.matches@).take(group.matches@.len() as int) =~= match_paths(group.matches@));
        self.duplicate_all(paths.as_slice());
    }

    /// Counts a contested group whose album's stored location could not be read: every
    /// matched directory is a failure.
    pub fn record_lookup_failure(&mut self, group: &MatchGroup)
        requires
            old(self).snapshot.summary.failures + group.matches@.len() <= usize::MAX,
            old(self).snapshot.summary.skipped_directories + group.matches@.len() <= usize::MAX,
        ensures
            final(self).snapshot.summary == (ScanSummary {
                failures: (old(self).snapshot.summary.failures + group.matches@.len()) as usize,
                skipped_directories: (old(self).snapshot.summary.skipped_directories
                    + group.matches@.len()) as usize,
                ..old(self).snapshot.summary
            }),
            final(self).snapshot.phase == old(self).snapshot.phase,
            final(self).snapshot.failure_reason == old(self).snapshot.failure_reason,
            final(self).duplicate_paths == old(self).duplicate_paths,
    {
        let ghost start = *self;
        let mut i: usize = 0;
        while i < group.matches.len()
            invariant
                i <= group.matches@.len(),
                start.snapshot.summary.failures + group.matches@.len() <= usize::MAX,
                start.snapshot.summary.skipped_directories + group.matches@.len() <= usize::MAX,
                self.snapshot.summary == (ScanSummary {
                    failures: (start.snapshot.summary.failures + i) as usize,
                    skipped_directories: (start.snapshot.summary.skipped_directories + i) as usize,
                    ..start.snapshot.summary
                }),
                self.snapshot.phase == start.snapshot.phase,
                self.snapshot.failure_reason == start.snapshot.failure_reason,
                self.duplicate_paths == start.duplicate_paths,
            decreases group.matches.len() - i,
        {
            self.persistence_failure();
            i = i + 1;
        }
    }

    /// Counts what importing one matched directory did.
    pub fn record_import(
        &mut self,
        outcome: &ImportOutcome,
        candidate_path: &str,
        candidates: &[AlbumCandidate],
    )
        requires
            old(self).snapshot.summary.albums_imported < usize::MAX,
            old(self).snapshot.summary.locations_attached < usize::MAX,
            old(self).snapshot.summary.locations_changed < usize::MAX,
            old(self).snapshot.summary.locations_cleared < usize::MAX,
            old(self).snapshot.summary.unchanged_locations < usize::MAX,
            old(self).snapshot.summary.duplicate_locations + 2 <= usize::MAX,
            old(self).snapshot.summary.skipped_directories + 2 <= usize::MAX,
        ensures
            ({
                let s = old(self).snapshot.summary;
                let added = final(self).duplicate_paths@.len() - old(self).duplicate_paths@.len();
                match outcome {
                    ImportOutcome::Imported => final(self).snapshot.summary == (ScanSummary {
                        albums_imported: (s.albums_imported + 1) as usize,
                        ..s
                    }) && final(self).duplicate_paths == old(self).duplicate_paths,
                    ImportOutcome::Location(o) => final(self).snapshot.summary == counted_location(
                        s,
                        *o,
                    ) && final(self).duplicate_paths == old(self).duplicate_paths,
                    ImportOutcome::Duplicate { stored_path } => string_views(
                        final(self).duplicate_paths@,
                    ) == with_paths(
                        string_views(old(self).duplicate_paths@),
                        observed_stored(*stored_path, candidates@) + seq![candidate_path@],
                    ) && final(self).snapshot.summary == (ScanSummary {
                        duplicate_locations: (s.duplicate_locations + added) as usize,
                        skipped_directories: (s.skipped_directories + added) as usize,
                        ..s
                    }),
                }
            }),
            final(self).snapshot.phase == old(self).snapshot.phase,
            final(self).snapshot.failure_reason == old(self).snapshot.failure_reason,
    {
        match outcome {
            ImportOutcome::Imported => {
                self.snapshot.summary.albums_imported = self.snapshot.summary.albums_imported + 1;
            },
            ImportOutcome::Location(o) => {
                self.location(*o);
            },
            ImportOutcome::Duplicate { stored_path } => {
                let mut paths = observed_stored_paths(stored_path, candidates);
                let ghost head = paths@;
                paths.push(candidate_path.to_owned());
                assert(string_views(paths@) =~= string_views(head) + seq![candidate_path@]);
                self.duplicate_all(paths.as_slice());
            },
        }
    }
}

/// The summary after one more location change of the given kind.
pub open spec fn counted_location(s: ScanSummary, outcome: LocationOutcome) -> ScanSummary {
    match outcome {
        LocationOutcome::Attached => ScanSummary {
            locations_attached: (s.locations_attached + 1) as usize,
            ..s
        },
        LocationOutcome::Changed => ScanSummary {
            locations_changed: (s.locations_changed + 1) as usize,
            ..s
        },
        LocationOutcome::Cleared => ScanSummary {
            locations_cleared: (s.locations_cleared + 1) as usize,
            ..s
        },
        LocationOutcome::Unchanged => ScanSummary {
            unchanged_locations: (s.unchanged_locations + 1) as usize,
            ..s
        },
    }
}


fn copy_snapshot(s: &ScanSnapshot) -> (r: ScanSnapshot)
    ensures
        r.phase == s.phase,
        r.summary == s.summary,
        r.failure_reason == s.failure_reason,
{
    ScanSnapshot {
        phase: s.phase,
        summary: s.summary,
        failure_reason: match &s.failure_reason {
            Some(r) => Some(r.clone()),
            None => None,
        },
    }
}

/// The latest published state of the current or last scan; a scan starts only when none
/// is active.
pub struct ScanCoordinator {
    pub latest: Option<ScanSnapshot>,
}

impl ScanCoordinator {
    pub fn new() -> (r: ScanCoordinator)
        ensures
            r.latest is None,
    {
        ScanCoordinator { latest: None }
    }

    /// Starts a scan unless one is active: a start while a scan scans or matches is
    /// refused with that scan's state, and nothing changes; otherwise the new scan's
    /// initial state is published and returned.
    pub fn start(&mut self) -> (r: Result<ScanSnapshot, ScanSnapshot>)
        ensures
            match old(self).latest {
                Some(s) => if s.phase == ScanPhase::Scanning || s.phase == ScanPhase::Matching {
                    r matches Err(e) && e.phase == s.phase && e.summary == s.summary
                        && e.failure_reason == s.failure_reason && final(self).latest == old(self).latest
                } else {
                    r matches Ok(i) && i.phase == ScanPhase::Scanning && i.summary == zero_summary()
                        && i.failure_reason is None && final(self).latest == Some(i)
                },
                None => r matches Ok(i) && i.phase == ScanPhase::Scanning && i.summary == zero_summary()
                    && i.failure_reason is None && final(self).latest == Some(i),
            },
    {
        if let Some(s) = &self.latest {
            if s.phase.is_active() {
                return Err(copy_snapshot(s));
            }
        }
        let initial = ScanSnapshot::default();
        self.latest = Some(copy_snapshot(&initial));
        Ok(initial)
    }

    /// Publishes the scan's current state.
    pub fn publish(&mut self, snapshot: ScanSnapshot)
        ensures
            final(self).latest == Some(snapshot),
    {
        self.latest = Some(snapshot);
    }

    /// A scan whose worker stopped without finishing fails, so a later start is not refused
    /// for ever.
    pub fn worker_stopped(&mut self)
        requires
            old(self).latest matches Some(s) ==> s.summary.failures < usize::MAX,
        ensures
            match old(self).latest {
                Some(s) => final(self).latest matches Some(t) && t.phase == ScanPhase::Failed
                    && t.summary == (ScanSummary { failures: (s.summary.failures + 1) as usize, ..s.summary })
                    && (t.failure_reason matches Some(m) && m@ == "Music directory scan stopped unexpectedly."@),
                None => final(self).latest is None,
            },
    {
        if let Some(mut s) = self.latest.take() {
            s.fail("Music directory scan stopped unexpectedly.");
            self.latest = Some(s);
        }
    }

    /// The latest published state, if a scan ever started.
    pub fn snapshot(&self) -> (r: Option<ScanSnapshot>)
        ensures
            match self.latest {
                Some(s) => r matches Some(t) && t.phase == s.phase && t.summary == s.summary
                    && t.failure_reason == s.failure_reason,
                None => r is None,
            },
    {
        match &self.latest {
            Some(s) => Some(copy_snapshot(s)),
            None => None,
        }
    }
}


/// Every reported duplicate directory is counted once: the counted paths never repeat,
/// and they are the paths counted before together with all reported ones.
pub proof fn law_duplicates_counted_once(paths: Seq<Seq<char>>, reported: Seq<Seq<char>>)
    requires
        paths.no_duplicates(),
    ensures
        with_paths(paths, reported).no_duplicates(),
        with_paths(paths, reported).to_set() == paths.to_set().union(reported.to_set()),
    decreases reported.len(),
{
    if reported.len() == 0 {
        assert(reported.to_set() =~= Set::<Seq<char>>::empty());
        assert(paths.to_set().union(reported.to_set()) =~= paths.to_set());
    } else {
        let prev = with_paths(paths, reported.drop_last());
        law_duplicates_counted_once(paths, reported.drop_last());
        let x = reported.last();
        assert(reported =~= reported.drop_last().push(x));
        reported.drop_last().lemma_push_to_set_commute(x);
        if prev.contains(x) {
            assert(prev.to_set().contains(x));
            assert(prev.to_set().insert(x) =~= prev.to_set());
        } else {
            prev.lemma_push_to_set_commute(x);
            assert forall|i: int, j: int| 0 <= i < j < prev.push(x).len() implies prev.push(x)[i]
                != prev.push(x)[j] by {
                if j == prev.len() {
                    assert(prev[i] != x);
                }
            }
        }
        assert(paths.to_set().union(reported.to_set()) =~= paths.to_set().union(
            reported.drop_last().to_set(),
        ).insert(x));
    }
}

} // verus!
