//! A Music directory scan as clients receive it.
use vstd::prelude::*;

use crate::workflow::{ScanPhase, ScanSnapshot, ScanSummary};

verus! {

#[derive(Debug, Clone, Copy, PartialEq, Eq, Structural)]
pub enum CatalogScanPhase {
    Scanning,
    Matching,
    Completed,
    Failed,
}

pub open spec fn phase_of(phase: ScanPhase) -> CatalogScanPhase {
    match phase {
        ScanPhase::Scanning => CatalogScanPhase::Scanning,
        ScanPhase::Matching => CatalogScanPhase::Matching,
        ScanPhase::Completed => CatalogScanPhase::Completed,
        ScanPhase::Failed => CatalogScanPhase::Failed,
    }
}

impl CatalogScanPhase {
    pub fn from(phase: ScanPhase) -> (r: CatalogScanPhase)
        ensures
            r == phase_of(phase),
    {
        match phase {
            ScanPhase::Scanning => CatalogScanPhase::Scanning,
            ScanPhase::Matching => CatalogScanPhase::Matching,
            ScanPhase::Completed => CatalogScanPhase::Completed,
            ScanPhase::Failed => CatalogScanPhase::Failed,
        }
    }
}

#[derive(Debug, Clone, Copy, PartialEq, Eq, Structural)]
pub struct CatalogScanSummary {
    pub album_directories_found: usize,
    pub candidates_processed: usize,
    pub candidates_total: usize,
    pub albums_imported: usize,
    pub locations_attached: usize,
    pub locations_changed: usize,
    pub unchanged_locations: usize,
    pub locations_cleared: usize,
    pub unmatched_candidates: usize,
    pub ambiguous_matches: usize,
    pub duplicate_locations: usize,
    pub skipped_directories: usize,
    pub failures: usize,
    pub filesystem_errors: usize,
}

pub open spec fn summary_of(s: ScanSummary) -> CatalogScanSummary {
    CatalogScanSummary {
        album_directories_found: s.album_directories_found,
        candidates_processed: s.candidates_processed,
        candidates_total: s.candidates_total,
        albums_imported: s.albums_imported,
        locations_attached: s.locations_attached,
        locations_changed: s.locations_changed,
        unchanged_locations: s.unchanged_locations,
        locations_cleared: s.locations_cleared,
        unmatched_candidates: s.unmatched_candidates,
        ambiguous_matches: s.ambiguous_matches,
        duplicate_locations: s.duplicate_locations,
        skipped_directories: s.skipped_directories,
        failures: s.failures,
        filesystem_errors: s.filesystem_errors,
    }
}

impl CatalogScanSummary {
    pub fn from(summary: ScanSummary) -> (r: CatalogScanSummary)
        ensures
            r == summary_of(summary),
    {
        CatalogScanSummary {
            album_directories_found: summary.album_directories_found,
            candidates_processed: summary.candidates_processed,
            candidates_total: summary.candidates_total,
            albums_imported: summary.albums_imported,
            locations_attached: summary.locations_attached,
            locations_changed: summary.locations_changed,
            unchanged_locations: summary.unchanged_locations,
            locations_cleared: summary.locations_cleared,
            unmatched_candidates: summary.unmatched_candidates,
            ambiguous_matches: summary.ambiguous_matches,
            duplicate_locations: summary.duplicate_locations,
            skipped_directories: summary.skipped_directories,
            failures: summary.failures,
            filesystem_errors: summary.filesystem_errors,
        }
    }
}

#[derive(Debug, PartialEq, Eq)]
pub struct CatalogScan {
    pub phase: CatalogScanPhase,
    pub summary: CatalogScanSummary,
    pub failure_reason: Option<String>,
}

impl CatalogScan {
    pub fn from(scan: ScanSnapshot) -> (r: CatalogScan)
        ensures
            r.phase == phase_of(scan.phase),
            r.summary == summary_of(scan.summary),
            r.failure_reason == scan.failure_reason,
    {
        CatalogScan {
            phase: CatalogScanPhase::from(scan.phase),
            summary: CatalogScanSummary::from(scan.summary),
            failure_reason: scan.failure_reason,
        }
    }
}

} // verus!
