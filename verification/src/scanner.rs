//! Walking the Music directory: how each entry is classified, which album directories
//! become candidates, and how skipped directories and filesystem errors are counted.
use vstd::prelude::*;

use crate::reconciliation::AlbumCandidate;
use crate::scan::{album_directory_parts, parse_album_directory_name};
use crate::sort::{key_of, sort_by, sort_by_key_vec};
use crate::text::push_char;
use crate::workflow::{DiscoveryProgress, DiscoveryReport, FilesystemDiagnostic};
use vstd::string::StringExecFns;

verus! {

/// What an entry of a directory is, as far as the walk cares.
#[derive(Debug, Clone, PartialEq, Eq)]
pub enum ScannedEntryKind {
    Directory(String),
    File,
    Other,
}

/// The type of a directory entry, as the filesystem reports it.
#[derive(Debug, Clone, Copy, PartialEq, Eq, Structural)]
pub struct EntryType {
    pub is_symlink: bool,
    pub is_dir: bool,
    pub is_file: bool,
}

/// The result of looking at one entry.
#[derive(Debug, Clone, PartialEq, Eq)]
pub enum EntryOutcome {
    /// Its type could not be read; the reason is recorded as a filesystem error.
    Error(&'static str),
    /// It is skipped for the reason given.
    Skipped(&'static str),
    Kind(ScannedEntryKind),
}

/// Classifies an entry from its type (if readable) and its name (if valid UTF-8): symbolic
/// links are skipped and never followed, a directory needs a UTF-8 name.
pub fn classify_entry(file_type: Option<EntryType>, utf8_name: Option<String>) -> (r: EntryOutcome)
    ensures
        match file_type {
            None => r matches EntryOutcome::Error(m) && m@ == "read_entry_type"@,
            Some(t) => if t.is_symlink {
                r matches EntryOutcome::Skipped(m) && m@ == "symbolic_link"@
            } else if t.is_dir {
                match utf8_name {
                    Some(n) => r == EntryOutcome::Kind(ScannedEntryKind::Directory(n)),
                    None => r matches EntryOutcome::Skipped(m) && m@ == "non_utf8_directory"@,
                }
            } else if t.is_file {
                r == EntryOutcome::Kind(ScannedEntryKind::File)
            } else {
                r == EntryOutcome::Kind(ScannedEntryKind::Other)
            },
        },
{
    let t = match file_type {
        None => return EntryOutcome::Error("read_entry_type"),
        Some(t) => t,
    };
    if t.is_symlink {
        return EntryOutcome::Skipped("symbolic_link");
    }
    if t.is_dir {
        return match utf8_name {
            Some(n) => EntryOutcome::Kind(ScannedEntryKind::Directory(n)),
            None => EntryOutcome::Skipped("non_utf8_directory"),
        };
    }
    if t.is_file {
        return EntryOutcome::Kind(ScannedEntryKind::File);
    }
    EntryOutcome::Kind(ScannedEntryKind::Other)
}

/// The candidate an album directory stands for: its parsed title and year under the
/// artist directory's name, at `artist/album`; `None` for a malformed name.
pub fn album_candidate(artist_name: &str, album_name: &str) -> (r: Option<AlbumCandidate>)
    ensures
        match album_directory_parts(album_name@) {
            None => r is None,
            Some((title, year)) => r matches Some(c) && c.primary_artist@ == artist_name@
                && c.title@ == title && c.relative_path@ == artist_name@ + seq!['/'] + album_name@
                && match (c.release_year, year) {
                (Some(a), Some(b)) => a == b,
                (None, None) => true,
                _ => false,
            },
        },
{
    match parse_album_directory_name(album_name) {
        None => None,
        Some((title, release_year)) => {
            let mut relative_path = artist_name.to_owned();
            push_char(&mut relative_path, '/');
            relative_path.append(album_name);
            Some(AlbumCandidate { primary_artist: artist_name.to_owned(), title, release_year, relative_path })
        },
    }
}

/// The candidates in the order of their relative paths.
pub fn sorted_candidates(candidates: Vec<AlbumCandidate>) -> (r: Vec<AlbumCandidate>)
    ensures
        r@ == sort_by(candidates@, key_of::<AlbumCandidate>()),
{
    sort_by_key_vec(candidates)
}

/// The counters and diagnostics of a walk in progress.
pub struct Scanner {
    pub progress: DiscoveryProgress,
    pub diagnostics: Vec<FilesystemDiagnostic>,
}

impl Scanner {
    pub fn new() -> (r: Scanner)
        ensures
            r.progress == (DiscoveryProgress {
                album_directories_found: 0,
                skipped_directories: 0,
                filesystem_errors: 0,
            }),
            r.diagnostics@.len() == 0,
    {
        Scanner {
            progress: DiscoveryProgress {
                album_directories_found: 0,
                skipped_directories: 0,
                filesystem_errors: 0,
            },
            diagnostics: Vec::new(),
        }
    }

    /// Records a filesystem error; the count is the number of diagnostics.
    pub fn record_filesystem_error(&mut self, diagnostic: FilesystemDiagnostic)
        ensures
            final(self).diagnostics@ == old(self).diagnostics@.push(diagnostic),
            final(self).progress == (DiscoveryProgress {
                filesystem_errors: final(self).diagnostics@.len() as usize,
                ..old(self).progress
            }),
    {
        self.diagnostics.push(diagnostic);
        self.progress.filesystem_errors = self.diagnostics.len();
    }

    /// Counts a skipped directory.
    pub fn record_skipped(&mut self)
        requires
            old(self).progress.skipped_directories < usize::MAX,
        ensures
            final(self).diagnostics == old(self).diagnostics,
            final(self).progress == (DiscoveryProgress {
                skipped_directories: (old(self).progress.skipped_directories + 1) as usize,
                ..old(self).progress
            }),
    {
        self.progress.skipped_directories = self.progress.skipped_directories + 1;
    }

    /// Counts the candidates found so far.
    pub fn record_found(&mut self, found: usize)
        ensures
            final(self).diagnostics == old(self).diagnostics,
            final(self).progress == (DiscoveryProgress {
                album_directories_found: found,
                ..old(self).progress
            }),
    {
        self.progress.album_directories_found = found;
    }

    /// The report of a walk of the resolved root: the candidates in path order, unless the
    /// root itself could not be listed, which fails the scan.
    pub fn finish(self, resolved_root: String, candidates: Option<Vec<AlbumCandidate>>) -> (r: DiscoveryReport)
        ensures
            r.resolved_root == Some(resolved_root),
            r.root_failed == candidates is None,
            match candidates {
                Some(c) => r.candidates@ == sort_by(c@, key_of::<AlbumCandidate>()),
                None => r.candidates@.len() == 0,
            },
            r.diagnostics == self.diagnostics,
            r.skipped_directories == self.progress.skipped_directories,
    {
        let root_failed = candidates.is_none();
        let sorted = match candidates {
            Some(c) => sorted_candidates(c),
            None => Vec::new(),
        };
        DiscoveryReport {
            resolved_root: Some(resolved_root),
            candidates: sorted,
            diagnostics: self.diagnostics,
            root_failed,
            skipped_directories: self.progress.skipped_directories,
        }
    }
}

/// The report when the Music directory itself cannot be resolved: one diagnostic, no
/// candidates, and a failed root.
pub fn root_failure(configured_root: String, os_error: String) -> (r: DiscoveryReport)
    ensures
        r.resolved_root is None,
        r.candidates@.len() == 0,
        r.diagnostics@.len() == 1,
        r.diagnostics@[0].reason@ == "resolve_music_root"@,
        r.diagnostics@[0].path == configured_root,
        r.diagnostics@[0].os_error == os_error,
        r.root_failed,
        r.skipped_directories == 0,
{
    let mut diagnostics: Vec<FilesystemDiagnostic> = Vec::new();
    diagnostics.push(FilesystemDiagnostic {
        reason: "resolve_music_root".to_owned(),
        path: configured_root,
        os_error,
    });
    DiscoveryReport {
        resolved_root: None,
        candidates: Vec::new(),
        diagnostics,
        root_failed: true,
        skipped_directories: 0,
    }
}

} // verus!
