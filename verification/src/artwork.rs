//! Refreshing missing artwork: how each album or artist counts in the refresh summary.
use vstd::prelude::*;

use crate::matching::TidalError;
use crate::tidal::{is_valid_https_url, valid_https_url};

verus! {

/// How the artwork of one kind of record fared.
#[derive(Debug, Default, Clone, Copy, PartialEq, Eq, Structural)]
pub struct ArtworkRefreshCounts {
    pub updated: u32,
    pub already_present: u32,
    pub unavailable: u32,
    pub failed: u32,
}

/// How the artwork of albums and of artists fared.
#[derive(Debug, Default, Clone, Copy, PartialEq, Eq, Structural)]
pub struct ArtworkRefreshSummary {
    pub albums: ArtworkRefreshCounts,
    pub artists: ArtworkRefreshCounts,
}

/// No counter can grow past `u32::MAX` in one more step.
pub open spec fn counts_room(c: ArtworkRefreshCounts) -> bool {
    &&& c.updated < u32::MAX
    &&& c.already_present < u32::MAX
    &&& c.unavailable < u32::MAX
    &&& c.failed < u32::MAX
}

impl ArtworkRefreshCounts {
    pub fn new() -> (r: ArtworkRefreshCounts)
        ensures
            r == (ArtworkRefreshCounts { updated: 0, already_present: 0, unavailable: 0, failed: 0 }),
    {
        ArtworkRefreshCounts { updated: 0, already_present: 0, unavailable: 0, failed: 0 }
    }

    /// Counts a record that already has artwork.
    pub fn record_present(&mut self)
        requires
            counts_room(*old(self)),
        ensures
            *final(self) == (ArtworkRefreshCounts {
                already_present: (old(self).already_present + 1) as u32,
                ..*old(self)
            }),
    {
        self.already_present = self.already_present + 1;
    }

    /// Reads what Tidal offered for a record without artwork: a valid https URL is to be
    /// stored; no URL, or an invalid one, counts as unavailable; a failed request counts
    /// as failed.
    pub fn artwork_to_store(&mut self, fetched: Result<Option<String>, TidalError>) -> (r: Option<String>)
        requires
            counts_room(*old(self)),
        ensures
            match fetched {
                Ok(Some(url)) => if valid_https_url(url@) {
                    r == Some(url) && *final(self) == *old(self)
                } else {
                    r is None && *final(self) == (ArtworkRefreshCounts {
                        unavailable: (old(self).unavailable + 1) as u32,
                        ..*old(self)
                    })
                },
                Ok(None) => r is None && *final(self) == (ArtworkRefreshCounts {
                    unavailable: (old(self).unavailable + 1) as u32,
                    ..*old(self)
                }),
                Err(_) => r is None && *final(self) == (ArtworkRefreshCounts {
                    failed: (old(self).failed + 1) as u32,
                    ..*old(self)
                }),
            },
    {
        match fetched {
            Ok(Some(url)) => {
                if is_valid_https_url(url.as_str()) {
                    Some(url)
                } else {
                    self.unavailable = self.unavailable + 1;
                    None
                }
            },
            Ok(None) => {
                self.unavailable = self.unavailable + 1;
                None
            },
            Err(_) => {
                self.failed = self.failed + 1;
                None
            },
        }
    }

    /// Counts the guarded store of a URL: one row changed means updated; none means the
    /// record gained artwork meanwhile; a failed store counts as failed.
    pub fn record_store(&mut self, rows_affected: Result<u64, ()>)
        requires
            counts_room(*old(self)),
        ensures
            *final(self) == match rows_affected {
                Ok(rows) => if rows == 1 {
                    ArtworkRefreshCounts { updated: (old(self).updated + 1) as u32, ..*old(self) }
                } else {
                    ArtworkRefreshCounts {
                        already_present: (old(self).already_present + 1) as u32,
                        ..*old(self)
                    }
                },
                Err(_) => ArtworkRefreshCounts { failed: (old(self).failed + 1) as u32, ..*old(self) },
            },
    {
        match rows_affected {
            Ok(rows) => if rows == 1 {
                self.updated = self.updated + 1;
            } else {
                self.already_present = self.already_present + 1;
            },
            Err(_) => {
                self.failed = self.failed + 1;
            },
        }
    }
}

} // verus!
