//! Administering catalog albums: creating one from Tidal, refreshing release dates, and
//! deleting an album with or without its files.
use vstd::prelude::*;

use crate::matching::PrepareAlbumError;
use crate::release_date::{parse_release_date, release_date_of, ReleaseDate};

verus! {

/// The status a client sees when an album cannot be created from Tidal: invalid metadata
/// is unprocessable (422); a Tidal failure or an answer about another album is a server
/// error (500).
pub fn create_error_status(error: &PrepareAlbumError) -> (r: u16)
    ensures
        r == match error {
            PrepareAlbumError::InvalidReleaseDate | PrepareAlbumError::InvalidCredits => 422u16,
            _ => 500u16,
        },
{
    match error {
        PrepareAlbumError::InvalidReleaseDate | PrepareAlbumError::InvalidCredits => 422,
        _ => 500,
    }
}

/// The artist-scoped creation path only answers when the album's primary (first
/// credited) artist is the one in the path.
pub fn primary_artist_matches(credited_artist_ids: &[String], artist_id: &str) -> (r: bool)
    ensures
        r == (credited_artist_ids@.len() > 0 && credited_artist_ids@[0]@ == artist_id@),
{
    credited_artist_ids.len() > 0 && crate::text::str_equal(credited_artist_ids[0].as_str(), artist_id)
}

/// How a release-date refresh went.
#[derive(Debug, Clone, Copy, PartialEq, Eq, Structural)]
pub struct ReleaseDateRefreshSummary {
    pub updated: u32,
    pub skipped: u32,
}

impl ReleaseDateRefreshSummary {
    pub fn new() -> (r: ReleaseDateRefreshSummary)
        ensures
            r == (ReleaseDateRefreshSummary { updated: 0, skipped: 0 }),
    {
        ReleaseDateRefreshSummary { updated: 0, skipped: 0 }
    }

    /// The release date to store for an album from what Tidal returned: the parsed date,
    /// or nothing (counted as skipped) when the fetch failed, the date is missing or it
    /// does not parse.
    pub fn date_to_store(&mut self, fetched: Result<Option<String>, ()>) -> (r: Option<ReleaseDate>)
        requires
            old(self).skipped < u32::MAX,
        ensures
            match fetched {
                Ok(Some(text)) => match release_date_of(text@) {
                    Ok(d) => r == Some(d) && *final(self) == *old(self),
                    Err(_) => r is None && *final(self) == (ReleaseDateRefreshSummary {
                        skipped: (old(self).skipped + 1) as u32,
                        ..*old(self)
                    }),
                },
                _ => r is None && *final(self) == (ReleaseDateRefreshSummary {
                    skipped: (old(self).skipped + 1) as u32,
                    ..*old(self)
                }),
            },
    {
        match fetched {
            Ok(Some(text)) => match parse_release_date(text.as_str()) {
                Ok(d) => Some(d),
                Err(_) => {
                    self.skipped = self.skipped + 1;
                    None
                },
            },
            _ => {
                self.skipped = self.skipped + 1;
                None
            },
        }
    }

    /// Counts the store of a release date.
    pub fn record_store(&mut self, stored: bool)
        requires
            old(self).updated < u32::MAX,
            old(self).skipped < u32::MAX,
        ensures
            stored ==> *final(self) == (ReleaseDateRefreshSummary {
                updated: (old(self).updated + 1) as u32,
                ..*old(self)
            }),
            !stored ==> *final(self) == (ReleaseDateRefreshSummary {
                skipped: (old(self).skipped + 1) as u32,
                ..*old(self)
            }),
    {
        if stored {
            self.updated = self.updated + 1;
        } else {
            self.skipped = self.skipped + 1;
        }
    }
}

/// Whether to delete an album's files too.
#[derive(Debug, Clone, Copy, PartialEq, Eq, Structural)]
pub struct AlbumDeletionRequest {
    pub delete_files: bool,
}

/// Where an album's files would be deleted from.
#[derive(Debug, PartialEq, Eq)]
pub struct AlbumDeletionPreview {
    pub absolute_path: Option<String>,
}

/// The artists deleted along with the album because nothing else credits them.
#[derive(Debug, PartialEq, Eq)]
pub struct AlbumDeletionResult {
    pub removed_artist_ids: Vec<String>,
}

/// A refused deletion: the status and the message for the client.
pub type DeletionApiError = (u16, &'static str);

/// A catalog failure during deletion, which says whether the files were already removed.
pub fn deletion_database_error(files_removed: bool) -> (r: DeletionApiError)
    ensures
        r.0 == 500,
        files_removed ==> r.1@
            == "Album files were removed, but catalog deletion failed. The album remains in the catalog."@,
        !files_removed ==> r.1@
            == "Could not delete the album from the catalog. No files were removed."@,
{
    if files_removed {
        (500, "Album files were removed, but catalog deletion failed. The album remains in the catalog.")
    } else {
        (500, "Could not delete the album from the catalog. No files were removed.")
    }
}

/// The answer for an album that does not exist.
pub fn album_not_found() -> (r: DeletionApiError)
    ensures
        r.0 == 404,
        r.1@ == "Album not found."@,
{
    (404, "Album not found.")
}

/// The answer when removing the album's directory failed.
pub fn removal_failed() -> (r: DeletionApiError)
    ensures
        r.0 == 500,
        r.1@
            == "Could not remove the album directory. Files may have been partially removed. The catalog was not changed."@,
{
    (
        500,
        "Could not remove the album directory. Files may have been partially removed. The catalog was not changed.",
    )
}

/// The directory whose files a deletion removes: none unless the request asks for it,
/// and a request for files of an album without a recorded location is refused (422).
pub fn files_to_delete(request: AlbumDeletionRequest, relative_path: Option<String>) -> (r: Result<
    Option<String>,
    DeletionApiError,
>)
    ensures
        !request.delete_files ==> r == Ok::<Option<String>, DeletionApiError>(None),
        request.delete_files && relative_path is Some ==> r == Ok::<Option<String>, DeletionApiError>(
            relative_path,
        ),
        request.delete_files && relative_path is None ==> (r matches Err(e) && e.0 == 422 && e.1@
            == "Cannot delete files without a recorded album location. The catalog was not changed."@),
{
    if !request.delete_files {
        return Ok(None);
    }
    match relative_path {
        Some(p) => Ok(Some(p)),
        None => Err(
            (
                422,
                "Cannot delete files without a recorded album location. The catalog was not changed.",
            ),
        ),
    }
}

/// The credited artists that no other album credits once the album is gone, in credit
/// order: each credit's artist with whether another credit still names it.
pub fn orphaned_artists(credits: Vec<(String, bool)>) -> (r: Vec<String>)
    ensures
        r@.map_values(|s: String| s@) == credits@.filter(|c: (String, bool)| !c.1).map_values(
            |c: (String, bool)| c.0@,
        ),
{
    let ghost orig = credits@;
    let ghost keep = |c: (String, bool)| !c.1;
    let n = credits.len();
    let mut rev = crate::discovery::into_reversed(credits);
    let mut out: Vec<String> = Vec::new();
    let mut i: usize = 0;
    while i < n
        invariant
            i <= n,
            orig.len() == n,
            rev@.len() == n - i,
            forall|k: int| 0 <= k < rev@.len() ==> #[trigger] rev@[k] == orig[n - 1 - k],
            keep == (|c: (String, bool)| !c.1),
            out@.map_values(|s: String| s@) == orig.take(i as int).filter(keep).map_values(
                |c: (String, bool)| c.0@,
            ),
        decreases n - i,
    {
        let c = rev.pop().unwrap();
        assert(c == orig[i as int]);
        proof {
            assert(orig.take(i + 1) =~= orig.take(i as int).push(c));
            orig.take(i as int).lemma_filter_push(c, keep);
        }
        let ghost before = out@;
        let (id, still_credited) = c;
        if !still_credited {
            out.push(id);
            assert(out@.map_values(|s: String| s@) =~= before.map_values(|s: String| s@).push(c.0@));
            assert(orig.take(i + 1).filter(keep).map_values(|c: (String, bool)| c.0@) =~= orig.take(
                i as int,
            ).filter(keep).map_values(|c: (String, bool)| c.0@).push(c.0@));
        }
        i = i + 1;
    }
    assert(orig.take(n as int) =~= orig);
    out
}

} // verus!
