//! The catalog side of a scan: which catalog album each row becomes, and what storing a
//! location or an imported album amounts to once the database has answered.
use vstd::prelude::*;

use crate::matching::PreparedAlbum;
use crate::reconciliation::{CatalogAlbum, ImportOutcome, LocationOutcome, LocationUpdate};
use crate::text::str_equal;
use crate::workflow::{classify_stored_location, location_outcome, StoredLocation};
use vstd::string::StringExecFns;

verus! {

/// An album row as reconciliation reads it.
#[derive(Debug, PartialEq, Eq)]
pub struct AlbumRow {
    pub id: String,
    pub title: String,
    pub release_year: i32,
    pub relative_path: Option<String>,
}

/// A credit row: the album it belongs to and the credited artist's name, in credit
/// position order.
#[derive(Debug, PartialEq, Eq)]
pub struct CreditRow {
    pub album_id: String,
    pub artist_name: String,
}

/// The name of the first credit of an album, if it has any.
pub open spec fn primary_artist_of(credits: Seq<CreditRow>, album_id: Seq<char>) -> Option<Seq<char>>
    decreases credits.len(),
{
    if credits.len() == 0 {
        None
    } else if credits[0].album_id@ == album_id {
        Some(credits[0].artist_name@)
    } else {
        primary_artist_of(credits.drop_first(), album_id)
    }
}

fn primary_artist(credits: &[CreditRow], album_id: &str) -> (r: Option<String>)
    ensures
        match r {
            Some(n) => primary_artist_of(credits@, album_id@) == Some(n@),
            None => primary_artist_of(credits@, album_id@) is None,
        },
{
    assert(credits@.skip(0) =~= credits@);
    let mut i: usize = 0;
    while i < credits.len()
        invariant
            i <= credits@.len(),
            primary_artist_of(credits@, album_id@) == primary_artist_of(credits@.skip(i as int), album_id@),
        decreases credits.len() - i,
    {
        assert(credits@.skip(i as int)[0] == credits@[i as int]);
        assert(credits@.skip(i as int).drop_first() =~= credits@.skip(i + 1));
        if str_equal(credits[i].album_id.as_str(), album_id) {
            return Some(credits[i].artist_name.clone());
        }
        i = i + 1;
    }
    assert(credits@.skip(credits@.len() as int) =~= Seq::<CreditRow>::empty());
    None
}

/// A catalog album from its row, with the name of its first credited artist.
pub fn catalog_album(album: AlbumRow, credits: &[CreditRow]) -> (r: CatalogAlbum)
    ensures
        r.id == album.id,
        r.title == album.title,
        r.release_year == album.release_year,
        r.relative_path == album.relative_path,
        match r.primary_artist {
            Some(n) => primary_artist_of(credits@, album.id@) == Some(n@),
            None => primary_artist_of(credits@, album.id@) is None,
        },
{
    let primary = primary_artist(credits, album.id.as_str());
    CatalogAlbum {
        id: album.id,
        primary_artist: primary,
        title: album.title,
        release_year: album.release_year,
        relative_path: album.relative_path,
    }
}

/// What applying a guarded location update did, once the database has said whether the
/// new path belongs to another album and how many rows the guarded update changed.
pub fn location_update_result(update: &LocationUpdate, occupied: bool, rows_affected: u64) -> (r:
    Result<LocationOutcome, String>)
    ensures
        occupied && update.relative_path is Some ==> (r matches Err(m) && m@ == "Album location "@
            + update.relative_path.unwrap()@ + " is occupied"@),
        !(occupied && update.relative_path is Some) && rows_affected != 1 ==> (r matches Err(m) && m@
            == "Album "@ + update.album_id@ + " was deleted or its location changed during the scan"@),
        !(occupied && update.relative_path is Some) && rows_affected == 1 ==> r == Ok::<
            LocationOutcome,
            String,
        >(
            if update.relative_path is None {
                LocationOutcome::Cleared
            } else if update.previous_path is None {
                LocationOutcome::Attached
            } else {
                LocationOutcome::Changed
            },
        ),
{
    if occupied {
        if let Some(path) = &update.relative_path {
            let mut m = "Album location ".to_owned();
            m.append(path.as_str());
            m.append(" is occupied");
            return Err(m);
        }
    }
    if rows_affected != 1 {
        let mut m = "Album ".to_owned();
        m.append(update.album_id.as_str());
        m.append(" was deleted or its location changed during the scan");
        return Err(m);
    }
    Ok(location_outcome(update))
}

/// What importing a matched directory comes to once the album is stored: a new album is
/// imported; a stored one at this directory is unchanged; a stored one elsewhere makes
/// the directory a duplicate; a stored one without a location needs the location
/// attached (`None`).
pub fn import_outcome(imported: bool, stored_path: &Option<String>, relative_path: &str) -> (r: Option<
    ImportOutcome,
>)
    ensures
        imported ==> r == Some(ImportOutcome::Imported),
        !imported ==> match stored_path {
            Some(p) => if p@ == relative_path@ {
                r == Some(ImportOutcome::Location(LocationOutcome::Unchanged))
            } else {
                r matches Some(ImportOutcome::Duplicate { stored_path: Some(q) }) && q@ == p@
            },
            None => r is None,
        },
{
    if imported {
        return Some(ImportOutcome::Imported);
    }
    match classify_stored_location(stored_path, relative_path) {
        StoredLocation::Same => Some(ImportOutcome::Location(LocationOutcome::Unchanged)),
        StoredLocation::Other(p) => Some(ImportOutcome::Duplicate { stored_path: Some(p) }),
        StoredLocation::Unset => None,
    }
}

/// Attaching the location of an album stored without one: exactly one row must change.
pub fn attach_result(album_id: &str, rows_affected: u64) -> (r: Result<ImportOutcome, String>)
    ensures
        rows_affected == 1 ==> r == Ok::<ImportOutcome, String>(
            ImportOutcome::Location(LocationOutcome::Attached),
        ),
        rows_affected != 1 ==> (r matches Err(m) && m@ == "Album "@ + album_id@
            + " changed during import"@),
{
    if rows_affected == 1 {
        Ok(ImportOutcome::Location(LocationOutcome::Attached))
    } else {
        let mut m = "Album ".to_owned();
        m.append(album_id);
        m.append(" changed during import");
        Err(m)
    }
}


/// The row stored for a new album.
#[derive(Debug, PartialEq, Eq)]
pub struct NewAlbumRow {
    pub id: String,
    pub title: String,
    pub cover_url: Option<String>,
    pub album_type: Option<String>,
    pub release_year: i32,
    pub release_month: Option<i32>,
    pub release_day: Option<i32>,
    pub relative_path: Option<String>,
    pub explicit: Option<bool>,
    pub media_tags: Option<Vec<String>>,
}

/// The credit row of an artist at a position.
#[derive(Debug, PartialEq, Eq)]
pub struct CreditInsert {
    pub album_id: String,
    pub artist_id: String,
    pub position: i32,
}

/// The rows that store a prepared album at an optional location: the album row, and one
/// credit per artist at its position in the credits.
pub fn album_rows(prepared: PreparedAlbum, relative_path: Option<String>) -> (r: (NewAlbumRow, Vec<CreditInsert>))
    requires
        prepared.well_formed(),
    ensures
        r.0.id == prepared.album.id,
        r.0.title == prepared.album.title,
        r.0.cover_url == prepared.album.cover_url,
        r.0.album_type == Some(prepared.album.album_type),
        r.0.release_year == prepared.release_date.year,
        r.0.release_month == prepared.release_date.month,
        r.0.release_day == prepared.release_date.day,
        r.0.relative_path == relative_path,
        r.0.explicit == prepared.album.explicit,
        r.0.media_tags == prepared.album.media_tags,
        r.1@.len() == prepared.artists@.len(),
        forall|i: int|
            0 <= i < r.1@.len() ==> (#[trigger] r.1@[i]).album_id@ == prepared.album.id@
                && r.1@[i].artist_id@ == prepared.artists@[i].id@ && r.1@[i].position == i,
{
    let PreparedAlbum { album, artists, release_date } = prepared;
    let mut credits: Vec<CreditInsert> = Vec::new();
    let mut i: usize = 0;
    while i < artists.len()
        invariant
            i <= artists@.len(),
            artists@.len() <= i32::MAX,
            credits@.len() == i,
            forall|k: int|
                0 <= k < i ==> (#[trigger] credits@[k]).album_id@ == album.id@
                    && credits@[k].artist_id@ == artists@[k].id@ && credits@[k].position == k,
        decreases artists.len() - i,
    {
        credits.push(CreditInsert {
            album_id: album.id.clone(),
            artist_id: artists[i].id.clone(),
            position: i as i32,
        });
        i = i + 1;
    }
    let row = NewAlbumRow {
        id: album.id,
        title: album.title,
        cover_url: album.cover_url,
        album_type: Some(album.album_type),
        release_year: release_date.year,
        release_month: release_date.month,
        release_day: release_date.day,
        relative_path,
        explicit: album.explicit,
        media_tags: album.media_tags,
    };
    (row, credits)
}

} // verus!
