//! Monitoring artists for new releases: when an artist is due for a check, which releases
//! it observes for the first time, which of them become downloads, and which stored
//! edition a discovery stands for.
use vstd::prelude::*;

use crate::discovery::{
    identity_key, keep_best, rank_all, select_candidates, AlbumIdentity, InvalidAlbumId, KeyKind,
};
use crate::matching::TidalAlbum;
use crate::text::str_equal;

verus! {

/// How long an artist waits between discography checks, in microseconds (six hours).
pub const CHECK_INTERVAL_MICROS: i64 = 21_600_000_000;

/// The latest last-attempt time that makes an artist due at `now`: one interval earlier.
pub fn latest_due_attempt(now: i64) -> (r: Result<i64, String>)
    ensures
        now - CHECK_INTERVAL_MICROS >= i64::MIN ==> r == Ok::<i64, String>(
            (now - CHECK_INTERVAL_MICROS) as i64,
        ),
        now - CHECK_INTERVAL_MICROS < i64::MIN ==> (r matches Err(m) && m@
            == "Artist check time exceeds the supported range"@),
{
    if now < i64::MIN + CHECK_INTERVAL_MICROS {
        return Err("Artist check time exceeds the supported range".to_owned());
    }
    Ok(now - CHECK_INTERVAL_MICROS)
}

/// An artist is due when it was never attempted or its last attempt is not later than
/// the latest due time.
pub fn is_due(last_attempt: Option<i64>, latest_due: i64) -> (r: bool)
    ensures
        r == match last_attempt {
            Some(t) => t <= latest_due,
            None => true,
        },
{
    match last_attempt {
        Some(t) => t <= latest_due,
        None => true,
    }
}

pub open spec fn identity_view(i: AlbumIdentity) -> (Seq<char>, Seq<char>) {
    (i.normalized_title@, i.release_type@)
}

pub open spec fn album_identity(a: TidalAlbum) -> (Seq<char>, Seq<char>) {
    identity_key(a.title@, a.album_type@)
}

/// The identities observed for the first time, in the order the albums show them: each
/// album's identity, unless the artist already knows it or it was already listed.
pub open spec fn new_identities_of(
    known: Seq<(Seq<char>, Seq<char>)>,
    albums: Seq<TidalAlbum>,
) -> Seq<(Seq<char>, Seq<char>)>
    decreases albums.len(),
{
    if albums.len() == 0 {
        Seq::empty()
    } else {
        let acc = new_identities_of(known, albums.drop_last());
        let id = album_identity(albums.last());
        if known.contains(id) || acc.contains(id) {
            acc
        } else {
            acc.push(id)
        }
    }
}

fn contains_identity(ids: &Vec<AlbumIdentity>, id: &AlbumIdentity) -> (r: bool)
    ensures
        r == ids@.map_values(|i: AlbumIdentity| identity_view(i)).contains(identity_view(*id)),
{
    let ghost v = ids@.map_values(|i: AlbumIdentity| identity_view(i));
    let mut k: usize = 0;
    while k < ids.len()
        invariant
            k <= ids@.len(),
            v == ids@.map_values(|i: AlbumIdentity| identity_view(i)),
            forall|j: int| 0 <= j < k ==> v[j] != identity_view(*id),
        decreases ids.len() - k,
    {
        if str_equal(ids[k].normalized_title.as_str(), id.normalized_title.as_str()) && str_equal(
            ids[k].release_type.as_str(),
            id.release_type.as_str(),
        ) {
            assert(v[k as int] == identity_view(*id));
            return true;
        }
        k = k + 1;
    }
    false
}

/// The identities an artist observes for the first time in its current discography.
pub fn new_identities(known: &Vec<AlbumIdentity>, albums: &[TidalAlbum]) -> (r: Vec<AlbumIdentity>)
    ensures
        r@.map_values(|i: AlbumIdentity| identity_view(i)) == new_identities_of(
            known@.map_values(|i: AlbumIdentity| identity_view(i)),
            albums@,
        ),
{
    let ghost kv = known@.map_values(|i: AlbumIdentity| identity_view(i));
    let mut out: Vec<AlbumIdentity> = Vec::new();
    let mut i: usize = 0;
    while i < albums.len()
        invariant
            i <= albums@.len(),
            kv == known@.map_values(|i: AlbumIdentity| identity_view(i)),
            out@.map_values(|i: AlbumIdentity| identity_view(i)) == new_identities_of(
                kv,
                albums@.take(i as int),
            ),
        decreases albums.len() - i,
    {
        assert(albums@.take(i + 1).drop_last() =~= albums@.take(i as int));
        let id = AlbumIdentity::of_album(&albums[i]);
        if !contains_identity(known, &id) && !contains_identity(&out, &id) {
            let ghost before = out@;
            out.push(id);
            assert(out@.map_values(|i: AlbumIdentity| identity_view(i)) =~= before.map_values(
                |i: AlbumIdentity| identity_view(i),
            ).push(identity_view(id)));
        }
        i = i + 1;
    }
    assert(albums@.take(albums@.len() as int) =~= albums@);
    out
}

/// The albums whose identity the artist does not know yet.
pub open spec fn unknown_albums(known: Seq<(Seq<char>, Seq<char>)>, albums: Seq<TidalAlbum>) -> Seq<
    TidalAlbum,
> {
    albums.filter(|a: TidalAlbum| !known.contains(album_identity(a)))
}

/// The releases a check hands off for download: none while the baseline is being set up
/// or when the artist is not monitored; else the best-ranked edition of each release whose
/// identity the artist did not know before this check.
pub fn discoveries(
    known: &Vec<AlbumIdentity>,
    albums: Vec<TidalAlbum>,
    initializing: bool,
    monitored: bool,
) -> (r: Result<Vec<TidalAlbum>, InvalidAlbumId>)
    ensures
        initializing || !monitored ==> (r matches Ok(v) && v@.len() == 0),
        !initializing && monitored ==> ({
            let fresh = unknown_albums(known@.map_values(|i: AlbumIdentity| identity_view(i)), albums@);
            match rank_all(fresh, KeyKind::Identity) {
                Ok(entries) => r matches Ok(v) && v@ == keep_best(entries).0,
                Err(k) => r matches Err(e) && e.album_id@ == fresh[k].id@,
            }
        }),
{
    if initializing || !monitored {
        return Ok(Vec::new());
    }
    let ghost kv = known@.map_values(|i: AlbumIdentity| identity_view(i));
    let ghost keep = |a: TidalAlbum| !kv.contains(album_identity(a));
    let ghost orig = albums@;
    let n = albums.len();
    let mut rev = crate::discovery::into_reversed(albums);
    let mut fresh: Vec<TidalAlbum> = Vec::new();
    let mut i: usize = 0;
    while i < n
        invariant
            i <= n,
            orig.len() == n,
            rev@.len() == n - i,
            forall|k: int| 0 <= k < rev@.len() ==> #[trigger] rev@[k] == orig[n - 1 - k],
            kv == known@.map_values(|i: AlbumIdentity| identity_view(i)),
            keep == (|a: TidalAlbum| !kv.contains(album_identity(a))),
            fresh@ == orig.take(i as int).filter(keep),
        decreases n - i,
    {
        let album = rev.pop().unwrap();
        assert(album == orig[i as int]);
        proof {
            assert(orig.take(i + 1) =~= orig.take(i as int).push(album));
            orig.take(i as int).lemma_filter_push(album, keep);
        }
        let id = AlbumIdentity::of_album(&album);
        if !contains_identity(known, &id) {
            fresh.push(album);
        }
        i = i + 1;
    }
    assert(orig.take(n as int) =~= orig);
    select_candidates(fresh)
}

/// A stored album of the artist, as monitoring compares it with a discovery.
#[derive(Debug, Clone, PartialEq, Eq)]
pub struct CatalogEntry {
    pub id: String,
    pub title: String,
    pub album_type: Option<String>,
    pub relative_path: Option<String>,
}

/// A stored album stands for a discovery when it has the discovery's Tidal id, or a
/// release type and the same identity.
pub open spec fn stands_for(entry: CatalogEntry, candidate: TidalAlbum) -> bool {
    entry.id@ == candidate.id@ || match entry.album_type {
        Some(t) => identity_key(entry.title@, t@) == album_identity(candidate),
        None => false,
    }
}

pub open spec fn has_active_job(active: Seq<String>, album_id: Seq<char>) -> bool {
    exists|i: int| 0 <= i < active.len() && (#[trigger] active[i])@ == album_id
}

/// How much an edition is preferred: already downloaded, then already queued, then the
/// discovery's own id.
pub open spec fn preference(entry: CatalogEntry, active: Seq<String>, candidate: TidalAlbum) -> (
    bool,
    bool,
    bool,
) {
    (entry.relative_path is Some, has_active_job(active, entry.id@), entry.id@ == candidate.id@)
}

pub open spec fn bool_le(a: bool, b: bool) -> bool {
    !a || b
}

/// Lexicographic order on preferences, `false` before `true`.
pub open spec fn preference_le(a: (bool, bool, bool), b: (bool, bool, bool)) -> bool {
    (!a.0 && b.0) || (a.0 == b.0 && ((!a.1 && b.1) || (a.1 == b.1 && bool_le(a.2, b.2))))
}

/// The index of the most preferred stored edition that stands for the discovery, the
/// last one among equally preferred editions; `None` when none stands for it.
pub open spec fn preferred_edition(
    entries: Seq<CatalogEntry>,
    active: Seq<String>,
    candidate: TidalAlbum,
) -> Option<int>
    decreases entries.len(),
{
    if entries.len() == 0 {
        None
    } else {
        let best = preferred_edition(entries.drop_last(), active, candidate);
        let i = entries.len() - 1;
        if !stands_for(entries[i], candidate) {
            best
        } else {
            match best {
                Some(b) => if preference_le(
                    preference(entries[b], active, candidate),
                    preference(entries[i], active, candidate),
                ) {
                    Some(i)
                } else {
                    best
                },
                None => Some(i),
            }
        }
    }
}

proof fn lemma_preferred_range(entries: Seq<CatalogEntry>, active: Seq<String>, candidate: TidalAlbum)
    ensures
        preferred_edition(entries, active, candidate) matches Some(b) ==> 0 <= b < entries.len(),
    decreases entries.len(),
{
    if entries.len() > 0 {
        lemma_preferred_range(entries.drop_last(), active, candidate);
        let best = preferred_edition(entries.drop_last(), active, candidate);
        if let Some(b) = best {
            assert(entries.drop_last()[b] == entries[b]);
        }
    }
}

fn stands_for_exec(entry: &CatalogEntry, candidate: &TidalAlbum) -> (r: bool)
    ensures
        r == stands_for(*entry, *candidate),
{
    if str_equal(entry.id.as_str(), candidate.id.as_str()) {
        return true;
    }
    match &entry.album_type {
        Some(t) => {
            let a = AlbumIdentity::new(entry.title.as_str(), t.as_str());
            let b = AlbumIdentity::of_album(candidate);
            str_equal(a.normalized_title.as_str(), b.normalized_title.as_str()) && str_equal(
                a.release_type.as_str(),
                b.release_type.as_str(),
            )
        },
        None => false,
    }
}

fn preference_exec(entry: &CatalogEntry, active: &[String], candidate: &TidalAlbum) -> (r: (bool, bool, bool))
    ensures
        r == preference(*entry, active@, *candidate),
{
    let mut queued = false;
    let mut k: usize = 0;
    while k < active.len()
        invariant
            k <= active@.len(),
            queued == exists|m: int| 0 <= m < k && (#[trigger] active@[m])@ == entry.id@,
        decreases active.len() - k,
    {
        if str_equal(active[k].as_str(), entry.id.as_str()) {
            queued = true;
        }
        k = k + 1;
    }
    (entry.relative_path.is_some(), queued, str_equal(entry.id.as_str(), candidate.id.as_str()))
}

/// Which stored edition a discovery stands for, among the artist's albums (in id order)
/// with the albums that have an active download job: the most preferred edition, so that
/// no new job is needed when an equivalent one is already stored or queued.
pub fn matching_catalog_album(
    entries: &[CatalogEntry],
    active_album_ids: &[String],
    candidate: &TidalAlbum,
) -> (r: Option<usize>)
    ensures
        match r {
            Some(i) => preferred_edition(entries@, active_album_ids@, *candidate) == Some(i as int),
            None => preferred_edition(entries@, active_album_ids@, *candidate) is None,
        },
{
    let mut best: Option<usize> = None;
    let mut best_pref: (bool, bool, bool) = (false, false, false);
    let mut i: usize = 0;
    while i < entries.len()
        invariant
            i <= entries@.len(),
            match best {
                Some(b) => preferred_edition(entries@.take(i as int), active_album_ids@, *candidate)
                    == Some(b as int) && b < i && best_pref == preference(
                    entries@[b as int],
                    active_album_ids@,
                    *candidate,
                ),
                None => preferred_edition(entries@.take(i as int), active_album_ids@, *candidate)
                    is None,
            },
        decreases entries.len() - i,
    {
        assert(entries@.take(i + 1).drop_last() =~= entries@.take(i as int));
        assert(entries@.take(i + 1)[i as int] == entries@[i as int]);
        if let Some(b) = best {
            assert(entries@.take(i + 1)[b as int] == entries@[b as int]);
        }
        if stands_for_exec(&entries[i], candidate) {
            let p = preference_exec(&entries[i], active_album_ids, candidate);
            let better = match best {
                None => true,
                Some(_) => (!best_pref.0 && p.0) || (best_pref.0 == p.0 && ((!best_pref.1 && p.1) || (
                best_pref.1 == p.1 && (!best_pref.2 || p.2)))),
            };
            if better {
                best = Some(i);
                best_pref = p;
            }
        }
        i = i + 1;
    }
    assert(entries@.take(entries@.len() as int) =~= entries@);
    best
}

/// Whether a discovery's stored edition becomes a download: when it has no location and
/// the artist is still monitored.
pub fn needs_download(relative_path: &Option<String>, monitored: bool) -> (r: bool)
    ensures
        r == (relative_path is None && monitored),
{
    relative_path.is_none() && monitored
}

proof fn lemma_preference_order(a: (bool, bool, bool), b: (bool, bool, bool), c: (bool, bool, bool))
    ensures
        preference_le(a, a),
        preference_le(a, b) || preference_le(b, a),
        preference_le(a, b) && preference_le(b, c) ==> preference_le(a, c),
{
}

/// The edition chosen for a discovery is at least as preferred as every other edition
/// that stands for it.
proof fn lemma_preferred_is_most_preferred(
    entries: Seq<CatalogEntry>,
    active: Seq<String>,
    candidate: TidalAlbum,
)
    ensures
        preferred_edition(entries, active, candidate) is None <==> forall|i: int|
            0 <= i < entries.len() ==> !stands_for(#[trigger] entries[i], candidate),
        preferred_edition(entries, active, candidate) matches Some(b) ==> 0 <= b < entries.len()
            && stands_for(entries[b], candidate) && forall|i: int|
            0 <= i < entries.len() && stands_for(#[trigger] entries[i], candidate) ==> preference_le(
                preference(entries[i], active, candidate),
                preference(entries[b], active, candidate),
            ),
    decreases entries.len(),
{
    if entries.len() > 0 {
        let d = entries.drop_last();
        lemma_preferred_is_most_preferred(d, active, candidate);
        let n = entries.len() - 1;
        assert forall|i: int| 0 <= i < d.len() implies #[trigger] d[i] == entries[i] by {}
        let pn = preference(entries[n], active, candidate);
        if let Some(b) = preferred_edition(entries, active, candidate) {
            let pb = preference(entries[b], active, candidate);
            assert forall|i: int|
                0 <= i < entries.len() && stands_for(#[trigger] entries[i], candidate) implies preference_le(
                preference(entries[i], active, candidate),
                pb,
            ) by {
                let pi = preference(entries[i], active, candidate);
                match preferred_edition(d, active, candidate) {
                    Some(c) => {
                        let pc = preference(entries[c], active, candidate);
                        assert(d[c] == entries[c]);
                        if i < n {
                            assert(d[i] == entries[i]);
                            assert(preference_le(pi, pc));
                        }
                        lemma_preference_order(pi, pc, pn);
                        lemma_preference_order(pi, pn, pc);
                    },
                    None => {
                        if i < n {
                            assert(d[i] == entries[i]);
                        }
                        lemma_preference_order(pi, pi, pi);
                    },
                }
            }
        }
        if preferred_edition(entries, active, candidate) is None {
            assert forall|i: int| 0 <= i < entries.len() implies !stands_for(
                #[trigger] entries[i],
                candidate,
            ) by {
                if i < n {
                    assert(d[i] == entries[i]);
                }
            }
        }
        if exists|i: int| 0 <= i < entries.len() && stands_for(#[trigger] entries[i], candidate) {
            let i = choose|i: int| 0 <= i < entries.len() && stands_for(#[trigger] entries[i], candidate);
            if i < n {
                assert(d[i] == entries[i]);
            }
        }
    }
}

/// Which stored edition a discovery stands for: one is chosen exactly when some edition
/// stands for the discovery, and it is one of those. A downloaded edition is chosen
/// whenever one stands for the discovery; failing that, one with an active download job
/// whenever one does; failing both, the edition with the discovery's own id when it is
/// stored.
pub proof fn law_downloaded_editions_are_preferred(
    entries: Seq<CatalogEntry>,
    active: Seq<String>,
    candidate: TidalAlbum,
)
    ensures
        preferred_edition(entries, active, candidate) is Some <==> exists|i: int|
            0 <= i < entries.len() && stands_for(#[trigger] entries[i], candidate),
        preferred_edition(entries, active, candidate) matches Some(b) ==> 0 <= b < entries.len()
            && stands_for(entries[b], candidate),
        (exists|i: int|
            0 <= i < entries.len() && stands_for(#[trigger] entries[i], candidate)
                && entries[i].relative_path is Some) ==> (preferred_edition(entries, active, candidate) matches Some(b)
            && entries[b].relative_path is Some),
        (forall|i: int|
            0 <= i < entries.len() && stands_for(#[trigger] entries[i], candidate)
                ==> entries[i].relative_path is None) && (exists|i: int|
            0 <= i < entries.len() && stands_for(#[trigger] entries[i], candidate) && has_active_job(
                active,
                entries[i].id@,
            )) ==> (preferred_edition(entries, active, candidate) matches Some(b) && has_active_job(
            active,
            entries[b].id@,
        )),
        (forall|i: int|
            0 <= i < entries.len() && stands_for(#[trigger] entries[i], candidate)
                ==> entries[i].relative_path is None && !has_active_job(active, entries[i].id@)) && (
        exists|i: int|
            0 <= i < entries.len() && stands_for(#[trigger] entries[i], candidate) && entries[i].id@
                == candidate.id@) ==> (preferred_edition(entries, active, candidate) matches Some(b)
            && entries[b].id@ == candidate.id@),
{
    lemma_preferred_is_most_preferred(entries, active, candidate);
    if exists|i: int| 0 <= i < entries.len() && stands_for(#[trigger] entries[i], candidate) {
        let i = choose|i: int| 0 <= i < entries.len() && stands_for(#[trigger] entries[i], candidate);
        assert(preferred_edition(entries, active, candidate) is Some);
    }
}

} // verus!
