//! Matching an album directory against Tidal's search results, and the checks an
//! album must pass before it enters the catalog.
use vstd::prelude::*;

use crate::reconciliation::{identity, identity_of, string_view_fn, AlbumCandidate};
use crate::release_date::{parse_release_date, parsed_as, release_date_of, ReleaseDate};
use crate::text::{chars_of, push_char, str_equal, trim, trim_chars};
use vstd::string::StringExecFns;

verus! {

/// An artist as Tidal describes it.
#[derive(Debug, Clone, PartialEq, Eq)]
pub struct TidalArtist {
    pub id: String,
    pub name: String,
    pub profile_image_url: Option<String>,
}

/// An album as Tidal describes it.
#[derive(Debug, Clone, PartialEq, Eq)]
pub struct TidalAlbum {
    pub id: String,
    pub title: String,
    pub cover_url: Option<String>,
    pub release_date: Option<String>,
    pub album_type: String,
    pub explicit: Option<bool>,
    pub media_tags: Option<Vec<String>>,
}

/// One album of a Tidal search result, with its credited artists resolved.
#[derive(Debug, Clone, PartialEq, Eq)]
pub struct ResolvedTidalSearchedAlbum {
    pub id: String,
    pub title: String,
    pub cover_url: Option<String>,
    pub release_date: Option<String>,
    pub artists: Vec<TidalArtist>,
    pub album_type: String,
    pub explicit: Option<bool>,
    pub media_tags: Option<Vec<String>>,
}

/// Why a Tidal request failed.
#[derive(Debug, Clone, PartialEq, Eq)]
pub enum TidalError {
    UnexpectedResponse,
    Request(String),
    AuthenticationFailed(u16, String),
}

/// Why an album cannot enter the catalog.
#[derive(Debug, Clone, PartialEq, Eq)]
pub enum PrepareAlbumError {
    Tidal(TidalError),
    InvalidReleaseDate,
    InvalidCredits,
    AlbumIdMismatch,
}

/// An album checked for a valid release date and valid credits, ready to be stored.
#[derive(Debug, Clone, PartialEq, Eq)]
pub struct PreparedAlbum {
    pub album: TidalAlbum,
    pub artists: Vec<TidalArtist>,
    pub release_date: ReleaseDate,
}

/// The outcome of matching one album directory against Tidal's search results.
#[derive(Debug, Clone, PartialEq, Eq)]
pub enum MatchOutcome {
    Unique(PreparedAlbum),
    Unmatched,
    Ambiguous(Vec<String>),
    Failed,
}

/// The release date that an optional date text denotes, if it denotes one.
pub open spec fn date_of(value: Option<String>) -> Option<ReleaseDate> {
    match value {
        Some(v) => match release_date_of(v@) {
            Ok(d) => Some(d),
            Err(_) => None,
        },
        None => None,
    }
}

pub open spec fn is_blank(s: Seq<char>) -> bool {
    trim(s).len() == 0
}

/// Credits are valid when there is at least one, at most `i32::MAX`, every artist has a
/// nonblank id and name, and no two artists share an id.
pub open spec fn credits_valid(artists: Seq<TidalArtist>) -> bool {
    &&& 0 < artists.len() <= i32::MAX
    &&& forall|i: int|
        0 <= i < artists.len() ==> !is_blank((#[trigger] artists[i]).id@) && !is_blank(
            artists[i].name@,
        )
    &&& forall|i: int, j: int|
        0 <= i < j < artists.len() ==> (#[trigger] artists[i]).id@ != (#[trigger] artists[j]).id@
}

impl PreparedAlbum {
    pub open spec fn well_formed(&self) -> bool {
        &&& credits_valid(self.artists@)
        &&& date_of(self.album.release_date) == Some(self.release_date)
    }
}

/// The album part of a search hit.
pub open spec fn album_of_hit(hit: ResolvedTidalSearchedAlbum) -> TidalAlbum {
    TidalAlbum {
        id: hit.id,
        title: hit.title,
        cover_url: hit.cover_url,
        release_date: hit.release_date,
        album_type: hit.album_type,
        explicit: hit.explicit,
        media_tags: hit.media_tags,
    }
}

fn blank(s: &String) -> (r: bool)
    ensures
        r == is_blank(s@),
{
    trim_chars(&chars_of(s.as_str())).len() == 0
}

fn parse_optional_date(value: &Option<String>) -> (r: Option<ReleaseDate>)
    ensures
        r == date_of(*value),
{
    match value {
        Some(v) => match parse_release_date(v.as_str()) {
            Ok(d) => Some(d),
            Err(_) => None,
        },
        None => None,
    }
}

fn credits_are_valid(artists: &Vec<TidalArtist>) -> (r: bool)
    ensures
        r == credits_valid(artists@),
{
    if artists.len() == 0 || artists.len() > 2147483647 {
        return false;
    }
    let mut i: usize = 0;
    while i < artists.len()
        invariant
            i <= artists@.len(),
            forall|a: int|
                0 <= a < i ==> !is_blank((#[trigger] artists@[a]).id@) && !is_blank(
                    artists@[a].name@,
                ),
            forall|a: int, b: int|
                0 <= a < b < i ==> (#[trigger] artists@[a]).id@ != (#[trigger] artists@[b]).id@,
        decreases artists.len() - i,
    {
        if blank(&artists[i].id) || blank(&artists[i].name) {
            return false;
        }
        let mut j: usize = 0;
        while j < i
            invariant
                j <= i < artists@.len(),
                forall|a: int| 0 <= a < j ==> (#[trigger] artists@[a]).id@ != artists@[i as int].id@,
            decreases i - j,
        {
            if str_equal(artists[j].id.as_str(), artists[i].id.as_str()) {
                return false;
            }
            j = j + 1;
        }
        i = i + 1;
    }
    true
}

impl PreparedAlbum {
    /// Checks an album and its credits: the release date must parse, and the credits must
    /// be nonempty with nonblank, unique artist ids and nonblank names.
    pub fn new(album: TidalAlbum, artists: Vec<TidalArtist>) -> (r: Result<PreparedAlbum, PrepareAlbumError>)
        ensures
            match r {
                Ok(p) => date_of(album.release_date) is Some && credits_valid(artists@) && p.album
                    == album && p.artists == artists && Some(p.release_date) == date_of(
                    album.release_date,
                ) && p.well_formed(),
                Err(PrepareAlbumError::InvalidReleaseDate) => date_of(album.release_date) is None,
                Err(PrepareAlbumError::InvalidCredits) => date_of(album.release_date) is Some
                    && !credits_valid(artists@),
                Err(_) => false,
            },
    {
        let release_date = match parse_optional_date(&album.release_date) {
            Some(d) => d,
            None => return Err(PrepareAlbumError::InvalidReleaseDate),
        };
        if !credits_are_valid(&artists) {
            return Err(PrepareAlbumError::InvalidCredits);
        }
        Ok(PreparedAlbum { album, artists, release_date })
    }

    /// Prepares a search hit as it stands, without asking Tidal for more detail.
    pub fn try_from(hit: ResolvedTidalSearchedAlbum) -> (r: Result<PreparedAlbum, PrepareAlbumError>)
        ensures
            match r {
                Ok(p) => date_of(hit.release_date) is Some && credits_valid(hit.artists@)
                    && p.album == album_of_hit(hit) && p.artists == hit.artists && Some(
                    p.release_date,
                ) == date_of(hit.release_date) && p.well_formed(),
                Err(PrepareAlbumError::InvalidReleaseDate) => date_of(hit.release_date) is None,
                Err(PrepareAlbumError::InvalidCredits) => date_of(hit.release_date) is Some
                    && !credits_valid(hit.artists@),
                Err(_) => false,
            },
    {
        PreparedAlbum::new(
            TidalAlbum {
                id: hit.id,
                title: hit.title,
                cover_url: hit.cover_url,
                release_date: hit.release_date,
                album_type: hit.album_type,
                explicit: hit.explicit,
                media_tags: hit.media_tags,
            },
            hit.artists,
        )
    }

    pub fn album(&self) -> (r: &TidalAlbum)
        ensures
            *r == self.album,
    {
        &self.album
    }
}

/// The album that Tidal returned for a requested id, refused when it carries another id.
pub fn check_album_id(requested_id: &str, album: TidalAlbum) -> (r: Result<TidalAlbum, PrepareAlbumError>)
    ensures
        album.id@ == requested_id@ ==> r == Ok::<TidalAlbum, PrepareAlbumError>(album),
        album.id@ != requested_id@ ==> r == Err::<TidalAlbum, PrepareAlbumError>(
            PrepareAlbumError::AlbumIdMismatch,
        ),
{
    if str_equal(album.id.as_str(), requested_id) {
        Ok(album)
    } else {
        Err(PrepareAlbumError::AlbumIdMismatch)
    }
}

/// An album fetched by id, with its separately fetched cover, prepared for the catalog.
pub fn prepare_fetched_album(
    album: TidalAlbum,
    artists: Vec<TidalArtist>,
    cover_url: Option<String>,
) -> (r: Result<PreparedAlbum, PrepareAlbumError>)
    ensures
        match r {
            Ok(p) => date_of(album.release_date) is Some && credits_valid(artists@) && p.album
                == (TidalAlbum { cover_url, ..album }) && p.artists == artists && p.well_formed(),
            Err(PrepareAlbumError::InvalidReleaseDate) => date_of(album.release_date) is None,
            Err(PrepareAlbumError::InvalidCredits) => date_of(album.release_date) is Some
                && !credits_valid(artists@),
            Err(_) => false,
        },
{
    let mut album = album;
    album.cover_url = cover_url;
    PreparedAlbum::new(album, artists)
}

/// Whether a Tidal artist and title name the candidate's album: neither is blank and both
/// normalize to the candidate's identity.
pub open spec fn matches_identity_spec(c: AlbumCandidate, artist: Seq<char>, title: Seq<char>) -> bool {
    !is_blank(artist) && !is_blank(title) && identity_of(c.primary_artist@, c.title@)
        == identity_of(artist, title)
}

pub fn matches_identity(candidate: &AlbumCandidate, artist: &str, title: &str) -> (r: bool)
    ensures
        r == matches_identity_spec(*candidate, artist@, title@),
{
    if trim_chars(&chars_of(artist)).len() == 0 || trim_chars(&chars_of(title)).len() == 0 {
        return false;
    }
    let a = identity(candidate.primary_artist.as_str(), candidate.title.as_str());
    let b = identity(artist, title);
    str_equal(a.0.as_str(), b.0.as_str()) && str_equal(a.1.as_str(), b.1.as_str())
}

/// The state of matching after some hits: the ids already taken, the hits accepted, and
/// whether some hit could not be verified.
pub struct MatchState {
    pub seen: Set<Seq<char>>,
    pub verified: Seq<ResolvedTidalSearchedAlbum>,
    pub failed: bool,
}

/// How one hit changes the state of matching.
pub open spec fn match_step(c: AlbumCandidate, st: MatchState, hit: ResolvedTidalSearchedAlbum) -> MatchState {
    if hit.artists@.len() == 0 {
        MatchState { failed: true, ..st }
    } else if is_blank(hit.id@) || is_blank(hit.title@) || is_blank(hit.artists@[0].name@) {
        MatchState { failed: true, ..st }
    } else if !matches_identity_spec(c, hit.artists@[0].name@, hit.title@) {
        st
    } else if date_of(hit.release_date) is None {
        MatchState { failed: true, ..st }
    } else if (c.release_year is Some && c.release_year.unwrap() != date_of(hit.release_date).unwrap().year)
        || st.seen.contains(hit.id@) {
        st
    } else if credits_valid(hit.artists@) {
        MatchState { seen: st.seen.insert(hit.id@), verified: st.verified.push(hit), failed: st.failed }
    } else {
        MatchState { seen: st.seen.insert(hit.id@), verified: st.verified, failed: true }
    }
}

pub open spec fn match_state(c: AlbumCandidate, hits: Seq<ResolvedTidalSearchedAlbum>) -> MatchState
    decreases hits.len(),
{
    if hits.len() == 0 {
        MatchState { seen: Set::empty(), verified: Seq::empty(), failed: false }
    } else {
        match_step(c, match_state(c, hits.drop_last()), hits.last())
    }
}

pub open spec fn hit_id_fn() -> spec_fn(ResolvedTidalSearchedAlbum) -> Seq<char> {
    |h: ResolvedTidalSearchedAlbum| h.id@
}

/// The prepared form of an accepted hit.
pub open spec fn prepared_of_hit(hit: ResolvedTidalSearchedAlbum) -> PreparedAlbum {
    PreparedAlbum {
        album: album_of_hit(hit),
        artists: hit.artists,
        release_date: date_of(hit.release_date).unwrap(),
    }
}

/// The outcome of matching: any hit that could not be verified fails the match, so that
/// an unverifiable alternative never makes another result look unique; otherwise several
/// accepted hits are ambiguous, one is the match, none is no match.
pub open spec fn outcome_is(r: MatchOutcome, c: AlbumCandidate, hits: Seq<ResolvedTidalSearchedAlbum>) -> bool {
    let st = match_state(c, hits);
    if st.failed {
        r == MatchOutcome::Failed
    } else if st.verified.len() > 1 {
        r matches MatchOutcome::Ambiguous(ids) && ids@.map_values(string_view_fn())
            == st.verified.map_values(hit_id_fn())
    } else if st.verified.len() == 1 {
        r == MatchOutcome::Unique(prepared_of_hit(st.verified[0]))
    } else {
        r == MatchOutcome::Unmatched
    }
}

fn seen_contains(seen: &Vec<String>, id: &String) -> (r: bool)
    ensures
        r == seen@.map_values(string_view_fn()).contains(id@),
{
    let mut i: usize = 0;
    while i < seen.len()
        invariant
            i <= seen@.len(),
            forall|j: int| 0 <= j < i ==> (#[trigger] seen@[j])@ != id@,
        decreases seen.len() - i,
    {
        if str_equal(seen[i].as_str(), id.as_str()) {
            assert(seen@.map_values(string_view_fn())[i as int] == id@);
            return true;
        }
        i = i + 1;
    }
    assert forall|j: int| 0 <= j < seen@.len() implies #[trigger] seen@.map_values(string_view_fn())[j] != id@ by {
        assert(seen@.map_values(string_view_fn())[j] == seen@[j]@);
    }
    false
}

/// What Tidal is searched for to match a directory: its artist, a space, and its title.
pub fn search_query(candidate: &AlbumCandidate) -> (r: String)
    ensures
        r@ == candidate.primary_artist@ + seq![' '] + candidate.title@,
{
    let mut query = candidate.primary_artist.clone();
    push_char(&mut query, ' ');
    query.append(candidate.title.as_str());
    query
}

/// Matches an album directory against the result of a Tidal search for its artist and
/// title. A failed search fails the match.
pub fn match_candidate(
    candidate: &AlbumCandidate,
    search: Result<Vec<ResolvedTidalSearchedAlbum>, TidalError>,
) -> (r: MatchOutcome)
    ensures
        match search {
            Ok(hits) => outcome_is(r, *candidate, hits@),
            Err(_) => r == MatchOutcome::Failed,
        },
{
    let hits = match search {
        Ok(hits) => hits,
        Err(_) => return MatchOutcome::Failed,
    };
    let ghost all = hits@;
    let n = hits.len();
    let mut input = hits;
    let mut rev: Vec<ResolvedTidalSearchedAlbum> = Vec::new();
    while input.len() > 0
        invariant
            input@.len() + rev@.len() == n,
            all.len() == n,
            forall|j: int| 0 <= j < input@.len() ==> #[trigger] input@[j] == all[j],
            forall|j: int| 0 <= j < rev@.len() ==> #[trigger] rev@[j] == all[n - 1 - j],
        decreases input.len(),
    {
        let x = input.pop().unwrap();
        rev.push(x);
    }
    let mut seen: Vec<String> = Vec::new();
    let mut verified: Vec<PreparedAlbum> = Vec::new();
    let mut failed = false;
    let ghost mut accepted: Seq<ResolvedTidalSearchedAlbum> = Seq::empty();
    let mut i: usize = 0;
    while i < n
        invariant
            i <= n,
            all.len() == n,
            rev@.len() == n - i,
            forall|j: int| 0 <= j < rev@.len() ==> #[trigger] rev@[j] == all[n - 1 - j],
            match_state(*candidate, all.take(i as int)).seen == seen@.map_values(string_view_fn()).to_set(),
            match_state(*candidate, all.take(i as int)).verified == accepted,
            match_state(*candidate, all.take(i as int)).failed == failed,
            verified@.len() == accepted.len(),
            forall|j: int| 0 <= j < accepted.len() ==> #[trigger] verified@[j] == prepared_of_hit(accepted[j]),
        decreases n - i,
    {
        let hit = rev.pop().unwrap();
        assert(hit == all[i as int]);
        assert(all.take(i + 1).drop_last() == all.take(i as int));
        let ghost st = match_state(*candidate, all.take(i as int));
        let ghost seen_before = seen@;
        if hit.artists.len() == 0 {
            failed = true;
        } else if blank(&hit.id) || blank(&hit.title) || blank(&hit.artists[0].name) {
            failed = true;
        } else if !matches_identity(candidate, hit.artists[0].name.as_str(), hit.title.as_str()) {
        } else {
            match parse_optional_date(&hit.release_date) {
                None => {
                    failed = true;
                },
                Some(date) => {
                    let year_differs = match candidate.release_year {
                        Some(y) => y != date.year,
                        None => false,
                    };
                    let already = seen_contains(&seen, &hit.id);
                    proof {
                        assert(seen_before.map_values(string_view_fn()).to_set().contains(hit.id@)
                            == seen_before.map_values(string_view_fn()).contains(hit.id@));
                    }
                    if year_differs || already {
                    } else {
                        seen.push(hit.id.clone());
                        proof {
                            assert(seen@.map_values(string_view_fn()) =~= seen_before.map_values(string_view_fn()).push(hit.id@));
                            seen_before.map_values(string_view_fn()).lemma_push_to_set_commute(hit.id@);
                        }
                        let ghost h = hit;
                        match PreparedAlbum::try_from(hit) {
                            Ok(prepared) => {
                                verified.push(prepared);
                                proof {
                                    accepted = accepted.push(h);
                                }
                            },
                            Err(_) => {
                                failed = true;
                            },
                        }
                    }
                },
            }
        }
        i = i + 1;
    }
    assert(all.take(n as int) == all);
    if failed {
        MatchOutcome::Failed
    } else if verified.len() > 1 {
        let mut ids: Vec<String> = Vec::new();
        let mut k: usize = 0;
        while k < verified.len()
            invariant
                k <= verified@.len(),
                verified@.len() == accepted.len(),
                forall|j: int| 0 <= j < accepted.len() ==> #[trigger] verified@[j] == prepared_of_hit(accepted[j]),
                ids@.map_values(string_view_fn()) == accepted.take(k as int).map_values(hit_id_fn()),
            decreases verified.len() - k,
        {
            let ghost before = ids@;
            ids.push(verified[k].album.id.clone());
            assert(ids@.map_values(string_view_fn()) =~= before.map_values(string_view_fn()).push(accepted[k as int].id@));
            assert(accepted.take(k + 1) == accepted.take(k as int).push(accepted[k as int]));
            assert(accepted.take(k + 1).map_values(hit_id_fn()) =~= accepted.take(k as int).map_values(hit_id_fn()).push(accepted[k as int].id@));
            k = k + 1;
        }
        assert(accepted.take(accepted.len() as int) == accepted);
        MatchOutcome::Ambiguous(ids)
    } else if verified.len() == 1 {
        let p = verified.pop().unwrap();
        MatchOutcome::Unique(p)
    } else {
        MatchOutcome::Unmatched
    }
}

/// A hit that matching accepts for the candidate: fully described, naming the
/// candidate's artist and title, dated in the candidate's year when it has one, and with
/// valid credits.
pub open spec fn accepted_hit(c: AlbumCandidate, hit: ResolvedTidalSearchedAlbum) -> bool {
    &&& hit.artists@.len() > 0
    &&& !is_blank(hit.id@)
    &&& !is_blank(hit.title@)
    &&& !is_blank(hit.artists@[0].name@)
    &&& matches_identity_spec(c, hit.artists@[0].name@, hit.title@)
    &&& date_of(hit.release_date) is Some
    &&& (c.release_year is Some ==> c.release_year.unwrap() == date_of(hit.release_date).unwrap().year)
    &&& credits_valid(hit.artists@)
}

proof fn lemma_verified_hits_accepted(c: AlbumCandidate, hits: Seq<ResolvedTidalSearchedAlbum>)
    ensures
        forall|i: int|
            0 <= i < match_state(c, hits).verified.len() ==> accepted_hit(
                c,
                #[trigger] match_state(c, hits).verified[i],
            ) && hits.contains(match_state(c, hits).verified[i]),
    decreases hits.len(),
{
    if hits.len() > 0 {
        lemma_verified_hits_accepted(c, hits.drop_last());
        let before = match_state(c, hits.drop_last()).verified;
        let after = match_state(c, hits).verified;
        assert forall|i: int| 0 <= i < after.len() implies accepted_hit(c, #[trigger] after[i])
            && hits.contains(after[i]) by {
            if i < before.len() {
                assert(after[i] == before[i]);
                let k = choose|k: int| 0 <= k < hits.drop_last().len() && hits.drop_last()[k] == before[i];
                assert(hits[k] == before[i]);
            } else {
                assert(after[i] == hits.last());
                assert(hits[hits.len() - 1] == after[i]);
            }
        }
    }
}

/// A unique match is always one of the search's hits that names the candidate's artist
/// and title, is dated in the candidate's year when the directory gives one, and has valid
/// credits; the album imported is that hit.
pub proof fn law_unique_match_is_an_accepted_hit(
    c: AlbumCandidate,
    hits: Seq<ResolvedTidalSearchedAlbum>,
    r: MatchOutcome,
)
    requires
        outcome_is(r, c, hits),
        r is Unique,
    ensures
        exists|k: int|
            0 <= k < hits.len() && accepted_hit(c, #[trigger] hits[k]) && r->Unique_0 == prepared_of_hit(
                hits[k],
            ),
{
    lemma_verified_hits_accepted(c, hits);
    let st = match_state(c, hits);
    assert(st.verified.len() == 1);
    let v = st.verified[0];
    assert(accepted_hit(c, v));
    let k = choose|k: int| 0 <= k < hits.len() && hits[k] == v;
    assert(accepted_hit(c, hits[k]));
}

} // verus!
