//! Importing a Jellyfin library: which albums can be linked to catalog rows that already
//! exist, which artists and albums are created, and how each album counts in the summary.
use vstd::prelude::*;

use crate::import_run::Outcome;
use crate::matching::{ResolvedTidalSearchedAlbum, TidalArtist};
use crate::release_date::{parse_release_date, parsed_as, release_date_of, ReleaseDate};
use crate::text::{ascii_lower, ascii_lower_char, chars_of, nat_digits, push_char, to_ascii_lower_char};
use crate::musicbrainz::usize_text;
use vstd::string::StringExecFns;

verus! {

/// An album of the Jellyfin library, with its provider ids in the order Jellyfin listed
/// them.
#[derive(Debug, Clone, PartialEq, Eq)]
pub struct JellyfinAlbum {
    pub id: String,
    pub name: String,
    pub provider_ids: Vec<(String, String)>,
    pub production_year: Option<i32>,
}

/// One page of a Jellyfin listing, with the total it reports when it reports one.
#[derive(Debug, PartialEq, Eq)]
pub struct QueryResult<T> {
    pub items: Vec<T>,
    pub total_record_count: Option<usize>,
}

/// An item of a Jellyfin listing as the server describes it; any field may be missing.
#[derive(Debug, PartialEq, Eq)]
pub struct BaseItemDto {
    pub id: Option<String>,
    pub name: Option<String>,
    pub provider_ids: Option<Vec<(String, String)>>,
    pub production_year: Option<i32>,
}

/// The album an item describes: a missing id or name is empty, missing provider ids are
/// none.
pub open spec fn described_by(album: JellyfinAlbum, dto: BaseItemDto) -> bool {
    &&& album.id@ == text_or_empty(dto.id)
    &&& album.name@ == text_or_empty(dto.name)
    &&& album.provider_ids@ == (match dto.provider_ids {
        Some(ids) => ids@,
        None => Seq::empty(),
    })
    &&& album.production_year == dto.production_year
}

/// A text that is missing reads as empty.
pub open spec fn text_or_empty(s: Option<String>) -> Seq<char> {
    match s {
        Some(t) => t@,
        None => Seq::empty(),
    }
}

impl JellyfinAlbum {
    /// The album an item describes: a missing id or name is empty, missing provider ids
    /// are none.
    pub fn from(dto: BaseItemDto) -> (r: JellyfinAlbum)
        ensures
            described_by(r, dto),
    {
        let id = match dto.id {
            Some(id) => id,
            None => String::new(),
        };
        let name = match dto.name {
            Some(name) => name,
            None => String::new(),
        };
        let provider_ids = match dto.provider_ids {
            Some(ids) => ids,
            None => Vec::new(),
        };
        JellyfinAlbum { id, name, provider_ids, production_year: dto.production_year }
    }
}

/// A stored catalog album.
#[derive(Debug, Clone, PartialEq, Eq)]
pub struct AlbumRecord {
    pub id: String,
    pub title: String,
    pub album_type: Option<String>,
    pub jellyfin_id: Option<String>,
    pub musicbrainz_release_group_id: Option<String>,
    pub match_method: Option<String>,
    pub release_year: i32,
    pub release_month: Option<i32>,
    pub release_day: Option<i32>,
}

/// A stored catalog artist.
#[derive(Debug, Clone, PartialEq, Eq)]
pub struct ArtistRecord {
    pub id: String,
    pub name: String,
    pub musicbrainz_artist_id: Option<String>,
}

/// What to do with a Jellyfin album whose MusicBrainz release group the catalog may
/// already hold.
#[derive(Debug, PartialEq, Eq)]
pub enum ExistingMbidDecision {
    Skip,
    Link { existing: AlbumRecord, jellyfin_id: String },
    Proceed,
}

/// What to do with the album's primary Tidal artist.
#[derive(Debug, PartialEq, Eq)]
pub enum ArtistDecision {
    LinkMusicBrainz { existing: ArtistRecord, mb_artist_id: String },
    Insert { id: String, name: String, mb_artist_id: Option<String> },
    Noop,
}

/// Whether the album is linked to a row with its Tidal id or created.
#[derive(Debug, PartialEq, Eq)]
pub enum AlbumDecision {
    LinkExisting {
        existing: AlbumRecord,
        jellyfin_id: Option<String>,
        musicbrainz_release_group_id: Option<String>,
    },
    Create {
        id: String,
        title: String,
        album_type: Option<String>,
        jellyfin_id: String,
        musicbrainz_release_group_id: String,
        release_date: ReleaseDate,
    },
}

pub open spec fn opt_text(o: Option<String>) -> Option<Seq<char>> {
    match o {
        Some(s) => Some(s@),
        None => None,
    }
}

pub open spec fn opt_str(o: Option<&str>) -> Option<Seq<char>> {
    match o {
        Some(s) => Some(s@),
        None => None,
    }
}

fn clone_opt(o: &Option<String>) -> (r: Option<String>)
    ensures
        opt_text(r) == opt_text(*o),
{
    match o {
        Some(s) => Some(s.clone()),
        None => None,
    }
}

/// An album already stored under the release group is skipped when it is linked to
/// Jellyfin, and linked to this Jellyfin album otherwise; without one the import goes on.
pub fn decide_existing_mbid(existing_by_mbid: Option<AlbumRecord>, jf_album: &JellyfinAlbum) -> (r:
    ExistingMbidDecision)
    ensures
        match existing_by_mbid {
            Some(existing) => if existing.jellyfin_id is Some {
                r == ExistingMbidDecision::Skip
            } else {
                r matches ExistingMbidDecision::Link { existing: e, jellyfin_id }
                    && e == existing && jellyfin_id@ == jf_album.id@
            },
            None => r == ExistingMbidDecision::Proceed,
        },
{
    match existing_by_mbid {
        Some(existing) => if existing.jellyfin_id.is_some() {
            ExistingMbidDecision::Skip
        } else {
            ExistingMbidDecision::Link { existing, jellyfin_id: jf_album.id.clone() }
        },
        None => ExistingMbidDecision::Proceed,
    }
}

/// A new primary artist is inserted with the MusicBrainz artist id, if any; a stored one
/// gains that id only when it has none yet.
pub fn decide_artist(
    existing_artist: Option<ArtistRecord>,
    tidal_artist: &TidalArtist,
    mb_artist_id: Option<&str>,
) -> (r: ArtistDecision)
    ensures
        match existing_artist {
            Some(existing) => if existing.musicbrainz_artist_id is None && mb_artist_id is Some {
                r matches ArtistDecision::LinkMusicBrainz { existing: e, mb_artist_id: m }
                    && e == existing && m@ == mb_artist_id.unwrap()@
            } else {
                r == ArtistDecision::Noop
            },
            None => r matches ArtistDecision::Insert { id, name, mb_artist_id: m }
                && id@ == tidal_artist.id@ && name@ == tidal_artist.name@
                && opt_text(m) == opt_str(mb_artist_id),
        },
{
    match existing_artist {
        Some(existing) => if existing.musicbrainz_artist_id.is_none() {
            match mb_artist_id {
                Some(mb_id) => ArtistDecision::LinkMusicBrainz {
                    existing,
                    mb_artist_id: mb_id.to_owned(),
                },
                None => ArtistDecision::Noop,
            }
        } else {
            ArtistDecision::Noop
        },
        None => ArtistDecision::Insert {
            id: tidal_artist.id.clone(),
            name: tidal_artist.name.clone(),
            mb_artist_id: match mb_artist_id {
                Some(m) => Some(m.to_owned()),
                None => None,
            },
        },
    }
}

/// A stored album with the hit's Tidal id keeps the Jellyfin and MusicBrainz ids it has
/// and gains those it lacks; without one a new album is created from the hit, which needs
/// the release date.
pub fn decide_album_insert(
    existing_by_tidal_id: Option<AlbumRecord>,
    title: &str,
    tidal_hit: &ResolvedTidalSearchedAlbum,
    jf_album: &JellyfinAlbum,
    mb_release_group_id: &str,
    release_date: Option<ReleaseDate>,
) -> (r: AlbumDecision)
    requires
        existing_by_tidal_id is None ==> release_date is Some,
    ensures
        match existing_by_tidal_id {
            Some(existing) => r matches AlbumDecision::LinkExisting {
                existing: e,
                jellyfin_id,
                musicbrainz_release_group_id: m,
            } && e == existing && opt_text(jellyfin_id) == (if existing.jellyfin_id is None {
                Some(jf_album.id@)
            } else {
                opt_text(existing.jellyfin_id)
            }) && opt_text(m) == (if existing.musicbrainz_release_group_id is None {
                Some(mb_release_group_id@)
            } else {
                opt_text(existing.musicbrainz_release_group_id)
            }),
            None => r matches AlbumDecision::Create {
                id,
                title: t,
                album_type,
                jellyfin_id,
                musicbrainz_release_group_id: m,
                release_date: d,
            } && id@ == tidal_hit.id@ && t@ == title@ && opt_text(album_type) == Some(
                tidal_hit.album_type@,
            ) && jellyfin_id@ == jf_album.id@ && m@ == mb_release_group_id@ && Some(d)
                == release_date,
        },
{
    match existing_by_tidal_id {
        Some(existing) => {
            let jellyfin_id = if existing.jellyfin_id.is_none() {
                Some(jf_album.id.clone())
            } else {
                clone_opt(&existing.jellyfin_id)
            };
            let musicbrainz_release_group_id = if existing.musicbrainz_release_group_id.is_none() {
                Some(mb_release_group_id.to_owned())
            } else {
                clone_opt(&existing.musicbrainz_release_group_id)
            };
            AlbumDecision::LinkExisting { existing, jellyfin_id, musicbrainz_release_group_id }
        },
        None => AlbumDecision::Create {
            id: tidal_hit.id.clone(),
            title: title.to_owned(),
            album_type: Some(tidal_hit.album_type.clone()),
            jellyfin_id: jf_album.id.clone(),
            musicbrainz_release_group_id: mb_release_group_id.to_owned(),
            release_date: release_date.unwrap(),
        },
    }
}


/// How an album counts when the release group is already stored: a skipped album counts
/// as skipped and a linked one as linked; `None` when the import goes on.
pub fn existing_mbid_outcome(decision: &ExistingMbidDecision) -> (r: Option<Outcome>)
    ensures
        match decision {
            ExistingMbidDecision::Skip => r == Some(Outcome::Skipped),
            ExistingMbidDecision::Link { .. } => r == Some(Outcome::Linked),
            ExistingMbidDecision::Proceed => r is None,
        },
{
    match decision {
        ExistingMbidDecision::Skip => Some(Outcome::Skipped),
        ExistingMbidDecision::Link { .. } => Some(Outcome::Linked),
        ExistingMbidDecision::Proceed => None,
    }
}

/// How a resolved album counts: linked when a stored album is linked, created otherwise.
pub fn album_outcome(decision: &AlbumDecision) -> (r: Outcome)
    ensures
        match decision {
            AlbumDecision::LinkExisting { .. } => r == Outcome::Linked,
            AlbumDecision::Create { .. } => r == Outcome::Created,
        },
{
    match decision {
        AlbumDecision::LinkExisting { .. } => Outcome::Linked,
        AlbumDecision::Create { .. } => Outcome::Created,
    }
}

/// Whether two keys are equal once ASCII letters are lowercased.
pub open spec fn same_key(a: Seq<char>, b: Seq<char>) -> bool {
    ascii_lower(a) == ascii_lower(b)
}

/// `str::eq_ignore_ascii_case`.
pub fn eq_ignore_ascii_case(a: &str, b: &str) -> (r: bool)
    ensures
        r == same_key(a@, b@),
{
    let x = chars_of(a);
    let y = chars_of(b);
    if x.len() != y.len() {
        proof {
            assert(ascii_lower(a@).len() == a@.len());
            assert(ascii_lower(b@).len() == b@.len());
        }
        return false;
    }
    let mut i: usize = 0;
    while i < x.len()
        invariant
            i <= x@.len(),
            x@ == a@,
            y@ == b@,
            x@.len() == y@.len(),
            forall|j: int| 0 <= j < i ==> ascii_lower_char(#[trigger] x@[j]) == ascii_lower_char(y@[j]),
        decreases x.len() - i,
    {
        if to_ascii_lower_char(x[i]) != to_ascii_lower_char(y[i]) {
            proof {
                assert(ascii_lower(a@)[i as int] == ascii_lower_char(x@[i as int]));
                assert(ascii_lower(b@)[i as int] == ascii_lower_char(y@[i as int]));
            }
            return false;
        }
        i = i + 1;
    }
    assert(ascii_lower(a@) =~= ascii_lower(b@));
    true
}

/// The provider-id key of a MusicBrainz release group.
pub const RELEASE_GROUP_KEY: &'static str = "musicbrainzreleasegroup";

/// The provider-id key of a MusicBrainz artist.
pub const ARTIST_KEY: &'static str = "musicbrainzartist";

impl JellyfinAlbum {
    /// The value of the first provider id whose key equals `key`, ignoring ASCII case.
    pub fn provider_id(&self, key: &str) -> (r: Option<String>)
        ensures
            match r {
                Some(v) => exists|i: int|
                    0 <= i < self.provider_ids@.len() && same_key(
                        (#[trigger] self.provider_ids@[i]).0@,
                        key@,
                    ) && v@ == self.provider_ids@[i].1@ && forall|j: int|
                        0 <= j < i ==> !same_key((#[trigger] self.provider_ids@[j]).0@, key@),
                None => forall|i: int|
                    0 <= i < self.provider_ids@.len() ==> !same_key(
                        (#[trigger] self.provider_ids@[i]).0@,
                        key@,
                    ),
            },
    {
        let mut i: usize = 0;
        while i < self.provider_ids.len()
            invariant
                i <= self.provider_ids@.len(),
                forall|j: int| 0 <= j < i ==> !same_key((#[trigger] self.provider_ids@[j]).0@, key@),
            decreases self.provider_ids.len() - i,
        {
            if eq_ignore_ascii_case(self.provider_ids[i].0.as_str(), key) {
                return Some(self.provider_ids[i].1.clone());
            }
            i = i + 1;
        }
        None
    }
}

/// How many albums one page of the listing asks for.
pub const PAGE_SIZE: usize = 1000;

/// A server address without the slashes it may end with.
pub open spec fn without_trailing_slashes(s: Seq<char>) -> Seq<char>
    decreases s.len(),
{
    if s.len() > 0 && s.last() == '/' {
        without_trailing_slashes(s.drop_last())
    } else {
        s
    }
}

/// The address requests are made against: the configured one without trailing slashes.
pub fn server_url(url: &str) -> (r: String)
    ensures
        r@ == without_trailing_slashes(url@),
{
    let chars = chars_of(url);
    let mut n = chars.len();
    assert(chars@.take(n as int) =~= url@);
    while n > 0 && chars[n - 1] == '/'
        invariant
            n <= chars@.len(),
            without_trailing_slashes(chars@.take(n as int)) == without_trailing_slashes(url@),
            chars@ == url@,
        decreases n,
    {
        assert(chars@.take(n as int).drop_last() =~= chars@.take(n - 1));
        n = n - 1;
    }
    assert(chars@.take(n as int).len() == 0 || chars@.take(n as int).last() != '/');
    let mut r = String::new();
    let mut i: usize = 0;
    while i < n
        invariant
            i <= n <= chars@.len(),
            r@ == chars@.take(i as int),
        decreases n - i,
    {
        push_char(&mut r, chars[i]);
        assert(chars@.take(i + 1) =~= chars@.take(i as int).push(chars@[i as int]));
        i = i + 1;
    }
    r
}

/// The path of one page of the album listing of a user, from `start_index` on.
pub fn items_path(user_id: &str, start_index: usize) -> (r: String)
    ensures
        r@ == "/Items?userId="@ + user_id@
            + "&includeItemTypes=MusicAlbum&recursive=true&fields=ProviderIds,Genres&enableImages=false&enableUserData=false&enableTotalRecordCount=true&startIndex="@
            + nat_digits(start_index as nat) + "&limit="@ + nat_digits(PAGE_SIZE as nat),
{
    let mut path = "/Items?userId=".to_owned();
    path.append(user_id);
    path.append(
        "&includeItemTypes=MusicAlbum&recursive=true&fields=ProviderIds,Genres&enableImages=false&enableUserData=false&enableTotalRecordCount=true&startIndex=",
    );
    let start = usize_text(start_index);
    path.append(start.as_str());
    path.append("&limit=");
    let size = usize_text(PAGE_SIZE);
    path.append(size.as_str());
    path
}

/// The authorization header of a request made with an API key.
pub fn authorization(api_key: &str) -> (r: String)
    ensures
        r@ == "MediaBrowser Token=\""@ + api_key@ + seq!['"'],
{
    let mut header = "MediaBrowser Token=\"".to_owned();
    header.append(api_key);
    push_char(&mut header, '"');
    header
}

/// Where the next page of albums starts, or `None` when this page was the last: the
/// listing ends once the albums read reach the total Jellyfin reports, or this page's
/// length when it reports none.
pub fn next_start_index(start_index: usize, page_len: usize, total_record_count: Option<usize>) -> (r:
    Option<usize>)
    requires
        start_index + page_len <= usize::MAX,
    ensures
        ({
            let total = match total_record_count {
                Some(t) => t as int,
                None => page_len as int,
            };
            if start_index + page_len >= total {
                r is None
            } else {
                r == Some((start_index + page_len) as usize)
            }
        }),
{
    let total = match total_record_count {
        Some(t) => t,
        None => page_len,
    };
    if start_index + page_len >= total {
        None
    } else {
        Some(start_index + page_len)
    }
}

/// Reads one page of the album listing that started at `start_index`: its albums in the
/// order listed, and where the next page starts, if there is one.
pub fn read_page(start_index: usize, page: QueryResult<BaseItemDto>) -> (r: (Vec<JellyfinAlbum>, Option<usize>))
    requires
        start_index + page.items@.len() <= usize::MAX,
    ensures
        r.0@.len() == page.items@.len(),
        forall|i: int| 0 <= i < page.items@.len() ==> described_by(#[trigger] r.0@[i], page.items@[i]),
        ({
            let total = match page.total_record_count {
                Some(t) => t as int,
                None => page.items@.len() as int,
            };
            if start_index + page.items@.len() >= total {
                r.1 is None
            } else {
                r.1 == Some((start_index + page.items@.len()) as usize)
            }
        }),
{
    let QueryResult { items, total_record_count } = page;
    let n = items.len();
    let next = next_start_index(start_index, n, total_record_count);
    let ghost orig = items@;
    let mut rev = crate::discovery::into_reversed(items);
    let mut albums: Vec<JellyfinAlbum> = Vec::new();
    let mut i: usize = 0;
    while i < n
        invariant
            i <= n,
            orig.len() == n,
            rev@.len() == n - i,
            forall|k: int| 0 <= k < rev@.len() ==> #[trigger] rev@[k] == orig[n - 1 - k],
            albums@.len() == i,
            forall|k: int| 0 <= k < i ==> described_by(#[trigger] albums@[k], orig[k]),
        decreases n - i,
    {
        let dto = rev.pop().unwrap();
        assert(dto == orig[i as int]);
        albums.push(JellyfinAlbum::from(dto));
        i = i + 1;
    }
    (albums, next)
}

/// The first Tidal hit of the search; without one there is nothing to import.
pub fn first_hit(hits: Vec<ResolvedTidalSearchedAlbum>) -> (r: Result<ResolvedTidalSearchedAlbum, String>)
    ensures
        hits@.len() == 0 ==> (r matches Err(e) && e@ == "no tidal matches"@),
        hits@.len() > 0 ==> r == Ok::<ResolvedTidalSearchedAlbum, String>(hits@[0]),
{
    let mut hits = hits;
    if hits.len() == 0 {
        return Err("no tidal matches".to_owned());
    }
    Ok(hits.swap_remove(0))
}

/// The first credited Tidal artist, who anchors the MusicBrainz artist link.
pub fn primary_tidal_artist(artists: &[TidalArtist]) -> (r: Result<&TidalArtist, String>)
    ensures
        artists@.len() == 0 ==> (r matches Err(e) && e@ == "tidal album has no artists"@),
        artists@.len() > 0 ==> (r matches Ok(a) && *a == artists@[0]),
{
    if artists.len() == 0 {
        return Err("tidal album has no artists".to_owned());
    }
    Ok(&artists[0])
}

/// The release date a new album needs: none when a row with the hit's Tidal id exists,
/// else the hit's date, which must be present and valid.
pub fn new_album_release_date(stored: bool, release_date: Option<&str>) -> (r: Result<
    Option<ReleaseDate>,
    String,
>)
    ensures
        stored ==> r == Ok::<Option<ReleaseDate>, String>(None),
        !stored && release_date is None ==> (r matches Err(e) && e@
            == "tidal album has no release date"@),
        !stored && release_date is Some ==> match release_date_of(release_date.unwrap()@) {
            Ok(d) => r == Ok::<Option<ReleaseDate>, String>(Some(d)),
            Err(m) => r matches Err(e) && e@ == "invalid tidal release date: "@ + m,
        },
        r matches Ok(d) ==> (stored <==> d is None),
{
    if stored {
        return Ok(None);
    }
    match release_date {
        None => Err("tidal album has no release date".to_owned()),
        Some(text) => match parse_release_date(text) {
            Ok(d) => Ok(Some(d)),
            Err(m) => {
                let mut e = "invalid tidal release date: ".to_owned();
                e.append(m);
                Err(e)
            },
        },
    }
}

} // verus!
