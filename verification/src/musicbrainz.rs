//! MusicBrainz: the records the catalog reads from its web service, the request URLs,
//! and when a request is repeated.
use vstd::prelude::*;

use crate::text::{nat_digits, push_char};
use vstd::utf8::encode_utf8;
use vstd::string::StringExecFns;

verus! {

/// The web service's root.
pub const BASE_URL: &'static str = "https://musicbrainz.org/ws/2";

/// One artist of a search.
#[derive(Debug, Clone, PartialEq, Eq)]
pub struct ArtistSearchResult {
    pub id: String,
    pub name: String,
    pub country: Option<String>,
    pub disambiguation: Option<String>,
}

/// A page of an artist search.
#[derive(Debug, PartialEq, Eq)]
pub struct ArtistSearchResponse {
    pub artist_count: usize,
    pub artists: Vec<ArtistSearchResult>,
}

/// An artist's life span.
#[derive(Debug, Clone, PartialEq, Eq)]
pub struct LifeSpan {
    pub begin: Option<String>,
    pub end: Option<String>,
    pub ended: bool,
}

/// A geographic area.
#[derive(Debug, Clone, PartialEq, Eq)]
pub struct Area {
    pub id: String,
    pub name: String,
    pub sort_name: Option<String>,
    pub disambiguation: Option<String>,
    pub area_type: Option<String>,
    pub type_id: Option<String>,
    pub iso_3166_1_codes: Vec<String>,
}

/// The script and language of a release's text.
#[derive(Debug, PartialEq, Eq)]
pub struct TextRepresentation {
    pub script: Option<String>,
    pub language: Option<String>,
}

/// Which images the Cover Art Archive holds for a release.
#[derive(Debug, PartialEq, Eq)]
pub struct CoverArtArchive {
    pub artwork: bool,
    pub count: u32,
    pub back: bool,
    pub front: bool,
    pub darkened: bool,
}

/// A label a release came out on, with its catalog number.
#[derive(Debug, PartialEq, Eq)]
pub struct LabelInfo {
    pub catalog_number: Option<String>,
    pub label: Option<Label>,
}

#[derive(Debug, PartialEq, Eq)]
pub struct Label {
    pub id: Option<String>,
    pub name: Option<String>,
    pub sort_name: Option<String>,
    pub disambiguation: Option<String>,
}

/// When and where a release came out.
#[derive(Debug, PartialEq, Eq)]
pub struct ReleaseEvent {
    pub date: Option<String>,
    pub area: Option<Area>,
}

/// A disc id of a medium, with its table of contents.
#[derive(Debug, PartialEq, Eq)]
pub struct Disc {
    pub id: Option<String>,
    pub offset_count: Option<u32>,
    pub sectors: Option<u32>,
    pub offsets: Option<Vec<u32>>,
}

/// An alternative name.
#[derive(Debug, Clone, PartialEq, Eq)]
pub struct Alias {
    pub name: Option<String>,
    pub sort_name: Option<String>,
    pub locale: Option<String>,
    pub alias_type: Option<String>,
    pub type_id: Option<String>,
    pub primary: Option<bool>,
    pub begin: Option<String>,
    pub end: Option<String>,
    pub ended: Option<bool>,
}

/// An artist.
#[derive(Debug, PartialEq, Eq)]
pub struct Artist {
    pub id: String,
    pub name: String,
    pub sort_name: Option<String>,
    pub disambiguation: Option<String>,
    pub country: Option<String>,
    pub artist_type: Option<String>,
    pub type_id: Option<String>,
    pub gender: Option<String>,
    pub gender_id: Option<String>,
    pub life_span: Option<LifeSpan>,
    pub area: Option<Area>,
    pub begin_area: Option<Area>,
    pub end_area: Option<Area>,
    pub aliases: Option<Vec<Alias>>,
    pub isnis: Option<Vec<String>>,
    pub ipis: Option<Vec<String>>,
}

/// One release group of an artist's discography.
#[derive(Debug, Clone, PartialEq, Eq)]
pub struct ReleaseGroup {
    pub primary_type: Option<String>,
    pub disambiguation: Option<String>,
    pub id: String,
    pub first_release_date: Option<String>,
    pub title: String,
}

/// A page of an artist's release groups.
#[derive(Debug, PartialEq, Eq)]
pub struct ReleaseGroupResponse {
    pub release_group_count: usize,
    pub release_groups: Vec<ReleaseGroup>,
}

/// The artist a credit names.
#[derive(Debug, Clone, PartialEq, Eq)]
pub struct ArtistCreditArtist {
    pub id: String,
    pub name: String,
}

/// One artist credit of a release group.
#[derive(Debug, Clone, PartialEq, Eq)]
pub struct ArtistCredit {
    pub name: String,
    pub artist: ArtistCreditArtist,
}

/// A release group with its artist credits.
#[derive(Debug, PartialEq, Eq)]
pub struct CreditedReleaseGroup {
    pub id: String,
    pub primary_type: String,
    pub title: String,
    pub first_release_date: Option<String>,
    pub artist_credit: Option<Vec<ArtistCredit>>,
}

/// The first credited artist's name, if the release group has credits.
pub open spec fn first_credit_name(group: CreditedReleaseGroup) -> Option<Seq<char>> {
    match group.artist_credit {
        Some(credits) => if credits@.len() > 0 {
            Some(credits@[0].name@)
        } else {
            None
        },
        None => None,
    }
}

/// The Tidal search query for a release group: its first credited artist, a space and its
/// title; a release group without credits cannot be searched.
pub fn album_search_query(group: &CreditedReleaseGroup) -> (r: Result<String, String>)
    ensures
        match first_credit_name(*group) {
            Some(name) => r matches Ok(q) && q@ == name + seq![' '] + group.title@,
            None => r matches Err(e) && e@ == "release group has no artist credit"@,
        },
{
    let name = match &group.artist_credit {
        Some(credits) => if credits.len() > 0 {
            credits[0].name.clone()
        } else {
            return Err("release group has no artist credit".to_owned());
        },
        None => return Err("release group has no artist credit".to_owned()),
    };
    let mut q = name;
    push_char(&mut q, ' ');
    q.append(group.title.as_str());
    Ok(q)
}

/// Whether a byte is sent as itself in a URL query: ASCII letters, digits, `-`, `.`, `_`
/// and `~`.
pub open spec fn is_unreserved(b: u8) -> bool {
    (0x30 <= b <= 0x39) || (0x41 <= b <= 0x5A) || (0x61 <= b <= 0x7A) || b == 0x2D || b == 0x2E
        || b == 0x5F || b == 0x7E
}

/// An uppercase hexadecimal digit.
pub open spec fn hex_digit(n: u8) -> char {
    if n < 10 {
        (('0' as u8) + n) as char
    } else {
        (('A' as u8) + n - 10) as char
    }
}

/// Percent-encoding of bytes: an unreserved byte stands for itself, any other becomes `%`
/// and two uppercase hexadecimal digits.
pub open spec fn percent_encode(bytes: Seq<u8>) -> Seq<char>
    decreases bytes.len(),
{
    if bytes.len() == 0 {
        Seq::empty()
    } else {
        let b = bytes.last();
        percent_encode(bytes.drop_last()) + if is_unreserved(b) {
            seq![b as char]
        } else {
            seq!['%', hex_digit(b / 16), hex_digit(b % 16)]
        }
    }
}

/// `urlencoding::encode`: the text's UTF-8 bytes, percent-encoded.
#[verifier::external_body]
fn url_encode(text: &str) -> (r: String)
    ensures
        r@ == percent_encode(encode_utf8(text@)),
{
    urlencoding::encode(text).into_owned()
}

/// The URL of an artist search.
pub fn artist_search_url(query: &str) -> (r: String)
    ensures
        r@ == BASE_URL@ + "/artist?query="@ + percent_encode(encode_utf8(query@)) + "&fmt=json"@,
{
    let mut url = BASE_URL.to_owned();
    url.append("/artist?query=");
    let encoded = url_encode(query);
    url.append(encoded.as_str());
    url.append("&fmt=json");
    url
}

/// The URL of a release group with its artist credits.
pub fn release_group_url(release_group_id: &str) -> (r: String)
    ensures
        r@ == BASE_URL@ + "/release-group/"@ + release_group_id@ + "?inc=artist-credits&fmt=json"@,
{
    let mut url = BASE_URL.to_owned();
    url.append("/release-group/");
    url.append(release_group_id);
    url.append("?inc=artist-credits&fmt=json");
    url
}

/// `usize` as decimal digits.
pub(crate) fn usize_text(n: usize) -> (r: String)
    ensures
        r@ == nat_digits(n as nat),
    decreases n,
{
    if n < 10 {
        let mut s = String::new();
        push_char(&mut s, ((n as u8) + ('0' as u8)) as char);
        assert(s@ =~= nat_digits(n as nat));
        s
    } else {
        let mut s = usize_text(n / 10);
        push_char(&mut s, (((n % 10) as u8) + ('0' as u8)) as char);
        assert(s@ =~= nat_digits(n as nat));
        s
    }
}

/// The URL of a page of an artist's release groups, a hundred to a page.
pub fn release_groups_url(artist_id: &str, page: usize) -> (r: String)
    requires
        page * 100 <= usize::MAX,
    ensures
        r@ == BASE_URL@ + "/release-group/?artist="@ + artist_id@ + "&limit=100&offset="@
            + nat_digits((page * 100) as nat) + "&fmt=json"@,
{
    let mut url = BASE_URL.to_owned();
    url.append("/release-group/?artist=");
    url.append(artist_id);
    url.append("&limit=100&offset=");
    let offset = usize_text(page * 100);
    url.append(offset.as_str());
    url.append("&fmt=json");
    url
}

/// A request is sent again while MusicBrainz answers 503 (service unavailable).
pub fn retry_musicbrainz(status: u16) -> (r: bool)
    ensures
        r == (status == 503),
{
    status == 503
}

/// The status a client sees when fetching an artist fails: 404 when MusicBrainz found no
/// such artist, else 500. `None` stands for a transport error.
pub fn artist_fetch_error_status(musicbrainz_status: Option<u16>) -> (r: u16)
    ensures
        r == (if musicbrainz_status == Some(404u16) {
            404u16
        } else {
            500u16
        }),
{
    match musicbrainz_status {
        Some(404) => 404,
        _ => 500,
    }
}


/// A character that may stand in a URL query as it is: an unreserved ASCII character or
/// the `%` that starts an escape.
pub open spec fn url_safe(c: char) -> bool {
    ('0' <= c <= '9') || ('A' <= c <= 'Z') || ('a' <= c <= 'z') || c == '-' || c == '.' || c
        == '_' || c == '~' || c == '%'
}

/// Whatever a search query holds, its encoding holds only URL-safe characters.
pub proof fn law_encoded_queries_are_url_safe(bytes: Seq<u8>)
    ensures
        forall|i: int| 0 <= i < percent_encode(bytes).len() ==> url_safe(#[trigger] percent_encode(bytes)[i]),
    decreases bytes.len(),
{
    if bytes.len() > 0 {
        law_encoded_queries_are_url_safe(bytes.drop_last());
        let b = bytes.last();
        let prev = percent_encode(bytes.drop_last());
        let tail = if is_unreserved(b) {
            seq![b as char]
        } else {
            seq!['%', hex_digit(b / 16), hex_digit(b % 16)]
        };
        assert(percent_encode(bytes) == prev + tail);
        assert forall|i: int| 0 <= i < tail.len() implies url_safe(#[trigger] tail[i]) by {
            if !is_unreserved(b) && i > 0 {
                let n: u8 = if i == 1 { b / 16 } else { b % 16 };
                assert(n < 16);
            }
        }
        assert forall|i: int| 0 <= i < percent_encode(bytes).len() implies url_safe(
            #[trigger] percent_encode(bytes)[i],
        ) by {
            if i < prev.len() {
                assert(percent_encode(bytes)[i] == prev[i]);
            } else {
                assert(percent_encode(bytes)[i] == tail[i - prev.len()]);
            }
        }
    }
}

} // verus!
