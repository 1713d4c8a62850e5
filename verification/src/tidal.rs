//! Tidal's JSON:API documents as the catalog reads them, and the choices made from them:
//! which artwork file to show, and how a search result or an album's credits are
//! assembled from the resources a document includes.
use vstd::prelude::*;

use crate::matching::{ResolvedTidalSearchedAlbum, TidalAlbum, TidalArtist, TidalError};
use crate::text::str_equal;

verus! {

/// An OAuth token grant.
#[derive(Debug, Clone, PartialEq, Eq)]
pub struct OauthToken {
    pub access_token: String,
    pub expires_in: u64,
}

/// A search result document for albums.
#[derive(Debug, PartialEq, Eq)]
pub struct AlbumSearch {
    pub data: Vec<AlbumSearchData>,
    pub included: Vec<AlbumSearchIncluded>,
}

#[derive(Debug, PartialEq, Eq)]
pub struct AlbumSearchData {
    pub relationships: AlbumSearchRelationships,
}

#[derive(Debug, PartialEq, Eq)]
pub struct AlbumSearchRelationships {
    pub albums: AlbumSearchRelationshipsAlbums,
}

/// A list of related resources, by id.
#[derive(Debug, PartialEq, Eq, Default)]
pub struct AlbumSearchRelationshipsAlbums {
    pub data: Vec<AlbumSearchRelationshipsAlbumsData>,
}

#[derive(Debug, PartialEq, Eq)]
pub struct AlbumSearchRelationshipsAlbumsData {
    pub id: String,
}

/// A resource that a document includes.
#[derive(Debug, PartialEq, Eq)]
pub enum AlbumSearchIncluded {
    Album {
        id: String,
        attributes: AlbumSearchIncludedAttributes,
        relationships: AlbumSearchIncludedRelationships,
    },
    Artist {
        id: String,
        attributes: ArtistIncludedAttributes,
        relationships: Option<ArtistIncludedRelationships>,
    },
    Artwork { resource: ArtworkResource },
    Unknown,
}

#[derive(Debug, PartialEq, Eq, Default)]
pub struct AlbumSearchIncludedRelationships {
    pub artists: AlbumSearchRelationshipsAlbums,
    pub cover_art: Option<ArtworkRelationship>,
}

#[derive(Debug, PartialEq, Eq)]
pub struct ArtworkResource {
    pub id: String,
    pub attributes: ArtworkAttributes,
}

#[derive(Debug, PartialEq, Eq, Default)]
pub struct ArtworkAttributes {
    pub media_type: Option<String>,
    pub files: Vec<ArtworkFile>,
}

#[derive(Debug, PartialEq, Eq)]
pub struct ArtworkFile {
    pub href: Option<String>,
    pub width: Option<u32>,
    pub height: Option<u32>,
    pub meta: Option<ArtworkFileMeta>,
}

#[derive(Debug, Clone, Copy, PartialEq, Eq, Structural)]
pub struct ArtworkFileMeta {
    pub width: Option<u32>,
    pub height: Option<u32>,
}

#[derive(Debug, PartialEq, Eq, Default)]
pub struct ArtworkRelationship {
    pub data: Option<Vec<ArtworkRelationshipData>>,
}

#[derive(Debug, PartialEq, Eq)]
pub struct ArtworkRelationshipData {
    pub id: String,
}

/// An album's attributes, as far as the catalog reads them.
#[derive(Debug, PartialEq, Eq)]
pub struct AlbumSearchIncludedAttributes {
    pub title: String,
    pub release_date: Option<String>,
    pub album_type: String,
    pub explicit: Option<bool>,
    pub media_tags: Option<Vec<String>>,
}

#[derive(Debug, PartialEq, Eq)]
pub struct ArtistResource {
    pub id: String,
    pub attributes: ArtistIncludedAttributes,
    pub relationships: Option<ArtistIncludedRelationships>,
}

#[derive(Debug, PartialEq, Eq, Default)]
pub struct ArtistIncludedRelationships {
    pub profile_art: Option<ArtworkRelationship>,
}

#[derive(Debug, PartialEq, Eq)]
pub struct ArtistSingleResource {
    pub data: Option<ArtistResource>,
    pub included: Vec<AlbumSearchIncluded>,
}

#[derive(Debug, PartialEq, Eq)]
pub struct AlbumSingleResource {
    pub data: Option<AlbumResource>,
    pub included: Vec<AlbumSearchIncluded>,
}

#[derive(Debug, PartialEq, Eq)]
pub struct AlbumResource {
    pub id: String,
    pub attributes: AlbumSearchIncludedAttributes,
    pub relationships: Option<AlbumSearchIncludedRelationships>,
}

#[derive(Debug, PartialEq, Eq)]
pub struct ArtistAlbumsRelationshipDocument {
    pub included: Vec<AlbumSearchIncluded>,
    pub links: Option<Links>,
}

#[derive(Debug, PartialEq, Eq, Default)]
pub struct Links {
    pub next: Option<String>,
}

#[derive(Debug, PartialEq, Eq)]
pub struct AlbumWithArtistsDocument {
    pub data: Option<AlbumWithArtistsResource>,
    pub included: Vec<AlbumSearchIncluded>,
}

#[derive(Debug, PartialEq, Eq)]
pub struct AlbumWithArtistsResource {
    pub relationships: Option<AlbumWithArtistsRelationships>,
}

#[derive(Debug, PartialEq, Eq)]
pub struct AlbumWithArtistsRelationships {
    pub artists: Option<AlbumSearchRelationshipsAlbums>,
}

#[derive(Debug, PartialEq, Eq)]
pub struct ArtistSearchDocument {
    pub data: Vec<ArtistSearchData>,
    pub included: Vec<AlbumSearchIncluded>,
}

#[derive(Debug, PartialEq, Eq)]
pub struct ArtistSearchData {
    pub relationships: Option<ArtistSearchRelationships>,
}

#[derive(Debug, PartialEq, Eq)]
pub struct ArtistSearchRelationships {
    pub artists: Option<AlbumSearchRelationshipsAlbums>,
}

#[derive(Debug, PartialEq, Eq)]
pub struct ArtistIncludedAttributes {
    pub name: String,
}

/// The artwork resources among the included ones, in order.
/// The text of a search that a client asks for.
#[derive(Debug, PartialEq, Eq)]
pub struct SearchQuery {
    pub query: String,
}

pub open spec fn artworks_of(included: Seq<AlbumSearchIncluded>) -> Seq<ArtworkResource>
    decreases included.len(),
{
    if included.len() == 0 {
        Seq::empty()
    } else {
        let rest = artworks_of(included.drop_last());
        match included.last() {
            AlbumSearchIncluded::Artwork { resource } => rest.push(resource),
            _ => rest,
        }
    }
}

/// The artwork resources a document includes.
pub fn artwork_resources(included: &[AlbumSearchIncluded]) -> (r: Vec<&ArtworkResource>)
    ensures
        r@.map_values(|a: &ArtworkResource| *a) == artworks_of(included@),
{
    let mut r: Vec<&ArtworkResource> = Vec::new();
    let mut i: usize = 0;
    while i < included.len()
        invariant
            i <= included@.len(),
            r@.map_values(|a: &ArtworkResource| *a) == artworks_of(included@.take(i as int)),
        decreases included.len() - i,
    {
        assert(included@.take(i + 1).drop_last() =~= included@.take(i as int));
        let ghost before = r@;
        match &included[i] {
            AlbumSearchIncluded::Artwork { resource } => {
                r.push(resource);
                assert(r@.map_values(|a: &ArtworkResource| *a) =~= before.map_values(
                    |a: &ArtworkResource| *a,
                ).push(*resource));
            },
            _ => {},
        }
        i = i + 1;
    }
    assert(included@.take(included@.len() as int) =~= included@);
    r
}

/// A file's dimensions: its own width and height when it has both, else its metadata's
/// when that has both; the two sources are never mixed.
pub open spec fn file_dimensions(file: ArtworkFile) -> Option<(u32, u32)> {
    match (file.width, file.height) {
        (Some(w), Some(h)) => Some((w, h)),
        _ => match file.meta {
            Some(meta) => match (meta.width, meta.height) {
                (Some(w), Some(h)) => Some((w, h)),
                _ => None,
            },
            None => None,
        },
    }
}

pub fn artwork_file_dimensions(file: &ArtworkFile) -> (r: Option<(u32, u32)>)
    ensures
        r == file_dimensions(*file),
{
    match (file.width, file.height) {
        (Some(w), Some(h)) => Some((w, h)),
        _ => match file.meta {
            Some(meta) => match (meta.width, meta.height) {
                (Some(w), Some(h)) => Some((w, h)),
                _ => None,
            },
            None => None,
        },
    }
}

/// The scheme of a URL, and whether it has a host, as `url::Url::parse` reads a text;
/// `None` when the text is not a URL.
pub uninterp spec fn url_parts(value: Seq<char>) -> Option<(Seq<char>, bool)>;

pub open spec fn parts_view(p: Option<(String, bool)>) -> Option<(Seq<char>, bool)> {
    match p {
        Some((s, h)) => Some((s@, h)),
        None => None,
    }
}

/// `url::Url::parse`, reduced to the URL's scheme and whether `host_str` is present; a
/// function of the text alone.
#[verifier::external_body]
fn parse_url_parts(value: &str) -> (r: Option<(String, bool)>)
    ensures
        parts_view(r) == url_parts(value@),
{
    match url::Url::parse(value) {
        Ok(url) => Some((url.scheme().to_owned(), url.host_str().is_some())),
        Err(_) => None,
    }
}

/// A URL that parses, uses `https` and names a host.
pub open spec fn valid_https_url(value: Seq<char>) -> bool {
    url_parts(value) matches Some((scheme, has_host)) && scheme == "https"@ && has_host
}

pub fn is_valid_https_url(value: &str) -> (r: bool)
    ensures
        r == valid_https_url(value@),
{
    match parse_url_parts(value) {
        Some((scheme, has_host)) => str_equal(scheme.as_str(), "https") && has_host,
        None => false,
    }
}

/// A file that can be shown: it has an address that is a valid https URL and square
/// dimensions; its width, and its address.
pub open spec fn usable_square(file: ArtworkFile) -> Option<(u32, Seq<char>)> {
    match file.href {
        Some(href) => match file_dimensions(file) {
            Some((w, h)) => if w == h && valid_https_url(href@) {
                Some((w, href@))
            } else {
                None
            },
            None => None,
        },
        None => None,
    }
}

/// The usable square files seen so far: the first of the largest, and the first of the
/// smallest among those at least 640 wide.
pub open spec fn square_choice(files: Seq<ArtworkFile>) -> (
    Option<(u32, Seq<char>)>,
    Option<(u32, Seq<char>)>,
)
    decreases files.len(),
{
    if files.len() == 0 {
        (None, None)
    } else {
        let (largest, smallest_large) = square_choice(files.drop_last());
        match usable_square(files.last()) {
            None => (largest, smallest_large),
            Some((w, href)) => (
                match largest {
                    Some((cw, _)) => if w > cw {
                        Some((w, href))
                    } else {
                        largest
                    },
                    None => Some((w, href)),
                },
                if w >= 640 {
                    match smallest_large {
                        Some((cw, _)) => if w < cw {
                            Some((w, href))
                        } else {
                            smallest_large
                        },
                        None => Some((w, href)),
                    }
                } else {
                    smallest_large
                },
            ),
        }
    }
}

/// What an artwork offers: the smallest usable square file at least 640 wide, else the
/// largest usable square file; nothing unless it is an image.
pub open spec fn artwork_choice(artwork: ArtworkResource) -> Option<Seq<char>> {
    if opt_media_type(artwork.attributes.media_type) != Some("IMAGE"@) {
        None
    } else {
        let (largest, smallest_large) = square_choice(artwork.attributes.files@);
        match smallest_large {
            Some((_, href)) => Some(href),
            None => match largest {
                Some((_, href)) => Some(href),
                None => None,
            },
        }
    }
}

pub open spec fn opt_media_type(m: Option<String>) -> Option<Seq<char>> {
    match m {
        Some(s) => Some(s@),
        None => None,
    }
}

/// The first artwork with an id.
pub open spec fn artwork_with_id(artworks: Seq<ArtworkResource>, id: Seq<char>) -> Option<
    ArtworkResource,
>
    decreases artworks.len(),
{
    if artworks.len() == 0 {
        None
    } else if artworks[0].id@ == id {
        Some(artworks[0])
    } else {
        artwork_with_id(artworks.drop_first(), id)
    }
}

/// In relationship order, the choice of the first related artwork that offers one.
pub open spec fn related_choice(
    related: Seq<ArtworkRelationshipData>,
    artworks: Seq<ArtworkResource>,
) -> Option<Seq<char>>
    decreases related.len(),
{
    if related.len() == 0 {
        None
    } else {
        match artwork_with_id(artworks, related[0].id@) {
            Some(a) => match artwork_choice(a) {
                Some(href) => Some(href),
                None => related_choice(related.drop_first(), artworks),
            },
            None => related_choice(related.drop_first(), artworks),
        }
    }
}

/// The artwork URL a relationship leads to.
pub open spec fn selected_artwork(
    relationship: Option<ArtworkRelationship>,
    artworks: Seq<ArtworkResource>,
) -> Option<Seq<char>> {
    match relationship {
        Some(rel) => match rel.data {
            Some(data) => related_choice(data@, artworks),
            None => None,
        },
        None => None,
    }
}

pub open spec fn deref_artworks(artworks: Seq<&ArtworkResource>) -> Seq<ArtworkResource> {
    artworks.map_values(|a: &ArtworkResource| *a)
}

fn find_artwork<'a>(artworks: &[&'a ArtworkResource], id: &str) -> (r: Option<&'a ArtworkResource>)
    ensures
        match r {
            Some(a) => artwork_with_id(deref_artworks(artworks@), id@) == Some(*a),
            None => artwork_with_id(deref_artworks(artworks@), id@) is None,
        },
{
    let ghost all = deref_artworks(artworks@);
    assert(all.skip(0) =~= all);
    let mut i: usize = 0;
    while i < artworks.len()
        invariant
            i <= artworks@.len(),
            all == deref_artworks(artworks@),
            artwork_with_id(all, id@) == artwork_with_id(all.skip(i as int), id@),
        decreases artworks.len() - i,
    {
        assert(all.skip(i as int)[0] == *artworks@[i as int]);
        assert(all.skip(i as int).drop_first() =~= all.skip(i + 1));
        if str_equal(artworks[i].id.as_str(), id) {
            return Some(artworks[i]);
        }
        i = i + 1;
    }
    assert(all.skip(artworks@.len() as int) =~= Seq::<ArtworkResource>::empty());
    None
}

fn choose_square(files: &Vec<ArtworkFile>) -> (r: (Option<(u32, &str)>, Option<(u32, &str)>))
    ensures
        ({
            let (largest, smallest_large) = square_choice(files@);
            &&& largest == match r.0 {
                Some((w, h)) => Some((w, h@)),
                None => None,
            }
            &&& smallest_large == match r.1 {
                Some((w, h)) => Some((w, h@)),
                None => None,
            }
        }),
{
    let mut largest: Option<(u32, &str)> = None;
    let mut smallest_large: Option<(u32, &str)> = None;
    let mut i: usize = 0;
    while i < files.len()
        invariant
            i <= files@.len(),
            ({
                let (l, s) = square_choice(files@.take(i as int));
                &&& l == match largest {
                    Some((w, h)) => Some((w, h@)),
                    None => None,
                }
                &&& s == match smallest_large {
                    Some((w, h)) => Some((w, h@)),
                    None => None,
                }
            }),
        decreases files.len() - i,
    {
        assert(files@.take(i + 1).drop_last() =~= files@.take(i as int));
        assert(files@.take(i + 1).last() == files@[i as int]);
        let file = &files[i];
        i = i + 1;
        let href = match &file.href {
            Some(h) => h.as_str(),
            None => continue,
        };
        let (width, height) = match artwork_file_dimensions(file) {
            Some(d) => d,
            None => continue,
        };
        if width != height || !is_valid_https_url(href) {
            continue;
        }
        let replace_largest = match largest {
            Some((current, _)) => width > current,
            None => true,
        };
        if replace_largest {
            largest = Some((width, href));
        }
        if width >= 640 {
            let replace_small = match smallest_large {
                Some((current, _)) => width < current,
                None => true,
            };
            if replace_small {
                smallest_large = Some((width, href));
            }
        }
    }
    assert(files@.take(files@.len() as int) =~= files@);
    (largest, smallest_large)
}

/// The URL of the artwork a relationship leads to: in relationship order, the first
/// related image artwork with a usable square file, taking its smallest such file at
/// least 640 wide, else its largest.
pub fn select_artwork_url(
    relationship: Option<&ArtworkRelationship>,
    artworks: &[&ArtworkResource],
) -> (r: Option<String>)
    ensures
        opt_media_type(r) == selected_artwork(
            match relationship {
                Some(rel) => Some(*rel),
                None => None,
            },
            deref_artworks(artworks@),
        ),
{
    let rel = match relationship {
        Some(r) => r,
        None => return None,
    };
    let data = match &rel.data {
        Some(d) => d,
        None => return None,
    };
    let ghost all = deref_artworks(artworks@);
    assert(data@.skip(0) =~= data@);
    let mut i: usize = 0;
    while i < data.len()
        invariant
            i <= data@.len(),
            all == deref_artworks(artworks@),
            relationship == Some(rel),
            selected_artwork(Some(*rel), all) == related_choice(data@, all),
            related_choice(data@, all) == related_choice(data@.skip(i as int), all),
        decreases data.len() - i,
    {
        assert(data@.skip(i as int)[0] == data@[i as int]);
        assert(data@.skip(i as int).drop_first() =~= data@.skip(i + 1));
        let related = &data[i];
        let ghost k = i as int;
        i = i + 1;
        let artwork = match find_artwork(artworks, related.id.as_str()) {
            Some(a) => a,
            None => continue,
        };
        let is_image = match &artwork.attributes.media_type {
            Some(m) => str_equal(m.as_str(), "IMAGE"),
            None => false,
        };
        if !is_image {
            continue;
        }
        assert(opt_media_type(artwork.attributes.media_type) == Some("IMAGE"@));
        let (largest, smallest_large) = choose_square(&artwork.attributes.files);
        match smallest_large {
            Some((_, href)) => {
                assert(artwork_choice(*artwork) == Some(href@));
                assert(related_choice(data@.skip(k), all) == Some(href@));
                return Some(href.to_owned());
            },
            None => {},
        }
        match largest {
            Some((_, href)) => {
                assert(artwork_choice(*artwork) == Some(href@));
                assert(related_choice(data@.skip(k), all) == Some(href@));
                return Some(href.to_owned());
            },
            None => {},
        }
        assert(artwork_choice(*artwork) is None);
    }
    assert(data@.skip(data@.len() as int) =~= Seq::<ArtworkRelationshipData>::empty());
    None
}

/// An artist's profile image: the artwork its `profileArt` relationship leads to.
pub fn select_profile_image_url(
    relationships: Option<&ArtistIncludedRelationships>,
    artworks: &[&ArtworkResource],
) -> (r: Option<String>)
    ensures
        opt_media_type(r) == selected_artwork(
            match relationships {
                Some(rel) => rel.profile_art,
                None => None,
            },
            deref_artworks(artworks@),
        ),
{
    let rel = match relationships {
        Some(r) => match &r.profile_art {
            Some(p) => Some(p),
            None => None,
        },
        None => None,
    };
    select_artwork_url(rel, artworks)
}


pub type ArtistView = (Seq<char>, Seq<char>, Option<Seq<char>>);

pub open spec fn artist_view(a: TidalArtist) -> ArtistView {
    (a.id@, a.name@, opt_media_type(a.profile_image_url))
}

pub open spec fn artist_views(s: Seq<TidalArtist>) -> Seq<ArtistView> {
    s.map_values(|a: TidalArtist| artist_view(a))
}

pub open spec fn tags_view(t: Option<Vec<String>>) -> Option<Seq<Seq<char>>> {
    match t {
        Some(v) => Some(v@.map_values(|s: String| s@)),
        None => None,
    }
}

/// A search hit as plain values.
pub struct HitView {
    pub id: Seq<char>,
    pub title: Seq<char>,
    pub cover_url: Option<Seq<char>>,
    pub release_date: Option<Seq<char>>,
    pub artists: Seq<ArtistView>,
    pub album_type: Seq<char>,
    pub explicit: Option<bool>,
    pub media_tags: Option<Seq<Seq<char>>>,
}

pub open spec fn hit_view(h: ResolvedTidalSearchedAlbum) -> HitView {
    HitView {
        id: h.id@,
        title: h.title@,
        cover_url: opt_media_type(h.cover_url),
        release_date: opt_media_type(h.release_date),
        artists: artist_views(h.artists@),
        album_type: h.album_type@,
        explicit: h.explicit,
        media_tags: tags_view(h.media_tags),
    }
}

/// An included artist as the catalog sees it, with its profile image.
pub open spec fn included_artist_view(
    id: String,
    attributes: ArtistIncludedAttributes,
    relationships: Option<ArtistIncludedRelationships>,
    artworks: Seq<ArtworkResource>,
) -> ArtistView {
    (
        id@,
        attributes.name@,
        selected_artwork(
            match relationships {
                Some(r) => r.profile_art,
                None => None,
            },
            artworks,
        ),
    )
}

/// The first included artist with an id.
pub open spec fn artist_with_id(
    included: Seq<AlbumSearchIncluded>,
    id: Seq<char>,
    artworks: Seq<ArtworkResource>,
) -> Option<ArtistView>
    decreases included.len(),
{
    if included.len() == 0 {
        None
    } else {
        match included[0] {
            AlbumSearchIncluded::Artist { id: aid, attributes, relationships } if aid@ == id => Some(
                included_artist_view(aid, attributes, relationships, artworks),
            ),
            _ => artist_with_id(included.drop_first(), id, artworks),
        }
    }
}

/// The included artists whose ids are among `ids`, in included order.
pub open spec fn artists_among(
    included: Seq<AlbumSearchIncluded>,
    ids: Seq<Seq<char>>,
    artworks: Seq<ArtworkResource>,
) -> Seq<ArtistView>
    decreases included.len(),
{
    if included.len() == 0 {
        Seq::empty()
    } else {
        let rest = artists_among(included.drop_last(), ids, artworks);
        match included.last() {
            AlbumSearchIncluded::Artist { id, attributes, relationships } if ids.contains(id@) => rest.push(
                included_artist_view(id, attributes, relationships, artworks),
            ),
            _ => rest,
        }
    }
}

/// For each related id in order, the included artist with it; `None` when one is missing.
pub open spec fn artists_for(
    related: Seq<AlbumSearchRelationshipsAlbumsData>,
    included: Seq<AlbumSearchIncluded>,
    artworks: Seq<ArtworkResource>,
) -> Option<Seq<ArtistView>>
    decreases related.len(),
{
    if related.len() == 0 {
        Some(Seq::empty())
    } else {
        match (artists_for(related.drop_last(), included, artworks), artist_with_id(
            included,
            related.last().id@,
            artworks,
        )) {
            (Some(rest), Some(a)) => Some(rest.push(a)),
            _ => None,
        }
    }
}

fn clone_opt_string(o: &Option<String>) -> (r: Option<String>)
    ensures
        opt_media_type(r) == opt_media_type(*o),
{
    match o {
        Some(s) => Some(s.clone()),
        None => None,
    }
}

fn clone_tags(t: &Option<Vec<String>>) -> (r: Option<Vec<String>>)
    ensures
        tags_view(r) == tags_view(*t),
{
    match t {
        None => None,
        Some(v) => {
            let mut out: Vec<String> = Vec::new();
            let mut i: usize = 0;
            while i < v.len()
                invariant
                    i <= v@.len(),
                    out@.map_values(|s: String| s@) == v@.take(i as int).map_values(|s: String| s@),
                decreases v.len() - i,
            {
                let ghost before = out@;
                out.push(v[i].clone());
                assert(v@.take(i + 1) =~= v@.take(i as int).push(v@[i as int]));
                assert(out@.map_values(|s: String| s@) =~= before.map_values(|s: String| s@).push(
                    v@[i as int]@,
                ));
                assert(out@.map_values(|s: String| s@) =~= v@.take(i + 1).map_values(|s: String| s@));
                i = i + 1;
            }
            assert(v@.take(v@.len() as int) =~= v@);
            Some(out)
        },
    }
}

fn artist_from(
    id: &String,
    attributes: &ArtistIncludedAttributes,
    relationships: &Option<ArtistIncludedRelationships>,
    artworks: &[&ArtworkResource],
) -> (r: TidalArtist)
    ensures
        artist_view(r) == included_artist_view(*id, *attributes, *relationships, deref_artworks(artworks@)),
{
    let rel = match relationships {
        Some(r) => Some(r),
        None => None,
    };
    TidalArtist {
        id: id.clone(),
        name: attributes.name.clone(),
        profile_image_url: select_profile_image_url(rel, artworks),
    }
}

/// The included artist with an id, if any.
fn find_artist(included: &[AlbumSearchIncluded], id: &str, artworks: &[&ArtworkResource]) -> (r:
    Option<TidalArtist>)
    ensures
        match r {
            Some(a) => artist_with_id(included@, id@, deref_artworks(artworks@)) == Some(artist_view(a)),
            None => artist_with_id(included@, id@, deref_artworks(artworks@)) is None,
        },
{
    let ghost all = deref_artworks(artworks@);
    assert(included@.skip(0) =~= included@);
    let mut i: usize = 0;
    while i < included.len()
        invariant
            i <= included@.len(),
            all == deref_artworks(artworks@),
            artist_with_id(included@, id@, all) == artist_with_id(included@.skip(i as int), id@, all),
        decreases included.len() - i,
    {
        assert(included@.skip(i as int)[0] == included@[i as int]);
        assert(included@.skip(i as int).drop_first() =~= included@.skip(i + 1));
        match &included[i] {
            AlbumSearchIncluded::Artist { id: aid, attributes, relationships } => {
                if str_equal(aid.as_str(), id) {
                    return Some(artist_from(aid, attributes, relationships, artworks));
                }
            },
            _ => {},
        }
        i = i + 1;
    }
    assert(included@.skip(included@.len() as int) =~= Seq::<AlbumSearchIncluded>::empty());
    None
}

/// For each related id in order, the included artist with it; a missing one means Tidal's
/// answer is not what was expected.
pub fn artists_in_order(
    related: &[AlbumSearchRelationshipsAlbumsData],
    included: &[AlbumSearchIncluded],
    artworks: &[&ArtworkResource],
) -> (r: Result<Vec<TidalArtist>, TidalError>)
    ensures
        match artists_for(related@, included@, deref_artworks(artworks@)) {
            Some(v) => r matches Ok(a) && artist_views(a@) == v,
            None => r == Err::<Vec<TidalArtist>, TidalError>(TidalError::UnexpectedResponse),
        },
{
    let ghost all = deref_artworks(artworks@);
    let mut out: Vec<TidalArtist> = Vec::new();
    let mut i: usize = 0;
    while i < related.len()
        invariant
            i <= related@.len(),
            all == deref_artworks(artworks@),
            artists_for(related@.take(i as int), included@, all) == Some(artist_views(out@)),
        decreases related.len() - i,
    {
        assert(related@.take(i + 1).drop_last() =~= related@.take(i as int));
        match find_artist(included, related[i].id.as_str(), artworks) {
            Some(a) => {
                let ghost before = out@;
                out.push(a);
                assert(artist_views(out@) =~= artist_views(before).push(artist_view(a)));
            },
            None => {
                proof {
                    lemma_artists_for_missing(related@, included@, all, i as int);
                }
                return Err(TidalError::UnexpectedResponse);
            },
        }
        i = i + 1;
    }
    assert(related@.take(related@.len() as int) =~= related@);
    Ok(out)
}

proof fn lemma_artists_for_missing(
    related: Seq<AlbumSearchRelationshipsAlbumsData>,
    included: Seq<AlbumSearchIncluded>,
    artworks: Seq<ArtworkResource>,
    i: int,
)
    requires
        0 <= i < related.len(),
        artist_with_id(included, related[i].id@, artworks) is None,
    ensures
        artists_for(related, included, artworks) is None,
    decreases related.len(),
{
    if i < related.len() - 1 {
        assert(related.drop_last()[i] == related[i]);
        lemma_artists_for_missing(related.drop_last(), included, artworks, i);
    }
}

/// The artists an album credits, from a document that includes them: the album's
/// `artists` relationship in order, each resolved to its included resource.
pub fn album_artists(doc: &AlbumWithArtistsDocument) -> (r: Result<Vec<TidalArtist>, TidalError>)
    ensures
        match doc.data {
            Some(album) => match album.relationships {
                Some(rels) => match rels.artists {
                    Some(artists) => match artists_for(
                        artists.data@,
                        doc.included@,
                        artworks_of(doc.included@),
                    ) {
                        Some(v) => r matches Ok(a) && artist_views(a@) == v,
                        None => r == Err::<Vec<TidalArtist>, TidalError>(
                            TidalError::UnexpectedResponse,
                        ),
                    },
                    None => r == Err::<Vec<TidalArtist>, TidalError>(TidalError::UnexpectedResponse),
                },
                None => r == Err::<Vec<TidalArtist>, TidalError>(TidalError::UnexpectedResponse),
            },
            None => r == Err::<Vec<TidalArtist>, TidalError>(TidalError::UnexpectedResponse),
        },
{
    let album = match &doc.data {
        Some(a) => a,
        None => return Err(TidalError::UnexpectedResponse),
    };
    let related = match &album.relationships {
        Some(rels) => match &rels.artists {
            Some(artists) => artists,
            None => return Err(TidalError::UnexpectedResponse),
        },
        None => return Err(TidalError::UnexpectedResponse),
    };
    let artworks = artwork_resources(doc.included.as_slice());
    artists_in_order(related.data.as_slice(), doc.included.as_slice(), artworks.as_slice())
}

/// The artists an artist search found, in the order of its first result's `artists`
/// relationship.
pub fn artist_search_results(doc: &ArtistSearchDocument) -> (r: Result<Vec<TidalArtist>, TidalError>)
    ensures
        doc.data@.len() == 0 ==> r == Err::<Vec<TidalArtist>, TidalError>(
            TidalError::UnexpectedResponse,
        ),
        doc.data@.len() > 0 ==> match doc.data@[0].relationships {
            Some(rels) => match rels.artists {
                Some(artists) => match artists_for(
                    artists.data@,
                    doc.included@,
                    artworks_of(doc.included@),
                ) {
                    Some(v) => r matches Ok(a) && artist_views(a@) == v,
                    None => r == Err::<Vec<TidalArtist>, TidalError>(TidalError::UnexpectedResponse),
                },
                None => r == Err::<Vec<TidalArtist>, TidalError>(TidalError::UnexpectedResponse),
            },
            None => r == Err::<Vec<TidalArtist>, TidalError>(TidalError::UnexpectedResponse),
        },
{
    if doc.data.len() == 0 {
        return Err(TidalError::UnexpectedResponse);
    }
    let related = match &doc.data[0].relationships {
        Some(rels) => match &rels.artists {
            Some(artists) => artists,
            None => return Err(TidalError::UnexpectedResponse),
        },
        None => return Err(TidalError::UnexpectedResponse),
    };
    let artworks = artwork_resources(doc.included.as_slice());
    artists_in_order(related.data.as_slice(), doc.included.as_slice(), artworks.as_slice())
}

/// An artist as a single-resource document describes it, with its profile image.
pub fn artist_from_document(doc: &ArtistSingleResource) -> (r: Result<TidalArtist, TidalError>)
    ensures
        match doc.data {
            Some(res) => r matches Ok(a) && artist_view(a) == included_artist_view(
                res.id,
                res.attributes,
                res.relationships,
                artworks_of(doc.included@),
            ),
            None => r == Err::<TidalArtist, TidalError>(TidalError::UnexpectedResponse),
        },
{
    let res = match &doc.data {
        Some(r) => r,
        None => return Err(TidalError::UnexpectedResponse),
    };
    let artworks = artwork_resources(doc.included.as_slice());
    Ok(artist_from(&res.id, &res.attributes, &res.relationships, artworks.as_slice()))
}


/// A Tidal album as plain values.
pub struct AlbumValues {
    pub id: Seq<char>,
    pub title: Seq<char>,
    pub cover_url: Option<Seq<char>>,
    pub release_date: Option<Seq<char>>,
    pub album_type: Seq<char>,
    pub explicit: Option<bool>,
    pub media_tags: Option<Seq<Seq<char>>>,
}

pub open spec fn album_values(a: TidalAlbum) -> AlbumValues {
    AlbumValues {
        id: a.id@,
        title: a.title@,
        cover_url: opt_media_type(a.cover_url),
        release_date: opt_media_type(a.release_date),
        album_type: a.album_type@,
        explicit: a.explicit,
        media_tags: tags_view(a.media_tags),
    }
}

/// The album an id and included attributes describe, with a cover.
pub open spec fn album_from(
    id: Seq<char>,
    attributes: AlbumSearchIncludedAttributes,
    cover_url: Option<Seq<char>>,
) -> AlbumValues {
    AlbumValues {
        id,
        title: attributes.title@,
        cover_url,
        release_date: opt_media_type(attributes.release_date),
        album_type: attributes.album_type@,
        explicit: attributes.explicit,
        media_tags: tags_view(attributes.media_tags),
    }
}

/// `TidalAlbum::from`: an album from its id, attributes and cover.
pub fn album_of(id: &String, attributes: &AlbumSearchIncludedAttributes, cover_url: Option<String>) -> (r:
    TidalAlbum)
    ensures
        album_values(r) == album_from(id@, *attributes, opt_media_type(cover_url)),
{
    TidalAlbum {
        id: id.clone(),
        title: attributes.title.clone(),
        cover_url,
        release_date: clone_opt_string(&attributes.release_date),
        album_type: attributes.album_type.clone(),
        explicit: attributes.explicit,
        media_tags: clone_tags(&attributes.media_tags),
    }
}

/// The albums a page of an artist's albums includes, in order, each with its cover.
pub open spec fn page_albums(included: Seq<AlbumSearchIncluded>, artworks: Seq<ArtworkResource>) -> Seq<
    AlbumValues,
>
    decreases included.len(),
{
    if included.len() == 0 {
        Seq::empty()
    } else {
        let rest = page_albums(included.drop_last(), artworks);
        match included.last() {
            AlbumSearchIncluded::Album { id, attributes, relationships } => rest.push(
                album_from(id@, attributes, selected_artwork(relationships.cover_art, artworks)),
            ),
            _ => rest,
        }
    }
}

/// The albums of one page of an artist's albums, and the link to the next page, if any.
pub fn artist_albums_page(doc: &ArtistAlbumsRelationshipDocument) -> (r: (Vec<TidalAlbum>, Option<String>))
    ensures
        r.0@.map_values(|a: TidalAlbum| album_values(a)) == page_albums(
            doc.included@,
            artworks_of(doc.included@),
        ),
        opt_media_type(r.1) == match doc.links {
            Some(l) => opt_media_type(l.next),
            None => None,
        },
{
    let artworks = artwork_resources(doc.included.as_slice());
    let ghost all = artworks_of(doc.included@);
    let mut albums: Vec<TidalAlbum> = Vec::new();
    let mut i: usize = 0;
    while i < doc.included.len()
        invariant
            i <= doc.included@.len(),
            deref_artworks(artworks@) == all,
            all == artworks_of(doc.included@),
            albums@.map_values(|a: TidalAlbum| album_values(a)) == page_albums(
                doc.included@.take(i as int),
                all,
            ),
        decreases doc.included.len() - i,
    {
        assert(doc.included@.take(i + 1).drop_last() =~= doc.included@.take(i as int));
        match &doc.included[i] {
            AlbumSearchIncluded::Album { id, attributes, relationships } => {
                let cover = select_artwork_url(
                    match &relationships.cover_art {
                        Some(c) => Some(c),
                        None => None,
                    },
                    artworks.as_slice(),
                );
                let album = album_of(id, attributes, cover);
                let ghost before = albums@;
                albums.push(album);
                assert(albums@.map_values(|a: TidalAlbum| album_values(a)) =~= before.map_values(
                    |a: TidalAlbum| album_values(a),
                ).push(album_values(album)));
            },
            _ => {},
        }
        i = i + 1;
    }
    assert(doc.included@.take(doc.included@.len() as int) =~= doc.included@);
    let next = match &doc.links {
        Some(l) => clone_opt_string(&l.next),
        None => None,
    };
    (albums, next)
}

/// An album as a single-resource document describes it, without its cover.
pub fn album_from_document(doc: &AlbumSingleResource) -> (r: Result<TidalAlbum, TidalError>)
    ensures
        match doc.data {
            Some(res) => r matches Ok(a) && album_values(a) == album_from(res.id@, res.attributes, None),
            None => r == Err::<TidalAlbum, TidalError>(TidalError::UnexpectedResponse),
        },
{
    match &doc.data {
        Some(res) => Ok(album_of(&res.id, &res.attributes, None)),
        None => Err(TidalError::UnexpectedResponse),
    }
}

/// An album's cover, from a single-resource document that includes it.
pub fn album_cover_from_document(doc: &AlbumSingleResource) -> (r: Result<Option<String>, TidalError>)
    ensures
        match doc.data {
            Some(res) => r matches Ok(c) && opt_media_type(c) == selected_artwork(
                match res.relationships {
                    Some(rels) => rels.cover_art,
                    None => None,
                },
                artworks_of(doc.included@),
            ),
            None => r == Err::<Option<String>, TidalError>(TidalError::UnexpectedResponse),
        },
{
    let res = match &doc.data {
        Some(r) => r,
        None => return Err(TidalError::UnexpectedResponse),
    };
    let artworks = artwork_resources(doc.included.as_slice());
    let rel = match &res.relationships {
        Some(rels) => match &rels.cover_art {
            Some(c) => Some(c),
            None => None,
        },
        None => None,
    };
    Ok(select_artwork_url(rel, artworks.as_slice()))
}

/// The first included album with an id: its attributes and relationships.
pub open spec fn album_with_id(included: Seq<AlbumSearchIncluded>, id: Seq<char>) -> Option<
    (AlbumSearchIncludedAttributes, AlbumSearchIncludedRelationships),
>
    decreases included.len(),
{
    if included.len() == 0 {
        None
    } else {
        match included[0] {
            AlbumSearchIncluded::Album { id: aid, attributes, relationships } if aid@ == id => Some(
                (attributes, relationships),
            ),
            _ => album_with_id(included.drop_first(), id),
        }
    }
}

pub open spec fn related_ids(related: Seq<AlbumSearchRelationshipsAlbumsData>) -> Seq<Seq<char>> {
    related.map_values(|d: AlbumSearchRelationshipsAlbumsData| d.id@)
}

/// The hit a search relationship resolves to: the related album's attributes and cover,
/// and the included artists among those it credits.
pub open spec fn hit_for(
    id: Seq<char>,
    attributes: AlbumSearchIncludedAttributes,
    relationships: AlbumSearchIncludedRelationships,
    included: Seq<AlbumSearchIncluded>,
    artworks: Seq<ArtworkResource>,
) -> HitView {
    HitView {
        id,
        title: attributes.title@,
        cover_url: selected_artwork(relationships.cover_art, artworks),
        release_date: opt_media_type(attributes.release_date),
        artists: artists_among(included, related_ids(relationships.artists.data@), artworks),
        album_type: attributes.album_type@,
        explicit: attributes.explicit,
        media_tags: tags_view(attributes.media_tags),
    }
}

/// Every search relationship resolved in order; `None` when one names no included album.
pub open spec fn hits_for(
    related: Seq<AlbumSearchRelationshipsAlbumsData>,
    included: Seq<AlbumSearchIncluded>,
    artworks: Seq<ArtworkResource>,
) -> Option<Seq<HitView>>
    decreases related.len(),
{
    if related.len() == 0 {
        Some(Seq::empty())
    } else {
        match (hits_for(related.drop_last(), included, artworks), album_with_id(
            included,
            related.last().id@,
        )) {
            (Some(rest), Some((attributes, relationships))) => Some(
                rest.push(hit_for(related.last().id@, attributes, relationships, included, artworks)),
            ),
            _ => None,
        }
    }
}

fn find_album<'a>(included: &'a [AlbumSearchIncluded], id: &str) -> (r: Option<
    (&'a AlbumSearchIncludedAttributes, &'a AlbumSearchIncludedRelationships),
>)
    ensures
        match r {
            Some((a, rels)) => album_with_id(included@, id@) == Some((*a, *rels)),
            None => album_with_id(included@, id@) is None,
        },
{
    assert(included@.skip(0) =~= included@);
    let mut i: usize = 0;
    while i < included.len()
        invariant
            i <= included@.len(),
            album_with_id(included@, id@) == album_with_id(included@.skip(i as int), id@),
        decreases included.len() - i,
    {
        assert(included@.skip(i as int)[0] == included@[i as int]);
        assert(included@.skip(i as int).drop_first() =~= included@.skip(i + 1));
        match &included[i] {
            AlbumSearchIncluded::Album { id: aid, attributes, relationships } => {
                if str_equal(aid.as_str(), id) {
                    return Some((attributes, relationships));
                }
            },
            _ => {},
        }
        i = i + 1;
    }
    assert(included@.skip(included@.len() as int) =~= Seq::<AlbumSearchIncluded>::empty());
    None
}

fn contains_text(ids: &Vec<String>, id: &String) -> (r: bool)
    ensures
        r == ids@.map_values(|s: String| s@).contains(id@),
{
    let ghost v = ids@.map_values(|s: String| s@);
    let mut i: usize = 0;
    while i < ids.len()
        invariant
            i <= ids@.len(),
            v == ids@.map_values(|s: String| s@),
            forall|j: int| 0 <= j < i ==> v[j] != id@,
        decreases ids.len() - i,
    {
        if str_equal(ids[i].as_str(), id.as_str()) {
            assert(v[i as int] == id@);
            return true;
        }
        i = i + 1;
    }
    false
}

/// The included artists whose ids an album credits, in included order.
fn credited_among(
    included: &[AlbumSearchIncluded],
    related: &Vec<AlbumSearchRelationshipsAlbumsData>,
    artworks: &[&ArtworkResource],
) -> (r: Vec<TidalArtist>)
    ensures
        artist_views(r@) == artists_among(included@, related_ids(related@), deref_artworks(artworks@)),
{
    let mut ids: Vec<String> = Vec::new();
    let mut k: usize = 0;
    while k < related.len()
        invariant
            k <= related@.len(),
            ids@.map_values(|s: String| s@) == related_ids(related@.take(k as int)),
        decreases related.len() - k,
    {
        let ghost before = ids@;
        ids.push(related[k].id.clone());
        assert(ids@.map_values(|s: String| s@) =~= before.map_values(|s: String| s@).push(
            related@[k as int].id@,
        ));
        assert(related_ids(related@.take(k + 1)) =~= related_ids(related@.take(k as int)).push(
            related@[k as int].id@,
        ));
        k = k + 1;
    }
    assert(related@.take(related@.len() as int) =~= related@);
    let ghost all = deref_artworks(artworks@);
    let ghost wanted = related_ids(related@);
    let mut out: Vec<TidalArtist> = Vec::new();
    let mut i: usize = 0;
    while i < included.len()
        invariant
            i <= included@.len(),
            all == deref_artworks(artworks@),
            ids@.map_values(|s: String| s@) == wanted,
            artist_views(out@) == artists_among(included@.take(i as int), wanted, all),
        decreases included.len() - i,
    {
        assert(included@.take(i + 1).drop_last() =~= included@.take(i as int));
        match &included[i] {
            AlbumSearchIncluded::Artist { id, attributes, relationships } => {
                if contains_text(&ids, id) {
                    let a = artist_from(id, attributes, relationships, artworks);
                    let ghost before = out@;
                    out.push(a);
                    assert(artist_views(out@) =~= artist_views(before).push(artist_view(a)));
                }
            },
            _ => {},
        }
        i = i + 1;
    }
    assert(included@.take(included@.len() as int) =~= included@);
    out
}

/// The albums an album search found, in the order of its first result's `albums`
/// relationship, each with its cover and the included artists it credits; the search
/// must have a result, and each related album must be included.
pub fn album_search_results(doc: &AlbumSearch) -> (r: Result<Vec<ResolvedTidalSearchedAlbum>, TidalError>)
    ensures
        doc.data@.len() == 0 ==> r == Err::<Vec<ResolvedTidalSearchedAlbum>, TidalError>(
            TidalError::UnexpectedResponse,
        ),
        doc.data@.len() > 0 ==> match hits_for(
            doc.data@[0].relationships.albums.data@,
            doc.included@,
            artworks_of(doc.included@),
        ) {
            Some(v) => r matches Ok(hits) && hits@.map_values(|h: ResolvedTidalSearchedAlbum| hit_view(h))
                == v,
            None => r == Err::<Vec<ResolvedTidalSearchedAlbum>, TidalError>(
                TidalError::UnexpectedResponse,
            ),
        },
{
    if doc.data.len() == 0 {
        return Err(TidalError::UnexpectedResponse);
    }
    let related = &doc.data[0].relationships.albums.data;
    let artworks = artwork_resources(doc.included.as_slice());
    let ghost all = artworks_of(doc.included@);
    let mut hits: Vec<ResolvedTidalSearchedAlbum> = Vec::new();
    let mut i: usize = 0;
    while i < related.len()
        invariant
            i <= related@.len(),
            doc.data@.len() > 0,
            related@ == doc.data@[0].relationships.albums.data@,
            deref_artworks(artworks@) == all,
            all == artworks_of(doc.included@),
            hits_for(related@.take(i as int), doc.included@, all) == Some(
                hits@.map_values(|h: ResolvedTidalSearchedAlbum| hit_view(h)),
            ),
        decreases related.len() - i,
    {
        assert(related@.take(i + 1).drop_last() =~= related@.take(i as int));
        let (attributes, relationships) = match find_album(doc.included.as_slice(), related[i].id.as_str()) {
            Some(found) => found,
            None => {
                proof {
                    lemma_hits_for_missing(related@, doc.included@, all, i as int);
                }
                return Err(TidalError::UnexpectedResponse);
            },
        };
        let cover_url = select_artwork_url(
            match &relationships.cover_art {
                Some(c) => Some(c),
                None => None,
            },
            artworks.as_slice(),
        );
        let artists = credited_among(doc.included.as_slice(), &relationships.artists.data, artworks.as_slice());
        let hit = ResolvedTidalSearchedAlbum {
            id: related[i].id.clone(),
            title: attributes.title.clone(),
            cover_url,
            release_date: clone_opt_string(&attributes.release_date),
            artists,
            album_type: attributes.album_type.clone(),
            explicit: attributes.explicit,
            media_tags: clone_tags(&attributes.media_tags),
        };
        let ghost before = hits@;
        hits.push(hit);
        assert(hits@.map_values(|h: ResolvedTidalSearchedAlbum| hit_view(h)) =~= before.map_values(
            |h: ResolvedTidalSearchedAlbum| hit_view(h),
        ).push(hit_view(hit)));
        i = i + 1;
    }
    assert(related@.take(related@.len() as int) =~= related@);
    Ok(hits)
}

proof fn lemma_hits_for_missing(
    related: Seq<AlbumSearchRelationshipsAlbumsData>,
    included: Seq<AlbumSearchIncluded>,
    artworks: Seq<ArtworkResource>,
    i: int,
)
    requires
        0 <= i < related.len(),
        album_with_id(included, related[i].id@) is None,
    ensures
        hits_for(related, included, artworks) is None,
    decreases related.len(),
{
    if i < related.len() - 1 {
        assert(related.drop_last()[i] == related[i]);
        lemma_hits_for_missing(related.drop_last(), included, artworks, i);
    }
}


/// How often a request is retried after a rate limit or a transport error.
pub const MAX_RETRIES: u32 = 3;

/// What sending a request gave: a response with its status and `Retry-After` header (when
/// readable as text), or a transport error.
#[derive(Debug, Clone, PartialEq, Eq)]
pub enum SendOutcome {
    Response { status: u16, retry_after: Option<String> },
    TransportError,
}

/// What to do after sending a request.
#[derive(Debug, Clone, Copy, PartialEq, Eq, Structural)]
pub enum RetryAction {
    /// Wait this many seconds, then send again.
    Wait(u64),
    /// Forget the token, then send again with a new one.
    Reauthenticate,
    /// Hand the response to the caller.
    Deliver,
    /// Give up with the transport error.
    Fail,
}

/// The retries spent on one request.
#[derive(Debug, Clone, Copy, PartialEq, Eq, Structural)]
pub struct RetryState {
    pub retries: u32,
    pub retried_auth: bool,
}

/// The wait before retry `retries + 1`: one second, doubling each time.
pub open spec fn backoff_secs(retries: u32) -> u64 {
    if retries == 0 {
        1
    } else if retries == 1 {
        2
    } else {
        4
    }
}

/// The wait a rate-limited response asks for: its `Retry-After` seconds when they parse,
/// else the backoff.
pub open spec fn rate_limit_wait(retry_after: Option<String>, retries: u32) -> u64 {
    match retry_after {
        Some(h) => match crate::discovery::parse_u64_spec(h@) {
            Ok(v) => v as u64,
            Err(_) => backoff_secs(retries),
        },
        None => backoff_secs(retries),
    }
}

/// What follows a send, and the retries spent after it: a rate limit (429) or a
/// transport error is retried up to `MAX_RETRIES` times, waiting as asked or backing off;
/// an unauthorized response (401) is retried once with a fresh token; anything else is
/// delivered, and a transport error past the retries fails.
pub open spec fn retry_step(s: RetryState, outcome: SendOutcome) -> (RetryState, RetryAction) {
    match outcome {
        SendOutcome::Response { status, retry_after } => if status == 429 && s.retries < MAX_RETRIES {
            (
                RetryState { retries: (s.retries + 1) as u32, ..s },
                RetryAction::Wait(rate_limit_wait(retry_after, s.retries)),
            )
        } else if status == 401 && !s.retried_auth {
            (RetryState { retried_auth: true, ..s }, RetryAction::Reauthenticate)
        } else {
            (s, RetryAction::Deliver)
        },
        SendOutcome::TransportError => if s.retries < MAX_RETRIES {
            (RetryState { retries: (s.retries + 1) as u32, ..s }, RetryAction::Wait(backoff_secs(s.retries)))
        } else {
            (s, RetryAction::Fail)
        },
    }
}

/// How many times a request is sent when the sends come out as `outcomes` in turn: sending
/// stops at the first delivery or failure.
pub open spec fn sends_until_done(s: RetryState, outcomes: Seq<SendOutcome>) -> nat
    decreases outcomes.len(),
{
    if outcomes.len() == 0 {
        0
    } else {
        let (next, action) = retry_step(s, outcomes[0]);
        if action is Wait || action is Reauthenticate {
            1 + sends_until_done(next, outcomes.drop_first())
        } else {
            1
        }
    }
}

/// The sends a retry state still allows after the current one.
pub open spec fn retries_left(s: RetryState) -> int {
    (MAX_RETRIES - s.retries) + (if s.retried_auth { 0int } else { 1int })
}

proof fn lemma_sends_bounded(s: RetryState, outcomes: Seq<SendOutcome>)
    requires
        s.retries <= MAX_RETRIES,
    ensures
        sends_until_done(s, outcomes) <= retries_left(s) + 1,
    decreases outcomes.len(),
{
    if outcomes.len() > 0 {
        let (next, action) = retry_step(s, outcomes[0]);
        if action is Wait || action is Reauthenticate {
            lemma_sends_bounded(next, outcomes.drop_first());
        }
    }
}

/// Every request ends: however the sends come out, a request is sent at most
/// `MAX_RETRIES + 2` times, its first send, the retries after rate limits and transport
/// errors, and one retry with a fresh token.
pub proof fn law_every_request_ends_within_its_retries(outcomes: Seq<SendOutcome>)
    ensures
        sends_until_done(RetryState { retries: 0, retried_auth: false }, outcomes) <= MAX_RETRIES + 2,
{
    lemma_sends_bounded(RetryState { retries: 0, retried_auth: false }, outcomes);
}

impl RetryState {
    pub fn new() -> (r: RetryState)
        ensures
            r == (RetryState { retries: 0, retried_auth: false }),
    {
        RetryState { retries: 0, retried_auth: false }
    }

    /// Decides what follows a send: a rate limit (429) or a transport error is retried
    /// up to `MAX_RETRIES` times, waiting as asked or backing off; an unauthorized
    /// response (401) is retried once with a fresh token; anything else is delivered.
    pub fn next_action(&mut self, outcome: &SendOutcome) -> (r: RetryAction)
        requires
            old(self).retries <= MAX_RETRIES,
        ensures
            final(self).retries <= MAX_RETRIES,
            *final(self) == retry_step(*old(self), *outcome).0,
            r == retry_step(*old(self), *outcome).1,
    {
        let backoff: u64 = if self.retries == 0 {
            1
        } else if self.retries == 1 {
            2
        } else {
            4
        };
        match outcome {
            SendOutcome::Response { status, retry_after } => {
                if *status == 429 && self.retries < MAX_RETRIES {
                    let wait = match retry_after {
                        Some(h) => match crate::discovery::parse_u64(h.as_str()) {
                            Ok(v) => v,
                            Err(_) => backoff,
                        },
                        None => backoff,
                    };
                    self.retries = self.retries + 1;
                    RetryAction::Wait(wait)
                } else if *status == 401 && !self.retried_auth {
                    self.retried_auth = true;
                    RetryAction::Reauthenticate
                } else {
                    RetryAction::Deliver
                }
            },
            SendOutcome::TransportError => {
                if self.retries < MAX_RETRIES {
                    self.retries = self.retries + 1;
                    RetryAction::Wait(backoff)
                } else {
                    RetryAction::Fail
                }
            },
        }
    }
}

/// The token Tidal granted and when it stops being used, in microseconds since the epoch.
#[derive(Debug, Clone, PartialEq, Eq)]
pub struct TidalAuth {
    pub token: Option<String>,
    pub expires_at: i64,
}

/// When a granted token stops being used: a minute before it expires.
pub open spec fn expiry_of(now: i64, expires_in: u64) -> int {
    now + (if expires_in >= 60 { expires_in - 60 } else { 0 }) * 1_000_000
}

impl TidalAuth {
    pub fn new() -> (r: TidalAuth)
        ensures
            r.token is None,
    {
        TidalAuth { token: None, expires_at: 0 }
    }

    /// The stored token, while it is still before its expiry at `now`.
    pub fn usable_token(&self, now: i64) -> (r: Option<String>)
        ensures
            opt_media_type(r) == if self.expires_at > now {
                opt_media_type(self.token)
            } else {
                None
            },
    {
        if self.expires_at > now {
            clone_opt_string(&self.token)
        } else {
            None
        }
    }

    /// Stores a granted token, to be used until a minute before it expires.
    pub fn store(&mut self, grant: &OauthToken, now: i64)
        requires
            i64::MIN <= expiry_of(now, grant.expires_in) <= i64::MAX,
        ensures
            opt_media_type(final(self).token) == Some(grant.access_token@),
            final(self).expires_at == expiry_of(now, grant.expires_in),
    {
        let secs: u64 = if grant.expires_in >= 60 {
            grant.expires_in - 60
        } else {
            0
        };
        let total: i128 = (now as i128) + (secs as i128) * 1_000_000;
        self.token = Some(grant.access_token.clone());
        self.expires_at = total as i64;
    }

    /// Forgets the token, so the next request asks for a new one.
    pub fn forget(&mut self)
        ensures
            final(self).token is None,
            final(self).expires_at == old(self).expires_at,
    {
        self.token = None;
    }
}


/// The file chosen from an artwork: the smallest usable square file at least 640 wide if
/// there is one, else the largest usable square file; either is one of the files.
pub proof fn law_artwork_prefers_the_smallest_large_square(files: Seq<ArtworkFile>)
    ensures
        ({
            let (largest, smallest_large) = square_choice(files);
            &&& largest is None <==> forall|i: int| 0 <= i < files.len() ==> usable_square(
                #[trigger] files[i],
            ) is None
            &&& largest matches Some((w, h)) ==> (exists|i: int|
                0 <= i < files.len() && usable_square(#[trigger] files[i]) == Some((w, h)))
                && forall|i: int|
                0 <= i < files.len() ==> (usable_square(#[trigger] files[i]) matches Some((v, _))
                    ==> v <= w)
            &&& smallest_large matches Some((w, h)) ==> w >= 640 && (exists|i: int|
                0 <= i < files.len() && usable_square(#[trigger] files[i]) == Some((w, h)))
                && forall|i: int|
                0 <= i < files.len() ==> (usable_square(#[trigger] files[i]) matches Some((v, _))
                    ==> (v >= 640 ==> v >= w))
            &&& smallest_large is None ==> forall|i: int|
                0 <= i < files.len() ==> (usable_square(#[trigger] files[i]) matches Some((v, _))
                    ==> v < 640)
        }),
    decreases files.len(),
{
    if files.len() > 0 {
        let prefix = files.drop_last();
        law_artwork_prefers_the_smallest_large_square(prefix);
        assert forall|i: int| 0 <= i < prefix.len() implies #[trigger] files[i] == prefix[i] by {}
        let last = files.len() - 1;
        let (l0, s0) = square_choice(prefix);
        let (l, sm) = square_choice(files);
        match usable_square(files[last]) {
            None => {
                assert forall|i: int| 0 <= i < files.len() && usable_square(#[trigger] files[i]) is Some
                    implies i < prefix.len() by {}
                if let Some((w, h)) = l {
                    let i = choose|i: int| 0 <= i < prefix.len() && usable_square(#[trigger] prefix[i]) == Some((w, h));
                    assert(usable_square(files[i]) == Some((w, h)));
                }
                if let Some((w, h)) = sm {
                    let i = choose|i: int| 0 <= i < prefix.len() && usable_square(#[trigger] prefix[i]) == Some((w, h));
                    assert(usable_square(files[i]) == Some((w, h)));
                }
            },
            Some((w, href)) => {
                assert(usable_square(files[last]) == Some((w, href)));
                if let Some((lw, lh)) = l {
                    if l != Some((w, href)) {
                        let i = choose|i: int| 0 <= i < prefix.len() && usable_square(#[trigger] prefix[i]) == Some((lw, lh));
                        assert(usable_square(files[i]) == Some((lw, lh)));
                    }
                }
                if let Some((sw, sh)) = sm {
                    if sm != Some((w, href)) {
                        let i = choose|i: int| 0 <= i < prefix.len() && usable_square(#[trigger] prefix[i]) == Some((sw, sh));
                        assert(usable_square(files[i]) == Some((sw, sh)));
                    }
                }
            },
        }
    }
}

/// Whether an included resource is an artist whose id is among `ids`.
pub open spec fn is_listed_artist(x: AlbumSearchIncluded, ids: Seq<Seq<char>>) -> bool {
    match x {
        AlbumSearchIncluded::Artist { id, .. } => ids.contains(id@),
        _ => false,
    }
}

/// A search hit credits every included artist that the album lists, and only those: each
/// included artist whose id is listed appears among the hit's artists, each of the hit's
/// artists is such an included artist, and there are as many as there are such artists.
pub proof fn law_hits_credit_every_listed_artist(
    included: Seq<AlbumSearchIncluded>,
    ids: Seq<Seq<char>>,
    artworks: Seq<ArtworkResource>,
)
    ensures
        forall|i: int|
            0 <= i < included.len() ==> match #[trigger] included[i] {
                AlbumSearchIncluded::Artist { id, attributes, relationships } => ids.contains(id@)
                    ==> artists_among(included, ids, artworks).contains(
                    included_artist_view(id, attributes, relationships, artworks),
                ),
                _ => true,
            },
        forall|k: int|
            0 <= k < artists_among(included, ids, artworks).len() ==> exists|i: int|
                0 <= i < included.len() && is_listed_artist(#[trigger] included[i], ids) && (
                match included[i] {
                    AlbumSearchIncluded::Artist { id, attributes, relationships } => included_artist_view(
                        id,
                        attributes,
                        relationships,
                        artworks,
                    ) == #[trigger] artists_among(included, ids, artworks)[k],
                    _ => false,
                }),
        artists_among(included, ids, artworks).len() == included.filter(
            |x: AlbumSearchIncluded| is_listed_artist(x, ids),
        ).len(),
    decreases included.len(),
{
    reveal(Seq::filter);
    if included.len() > 0 {
        let d = included.drop_last();
        law_hits_credit_every_listed_artist(d, ids, artworks);
        let rest = artists_among(d, ids, artworks);
        let all = artists_among(included, ids, artworks);
        let n = included.len() - 1;
        assert(included[n] == included.last());
        assert forall|i: int|
            0 <= i < included.len() implies match #[trigger] included[i] {
                AlbumSearchIncluded::Artist { id, attributes, relationships } => ids.contains(id@)
                    ==> all.contains(included_artist_view(id, attributes, relationships, artworks)),
                _ => true,
            } by {
            if i < n {
                assert(d[i] == included[i]);
                if let AlbumSearchIncluded::Artist { id, attributes, relationships } = included[i] {
                    if ids.contains(id@) {
                        let v = included_artist_view(id, attributes, relationships, artworks);
                        assert(rest.contains(v));
                        let k = choose|k: int| 0 <= k < rest.len() && rest[k] == v;
                        assert(all[k] == rest[k]);
                    }
                }
            } else {
                if let AlbumSearchIncluded::Artist { id, attributes, relationships } = included[i] {
                    if ids.contains(id@) {
                        assert(all[all.len() - 1] == included_artist_view(
                            id,
                            attributes,
                            relationships,
                            artworks,
                        ));
                    }
                }
            }
        }
        assert forall|k: int| 0 <= k < all.len() implies exists|i: int|
            0 <= i < included.len() && is_listed_artist(#[trigger] included[i], ids) && (
            match included[i] {
                AlbumSearchIncluded::Artist { id, attributes, relationships } => included_artist_view(
                    id,
                    attributes,
                    relationships,
                    artworks,
                ) == #[trigger] all[k],
                _ => false,
            }) by {
            if k < rest.len() {
                assert(all[k] == rest[k]);
                let i = choose|i: int|
                    0 <= i < d.len() && is_listed_artist(#[trigger] d[i], ids) && (match d[i] {
                        AlbumSearchIncluded::Artist { id, attributes, relationships } => included_artist_view(
                            id,
                            attributes,
                            relationships,
                            artworks,
                        ) == #[trigger] rest[k],
                        _ => false,
                    });
                assert(d[i] == included[i]);
            } else {
                assert(is_listed_artist(included[n], ids));
            }
        }
    }
}

} // verus!
