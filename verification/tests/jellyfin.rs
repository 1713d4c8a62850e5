use platen::import_run::Outcome;
use platen::jellyfin::{
    album_outcome, existing_mbid_outcome, decide_album_insert, decide_artist, decide_existing_mbid, eq_ignore_ascii_case,
    first_hit, new_album_release_date, next_start_index, read_page, server_url, items_path, authorization, BaseItemDto, QueryResult, primary_tidal_artist, AlbumDecision,
    AlbumRecord, ArtistDecision, ArtistRecord, ExistingMbidDecision, JellyfinAlbum, ARTIST_KEY,
    RELEASE_GROUP_KEY,
};
use platen::matching::{ResolvedTidalSearchedAlbum, TidalArtist};
use platen::release_date::ReleaseDate;

fn jf_album(id: &str) -> JellyfinAlbum {
    JellyfinAlbum {
        id: id.to_string(),
        name: "Some Album".to_string(),
        provider_ids: Vec::new(),
        production_year: None,
    }
}

fn tidal_artist(id: &str, name: &str) -> TidalArtist {
    TidalArtist {
        id: id.to_string(),
        name: name.to_string(),
        profile_image_url: None,
    }
}

fn tidal_hit(id: &str, ty: &str) -> ResolvedTidalSearchedAlbum {
    ResolvedTidalSearchedAlbum {
        id: id.to_string(),
        title: "Some Album".to_string(),
        cover_url: None,
        release_date: Some("2020-05-17".to_string()),
        artists: Vec::new(),
        album_type: ty.to_string(),
        explicit: Some(false),
        media_tags: None,
    }
}

fn album_model(
    id: &str,
    jellyfin_id: Option<&str>,
    musicbrainz_release_group_id: Option<&str>,
) -> AlbumRecord {
    AlbumRecord {
        id: id.to_string(),
        title: "Some Album".to_string(),
        album_type: None,
        jellyfin_id: jellyfin_id.map(str::to_string),
        musicbrainz_release_group_id: musicbrainz_release_group_id.map(str::to_string),
        match_method: None,
        release_year: 2020,
        release_month: Some(5),
        release_day: Some(17),
    }
}

fn artist_model(id: &str, name: &str, mb_artist_id: Option<&str>) -> ArtistRecord {
    ArtistRecord {
        id: id.to_string(),
        name: name.to_string(),
        musicbrainz_artist_id: mb_artist_id.map(str::to_string),
    }
}

#[test]
fn existing_mbid_none_proceeds() {
    assert_eq!(
        decide_existing_mbid(None, &jf_album("jf-1")),
        ExistingMbidDecision::Proceed,
    );
}

#[test]
fn existing_mbid_with_jellyfin_id_skips() {
    let existing = album_model("mbid-row", Some("old-jf"), Some("mbid-1"));
    assert_eq!(
        decide_existing_mbid(Some(existing), &jf_album("jf-1")),
        ExistingMbidDecision::Skip,
    );
}

#[test]
fn existing_mbid_without_jellyfin_id_links() {
    let existing = album_model("mbid-row", None, Some("mbid-1"));
    assert_eq!(
        decide_existing_mbid(Some(existing.clone()), &jf_album("jf-1")),
        ExistingMbidDecision::Link {
            existing,
            jellyfin_id: "jf-1".to_string()
        },
    );
}

#[test]
fn artist_none_inserts_with_mbid() {
    let ta = tidal_artist("ta-1", "The Artist");
    assert_eq!(
        decide_artist(None, &ta, Some("mb-artist-1")),
        ArtistDecision::Insert {
            id: "ta-1".to_string(),
            name: "The Artist".to_string(),
            mb_artist_id: Some("mb-artist-1".to_string()),
        },
    );
}

#[test]
fn artist_none_inserts_without_mbid() {
    let ta = tidal_artist("ta-1", "The Artist");
    assert_eq!(
        decide_artist(None, &ta, None),
        ArtistDecision::Insert {
            id: "ta-1".to_string(),
            name: "The Artist".to_string(),
            mb_artist_id: None,
        },
    );
}

#[test]
fn artist_existing_without_mbid_links_musicbrainz() {
    let existing = artist_model("ta-1", "The Artist", None);
    let ta = tidal_artist("ta-1", "The Artist");
    assert_eq!(
        decide_artist(Some(existing.clone()), &ta, Some("mb-artist-1")),
        ArtistDecision::LinkMusicBrainz {
            existing,
            mb_artist_id: "mb-artist-1".to_string()
        },
    );
}

#[test]
fn artist_existing_with_mbid_noops() {
    let existing = artist_model("ta-1", "The Artist", Some("mb-artist-1"));
    let ta = tidal_artist("ta-1", "The Artist");
    assert_eq!(
        decide_artist(Some(existing), &ta, Some("mb-artist-2")),
        ArtistDecision::Noop,
    );
}

#[test]
fn artist_existing_without_mbid_and_none_provided_noops() {
    let existing = artist_model("ta-1", "The Artist", None);
    let ta = tidal_artist("ta-1", "The Artist");
    assert_eq!(decide_artist(Some(existing), &ta, None), ArtistDecision::Noop);
}

#[test]
fn album_none_creates() {
    let hit = tidal_hit("tidal-1", "EP");
    let jf = jf_album("jf-1");
    assert_eq!(
        decide_album_insert(
            None,
            "Some Album",
            &hit,
            &jf,
            "mbid-1",
            Some(ReleaseDate {
                year: 2020,
                month: Some(5),
                day: Some(17),
            }),
        ),
        AlbumDecision::Create {
            id: "tidal-1".to_string(),
            title: "Some Album".to_string(),
            album_type: Some("EP".to_string()),
            jellyfin_id: "jf-1".to_string(),
            musicbrainz_release_group_id: "mbid-1".to_string(),
            release_date: ReleaseDate {
                year: 2020,
                month: Some(5),
                day: Some(17),
            },
        },
    );
}

#[test]
fn album_existing_without_ids_links_both() {
    let existing = album_model("tidal-1", None, None);
    let hit = tidal_hit("tidal-1", "ALBUM");
    let jf = jf_album("jf-1");
    assert_eq!(
        decide_album_insert(Some(existing.clone()), "Some Album", &hit, &jf, "mbid-1", None),
        AlbumDecision::LinkExisting {
            existing,
            jellyfin_id: Some("jf-1".to_string()),
            musicbrainz_release_group_id: Some("mbid-1".to_string()),
        },
    );
}

#[test]
fn album_existing_with_jellyfin_id_preserves_it() {
    let existing = album_model("tidal-1", Some("old-jf"), None);
    let hit = tidal_hit("tidal-1", "ALBUM");
    let jf = jf_album("jf-1");
    assert_eq!(
        decide_album_insert(Some(existing.clone()), "Some Album", &hit, &jf, "mbid-1", None),
        AlbumDecision::LinkExisting {
            existing,
            jellyfin_id: Some("old-jf".to_string()),
            musicbrainz_release_group_id: Some("mbid-1".to_string()),
        },
    );
}

#[test]
fn album_existing_with_mbid_preserves_it() {
    let existing = album_model("tidal-1", None, Some("old-mbid"));
    let hit = tidal_hit("tidal-1", "ALBUM");
    let jf = jf_album("jf-1");
    assert_eq!(
        decide_album_insert(Some(existing.clone()), "Some Album", &hit, &jf, "mbid-1", None),
        AlbumDecision::LinkExisting {
            existing,
            jellyfin_id: Some("jf-1".to_string()),
            musicbrainz_release_group_id: Some("old-mbid".to_string()),
        },
    );
}

#[test]
fn album_existing_with_both_ids_preserves_both() {
    let existing = album_model("tidal-1", Some("old-jf"), Some("old-mbid"));
    let hit = tidal_hit("tidal-1", "ALBUM");
    let jf = jf_album("jf-1");
    assert_eq!(
        decide_album_insert(Some(existing.clone()), "Some Album", &hit, &jf, "mbid-1", None),
        AlbumDecision::LinkExisting {
            existing,
            jellyfin_id: Some("old-jf".to_string()),
            musicbrainz_release_group_id: Some("old-mbid".to_string()),
        },
    );
}

#[test]
fn provider_ids_are_found_ignoring_ascii_case_first_match_wins() {
    let album = JellyfinAlbum {
        id: "jf-1".to_string(),
        name: "Some Album".to_string(),
        provider_ids: vec![
            ("Tvdb".to_string(), "x".to_string()),
            ("MusicBrainzReleaseGroup".to_string(), "rg-1".to_string()),
            ("musicbrainzreleasegroup".to_string(), "rg-2".to_string()),
            ("MusicBrainzArtist".to_string(), "artist-1".to_string()),
        ],
        production_year: Some(2020),
    };
    assert_eq!(album.provider_id(RELEASE_GROUP_KEY), Some("rg-1".to_string()));
    assert_eq!(album.provider_id(ARTIST_KEY), Some("artist-1".to_string()));
    assert_eq!(album.provider_id("musicbrainzalbum"), None);
    assert!(eq_ignore_ascii_case("ÄbC", "Äbc"));
    assert!(!eq_ignore_ascii_case("äbc", "Äbc"));
}

#[test]
fn listing_stops_when_the_reported_total_is_reached() {
    assert_eq!(next_start_index(0, 1000, Some(2500)), Some(1000));
    assert_eq!(next_start_index(2000, 500, Some(2500)), None);
    assert_eq!(next_start_index(0, 3, None), None);
    assert_eq!(next_start_index(0, 0, Some(10)), Some(0));
}

#[test]
fn resolution_steps_report_their_failures() {
    assert_eq!(first_hit(Vec::new()), Err("no tidal matches".to_string()));
    let hit = tidal_hit("tidal-1", "ALBUM");
    assert_eq!(first_hit(vec![hit.clone(), tidal_hit("tidal-2", "EP")]), Ok(hit));
    let artists: Vec<TidalArtist> = Vec::new();
    assert_eq!(
        primary_tidal_artist(&artists),
        Err("tidal album has no artists".to_string())
    );
    let artists = vec![tidal_artist("a", "A"), tidal_artist("b", "B")];
    assert_eq!(primary_tidal_artist(&artists), Ok(&artists[0]));
    assert_eq!(new_album_release_date(true, None), Ok(None));
    assert_eq!(
        new_album_release_date(false, None),
        Err("tidal album has no release date".to_string())
    );
    assert_eq!(
        new_album_release_date(false, Some("2020-05")),
        Ok(Some(ReleaseDate {
            year: 2020,
            month: Some(5),
            day: None
        }))
    );
    assert_eq!(
        new_album_release_date(false, Some("2021-02-29")),
        Err("invalid tidal release date: invalid date".to_string())
    );
}

#[test]
fn listing_pages_fill_missing_fields_and_say_where_to_go_on() {
    let page = QueryResult {
        items: vec![
            BaseItemDto {
                id: Some("a".to_string()),
                name: Some("First".to_string()),
                provider_ids: Some(vec![("MusicBrainzReleaseGroup".to_string(), "mb".to_string())]),
                production_year: Some(2001),
            },
            BaseItemDto { id: None, name: None, provider_ids: None, production_year: None },
        ],
        total_record_count: Some(5),
    };
    let (albums, next) = read_page(2, page);
    assert_eq!(next, Some(4));
    assert_eq!(albums.len(), 2);
    assert_eq!(albums[0].id, "a");
    assert_eq!(albums[0].provider_id(RELEASE_GROUP_KEY), Some("mb".to_string()));
    assert_eq!(
        albums[1],
        JellyfinAlbum { id: String::new(), name: String::new(), provider_ids: vec![], production_year: None }
    );
    let last = QueryResult { items: vec![], total_record_count: None };
    assert_eq!(read_page(7, last), (vec![], None));
}

#[test]
fn jellyfin_requests_use_the_trimmed_server_and_page_paths() {
    assert_eq!(server_url("http://media.local:8096///"), "http://media.local:8096");
    assert_eq!(server_url("http://media.local"), "http://media.local");
    assert_eq!(server_url("///"), "");
    assert_eq!(
        items_path("user", 2000),
        "/Items?userId=user&includeItemTypes=MusicAlbum&recursive=true&fields=ProviderIds,Genres&enableImages=false&enableUserData=false&enableTotalRecordCount=true&startIndex=2000&limit=1000"
    );
    assert_eq!(authorization("key"), "MediaBrowser Token=\"key\"");
}

#[test]
fn each_decision_counts_as_its_outcome() {
    let jf = jf_album("jf-1");
    let skipped = decide_existing_mbid(Some(album_model("row", Some("old-jf"), Some("mbid-1"))), &jf);
    assert_eq!(existing_mbid_outcome(&skipped), Some(Outcome::Skipped));
    let linked = decide_existing_mbid(Some(album_model("row", None, Some("mbid-1"))), &jf);
    assert_eq!(existing_mbid_outcome(&linked), Some(Outcome::Linked));
    assert_eq!(existing_mbid_outcome(&decide_existing_mbid(None, &jf)), None);

    let hit = tidal_hit("tidal-1", "ALBUM");
    let date = ReleaseDate { year: 2020, month: None, day: None };
    let created = decide_album_insert(None, "Some Album", &hit, &jf, "mbid-1", Some(date));
    assert_eq!(album_outcome(&created), Outcome::Created);
    let existing = album_model("tidal-1", None, None);
    let relinked = decide_album_insert(Some(existing), "Some Album", &hit, &jf, "mbid-1", None);
    assert_eq!(album_outcome(&relinked), Outcome::Linked);
}
