use platen::discovery::{
    candidate_rank, deduplicate_discovery_albums, discovery_rank, exclude_catalog_albums,
    parse_u64, select_candidates, select_discovery_albums, AlbumIdentity, IntErrorKind,
};
use platen::matching::TidalAlbum;
use platen::monitoring::{
    discoveries, is_due, latest_due_attempt, matching_catalog_album, new_identities,
    needs_download, CatalogEntry,
};

fn album(id: &str, title: &str, ty: &str, explicit: Option<bool>, tags: &[&str]) -> TidalAlbum {
    TidalAlbum {
        id: id.to_string(),
        title: title.to_string(),
        cover_url: None,
        release_date: None,
        album_type: ty.to_string(),
        explicit,
        media_tags: if tags.is_empty() {
            None
        } else {
            Some(tags.iter().map(|t| t.to_string()).collect())
        },
    }
}

#[test]
fn numbers_parse_as_str_parse_does() {
    assert_eq!(parse_u64("42"), Ok(42));
    assert_eq!(parse_u64("+7"), Ok(7));
    assert_eq!(parse_u64(""), Err(IntErrorKind::Empty));
    assert_eq!(parse_u64("+"), Err(IntErrorKind::InvalidDigit));
    assert_eq!(parse_u64("-1"), Err(IntErrorKind::InvalidDigit));
    assert_eq!(parse_u64("12a"), Err(IntErrorKind::InvalidDigit));
    assert_eq!(parse_u64("18446744073709551615"), Ok(u64::MAX));
    assert_eq!(parse_u64("18446744073709551616"), Err(IntErrorKind::PosOverflow));
    for text in ["0", "+0", "007", "", "+", "-5", "1_000", "99999999999999999999x"] {
        let expected = text.parse::<u64>().map_err(|_| ());
        assert_eq!(parse_u64(text).map_err(|_| ()), expected, "{text}");
    }
}

#[test]
fn ranks_prefer_explicit_then_quality_then_id() {
    assert_eq!(candidate_rank(&album("10", "A", "ALBUM", Some(true), &["LOSSLESS", "HIRES_LOSSLESS"])).unwrap(), (2, 3, 10));
    assert_eq!(candidate_rank(&album("11", "A", "ALBUM", None, &["DOLBY_ATMOS"])).unwrap(), (1, 1, 11));
    assert_eq!(candidate_rank(&album("12", "A", "ALBUM", Some(false), &[])).unwrap(), (0, 0, 12));
    let error = candidate_rank(&album("x1", "A", "ALBUM", None, &[])).unwrap_err();
    assert_eq!(error.album_id, "x1");
    assert_eq!(error.message(), "Invalid numeric Tidal album ID x1: invalid digit found in string");
    assert_eq!(discovery_rank(&album("x1", "A", "ALBUM", None, &[])), Err(502));
}

#[test]
fn editions_of_one_release_keep_the_best_ranked() {
    let albums = vec![
        album("1", "Title", "ALBUM", Some(false), &["LOSSLESS"]),
        album("2", "  title  ", "ALBUM", Some(true), &[]),
        album("3", "Title", "EP", None, &[]),
        album("4", "TITLE", "ALBUM", Some(true), &["LOSSLESS"]),
        album("5", "Title", "ALBUM", Some(true), &[]),
    ];
    let kept = deduplicate_discovery_albums(albums).unwrap();
    let ids: Vec<_> = kept.iter().map(|a| a.id.as_str()).collect();
    assert_eq!(ids, ["4", "3"]);

    let albums = vec![
        album("1", "Two  Words", "ALBUM", None, &[]),
        album("2", "two words", "ALBUM", None, &[]),
        album("3", "Two Words ", "ALBUM", None, &[]),
    ];
    let kept = select_candidates(albums).unwrap();
    let ids: Vec<_> = kept.iter().map(|a| a.id.as_str()).collect();
    assert_eq!(ids, ["3"]);
    assert_eq!(
        select_candidates(vec![album("1", "A", "ALBUM", None, &[]), album("bad", "B", "ALBUM", None, &[])])
            .unwrap_err()
            .album_id,
        "bad"
    );
}

#[test]
fn discovery_skips_titles_the_catalog_holds_and_albums_it_stores() {
    let albums = vec![
        album("1", "Owned ", "ALBUM", None, &[]),
        album("2", "New", "ALBUM", None, &[]),
    ];
    let kept = select_discovery_albums(&[" owned".to_string()], albums).unwrap();
    assert_eq!(kept.len(), 1);
    assert_eq!(kept[0].id, "2");
    let albums = vec![album("1", "A", "ALBUM", None, &[]), album("2", "B", "ALBUM", None, &[])];
    let kept = exclude_catalog_albums(albums, &["1".to_string()]);
    assert_eq!(kept.len(), 1);
    assert_eq!(kept[0].id, "2");
}

#[test]
fn identities_collapse_whitespace_and_case() {
    let identity = AlbumIdentity::new("  Two \t Words  ", "ALBUM");
    assert_eq!(identity.normalized_title, "two words");
    assert_eq!(identity.release_type, "ALBUM");
}

#[test]
fn monitoring_hands_off_only_new_releases_of_monitored_artists() {
    let known = vec![AlbumIdentity::new("Old", "ALBUM")];
    let albums = vec![
        album("1", "Old", "ALBUM", None, &[]),
        album("2", "New", "ALBUM", Some(false), &[]),
        album("3", "new", "ALBUM", Some(true), &[]),
        album("4", "New", "EP", None, &[]),
    ];
    let fresh = new_identities(&known, &albums);
    assert_eq!(fresh.len(), 2);
    assert_eq!(fresh[0], AlbumIdentity::new("new", "ALBUM"));
    assert_eq!(fresh[1], AlbumIdentity::new("new", "EP"));
    assert!(discoveries(&known, albums.clone(), true, true).unwrap().is_empty());
    assert!(discoveries(&known, albums.clone(), false, false).unwrap().is_empty());
    let handed: Vec<_> = discoveries(&known, albums, false, true)
        .unwrap()
        .into_iter()
        .map(|a| a.id)
        .collect();
    assert_eq!(handed, ["3", "4"]);
}

#[test]
fn artists_are_due_six_hours_after_their_last_attempt() {
    let hour = 3_600_000_000i64;
    let latest = latest_due_attempt(10 * hour).unwrap();
    assert_eq!(latest, 4 * hour);
    assert!(is_due(None, latest));
    assert!(is_due(Some(4 * hour), latest));
    assert!(!is_due(Some(4 * hour + 1), latest));
    assert_eq!(
        latest_due_attempt(i64::MIN),
        Err("Artist check time exceeds the supported range".to_string())
    );
}

#[test]
fn the_preferred_stored_edition_needs_no_new_download() {
    let candidate = album("9", "Title", "ALBUM", None, &[]);
    let entry = |id: &str, title: &str, ty: Option<&str>, path: Option<&str>| CatalogEntry {
        id: id.to_string(),
        title: title.to_string(),
        album_type: ty.map(str::to_string),
        relative_path: path.map(str::to_string),
    };
    let entries = vec![
        entry("1", "Title", Some("ALBUM"), None),
        entry("2", "title", Some("ALBUM"), None),
        entry("3", "Title", None, Some("A/T")),
        entry("9", "Other", None, None),
    ];
    assert_eq!(matching_catalog_album(&entries, &[], &candidate), Some(3));
    assert_eq!(matching_catalog_album(&entries, &["1".to_string()], &candidate), Some(0));
    assert_eq!(matching_catalog_album(&entries[..2], &[], &candidate), Some(1));
    assert_eq!(matching_catalog_album(&entries[2..3], &[], &candidate), None);
    assert!(needs_download(&None, true));
    assert!(!needs_download(&None, false));
    assert!(!needs_download(&Some("A/T".to_string()), true));
}
