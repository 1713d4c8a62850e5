use platen::matching::{match_candidate, search_query, MatchOutcome, ResolvedTidalSearchedAlbum, TidalArtist, TidalError};
use platen::reconciliation::AlbumCandidate;
use platen::release_date::ReleaseDate;

fn credit(id: &str, name: &str) -> TidalArtist {
    TidalArtist { id: id.to_string(), name: name.to_string(), profile_image_url: None }
}

fn hit(id: &str, title: &str, date: Option<&str>) -> ResolvedTidalSearchedAlbum {
    ResolvedTidalSearchedAlbum {
        id: id.to_string(),
        title: title.to_string(),
        cover_url: None,
        release_date: date.map(|d| d.to_string()),
        artists: vec![credit("primary", "AC/DC"), credit("guest", "Guest")],
        album_type: "ALBUM".to_string(),
        explicit: None,
        media_tags: None,
    }
}

fn candidate(artist: &str, title: &str, year: Option<i32>) -> AlbumCandidate {
    AlbumCandidate {
        primary_artist: artist.to_string(),
        title: title.to_string(),
        release_year: year,
        relative_path: "Artist/Title".to_string(),
    }
}

fn outcome_name(outcome: &MatchOutcome) -> &'static str {
    match outcome {
        MatchOutcome::Unique(_) => "unique",
        MatchOutcome::Unmatched => "unmatched",
        MatchOutcome::Ambiguous(_) => "ambiguous",
        MatchOutcome::Failed => "failed",
    }
}

#[test]
fn matching_needs_the_conservative_identity_and_the_year() {
    for (artist, title, year, expected) in [
        (" ac - dc ", " a_b   (live) ", Some(2024), true),
        ("AC - DC", "A_B (Live)", None, true),
        ("AC/DC", "A:B (Live)", Some(2023), false),
        ("Guest", "A:B (Live)", None, false),
        ("ACDC", "A:B (Live)", None, false),
        ("AC/DC", "A:B", None, false),
        ("AC/DC", "A-B (Live)", None, false),
        ("AC/DC", "A:B (Deluxe)", None, false),
    ] {
        let result = match_candidate(
            &candidate(artist, title, year),
            Ok(vec![hit("one", "A:B (Live)", Some("2024-02-29"))]),
        );
        assert_eq!(matches!(result, MatchOutcome::Unique(_)), expected, "{artist} {title} {year:?}");
    }
}

#[test]
fn a_unique_match_is_the_accepted_hit() {
    let result = match_candidate(
        &candidate("AC/DC", "Title", Some(2024)),
        Ok(vec![hit("one", "Title", Some("2024-02")), hit("two", "Other", Some("2024"))]),
    );
    match result {
        MatchOutcome::Unique(prepared) => {
            assert_eq!(prepared.album().id, "one");
            assert_eq!(prepared.release_date, ReleaseDate { year: 2024, month: Some(2), day: None });
            assert_eq!(prepared.artists[0].name, "AC/DC");
        }
        other => panic!("{other:?}"),
    }
}

#[test]
fn search_dates_must_parse_and_match_the_year() {
    for (date, year, expected) in [
        (Some("2024"), Some(2024), "unique"),
        (Some("2024-02"), Some(2024), "unique"),
        (Some("2023"), Some(2024), "unmatched"),
        (Some("2024-02-30"), None, "failed"),
        (Some(""), None, "failed"),
        (None, None, "failed"),
    ] {
        let outcome = match_candidate(&candidate("AC/DC", "Title", year), Ok(vec![hit("one", "Title", date)]));
        assert_eq!(outcome_name(&outcome), expected, "{date:?} {year:?}");
    }
}

#[test]
fn uniqueness_needs_distinct_valid_hits() {
    let first = hit("one", "Title", Some("2024"));
    let later = hit("two", "Title", Some("2025"));
    let mut broken = hit("two", "Title", Some("2024"));
    broken.artists = vec![credit("primary", "AC/DC"), credit("", "Guest")];
    for (hits, year, expected) in [
        (vec![], None, "unmatched"),
        (vec![first.clone(), first.clone()], None, "unique"),
        (vec![first.clone(), later.clone()], None, "ambiguous"),
        (vec![first.clone(), later], Some(2024), "unique"),
        (vec![first.clone(), hit("two", "Title", Some("2024"))], Some(2024), "ambiguous"),
        (vec![first, broken], None, "failed"),
    ] {
        let outcome = match_candidate(&candidate("AC/DC", "Title", year), Ok(hits));
        assert_eq!(outcome_name(&outcome), expected);
        if let MatchOutcome::Ambiguous(ids) = outcome {
            assert_eq!(ids, vec!["one", "two"]);
        }
    }
}

#[test]
fn invalid_hits_and_failed_searches_do_not_match() {
    assert_eq!(
        match_candidate(&candidate("AC/DC", "Title", None), Err(TidalError::UnexpectedResponse)),
        MatchOutcome::Failed
    );
    for failure in [
        "empty_credits",
        "blank_id",
        "blank_title",
        "blank_primary_name",
        "blank_primary_id",
        "blank_guest_name",
        "blank_guest_id",
        "duplicate_artist_ids",
    ] {
        let mut album = hit("one", "Title", Some("2024"));
        match failure {
            "empty_credits" => album.artists.clear(),
            "blank_id" => album.id = " ".to_string(),
            "blank_title" => album.title = " ".to_string(),
            "blank_primary_name" => album.artists[0].name = " ".to_string(),
            "blank_primary_id" => album.artists[0].id = " ".to_string(),
            "blank_guest_name" => album.artists[1].name = " ".to_string(),
            "blank_guest_id" => album.artists[1].id = " ".to_string(),
            "duplicate_artist_ids" => album.artists[1].id = album.artists[0].id.clone(),
            _ => {}
        }
        let outcome = match_candidate(&candidate("AC/DC", "Title", None), Ok(vec![album]));
        assert_eq!(outcome, MatchOutcome::Failed, "{failure}");
    }
}

#[test]
fn the_search_names_artist_and_title() {
    assert_eq!(search_query(&candidate("AC/DC", "Back In Black", Some(1980))), "AC/DC Back In Black");
    assert_eq!(search_query(&candidate("", "", None)), " ");
}
