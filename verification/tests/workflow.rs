use platen::album_admin::{
    create_error_status, deletion_database_error, files_to_delete, orphaned_artists,
    primary_artist_matches, AlbumDeletionRequest, ReleaseDateRefreshSummary,
};
use platen::artwork::ArtworkRefreshCounts;
use platen::config::check_tidal_country_code;
use platen::matching::{PrepareAlbumError, PreparedAlbum, TidalAlbum, TidalArtist, TidalError};
use platen::musicbrainz::{
    album_search_query, artist_fetch_error_status, artist_search_url, release_group_url, release_groups_url,
    retry_musicbrainz, ArtistCredit, ArtistCreditArtist, CreditedReleaseGroup,
};
use platen::reconciliation::{
    AlbumCandidate, DuplicateLocations, ImportOutcome, LocationOutcome, LocationUpdate,
    ReconciliationPlan,
};
use platen::release_date::ReleaseDate;
use platen::repository::{attach_result, catalog_album, import_outcome, location_update_result, AlbumRow, CreditRow};
use platen::scan_dto::{CatalogScan, CatalogScanPhase};
use platen::scanner::{album_candidate, classify_entry, root_failure, EntryOutcome, EntryType, ScannedEntryKind, Scanner};
use platen::workflow::{
    group_matches, is_contested, CandidateMatch, DiscoveryReport, MatchGroup, Progress, ScanPhase,
};
use platen::matching::MatchOutcome;

fn candidate(path: &str) -> AlbumCandidate {
    AlbumCandidate {
        primary_artist: "Artist".to_string(),
        title: "Title".to_string(),
        release_year: None,
        relative_path: path.to_string(),
    }
}

fn prepared(id: &str) -> PreparedAlbum {
    PreparedAlbum {
        album: TidalAlbum {
            id: id.to_string(),
            title: "Title".to_string(),
            cover_url: None,
            release_date: Some("2024".to_string()),
            album_type: "ALBUM".to_string(),
            explicit: None,
            media_tags: None,
        },
        artists: vec![TidalArtist {
            id: "a".to_string(),
            name: "Artist".to_string(),
            profile_image_url: None,
        }],
        release_date: ReleaseDate { year: 2024, month: None, day: None },
    }
}

fn empty_plan() -> ReconciliationPlan {
    ReconciliationPlan {
        locations: Vec::new(),
        unchanged_locations: 0,
        unknown_candidates: Vec::new(),
        ambiguous_candidates: Vec::new(),
        duplicate_paths_by_album_id: Vec::new(),
    }
}

#[test]
fn a_duplicate_location_is_counted_once() {
    let mut progress = Progress::new();
    assert!(progress.duplicate("Artist/Title"));
    assert!(!progress.duplicate("Artist/Title"));
    assert!(progress.duplicate("Artist/Other"));
    let snapshot = progress.publish();
    assert_eq!(snapshot.summary.duplicate_locations, 2);
    assert_eq!(snapshot.summary.skipped_directories, 2);
}

#[test]
fn the_plan_is_counted_before_matching() {
    let mut progress = Progress::new();
    let mut plan = empty_plan();
    plan.unchanged_locations = 2;
    plan.unknown_candidates = vec![candidate("A/1")];
    plan.ambiguous_candidates = vec![candidate("A/2")];
    plan.duplicate_paths_by_album_id = vec![DuplicateLocations {
        album_id: "x".to_string(),
        paths: vec!["A/3".to_string(), "A/4".to_string()],
    }];
    progress.record_plan(5, &plan);
    let s = progress.snapshot.summary;
    assert_eq!(s.candidates_processed, 4);
    assert_eq!(s.unchanged_locations, 2);
    assert_eq!(s.ambiguous_matches, 1);
    assert_eq!(s.duplicate_locations, 2);
    assert_eq!(s.skipped_directories, 3);
    progress.record_match(&MatchOutcome::Unmatched);
    progress.record_match(&MatchOutcome::Failed);
    let s = progress.snapshot.summary;
    assert_eq!((s.candidates_processed, s.unmatched_candidates, s.failures, s.skipped_directories), (6, 1, 1, 5));
    assert!(!progress.after_reconciliation(true, true));
    assert_eq!(progress.snapshot.phase, ScanPhase::Failed);
    assert_eq!(progress.snapshot.failure_reason.as_deref(), Some("Could not scan the Music directory."));
    let scan = CatalogScan::from(progress.publish());
    assert_eq!(scan.phase, CatalogScanPhase::Failed);
    assert_eq!(scan.summary.failures, 2);
}

#[test]
fn matches_are_grouped_by_album_in_id_order() {
    let matches = vec![
        CandidateMatch { candidate: candidate("A/b1"), prepared: prepared("b") },
        CandidateMatch { candidate: candidate("A/a1"), prepared: prepared("a") },
        CandidateMatch { candidate: candidate("A/b2"), prepared: prepared("b") },
    ];
    let groups = group_matches(matches);
    assert_eq!(groups.len(), 2);
    assert_eq!(groups[0].album_id, "a");
    assert_eq!(groups[1].album_id, "b");
    let paths: Vec<_> = groups[1].matches.iter().map(|m| m.candidate.relative_path.as_str()).collect();
    assert_eq!(paths, ["A/b1", "A/b2"]);
    let plan = empty_plan();
    assert!(!is_contested(&groups[0], &plan));
    assert!(is_contested(&groups[1], &plan));

    let mut progress = Progress::new();
    let observed = vec![candidate("Old/Path"), candidate("A/b1"), candidate("A/b2")];
    progress.record_contested(&groups[1], &Some("Old/Path".to_string()), &observed);
    assert_eq!(progress.snapshot.summary.duplicate_locations, 3);
    progress.record_import(
        &ImportOutcome::Duplicate { stored_path: Some("Elsewhere/Path".to_string()) },
        "A/a1",
        &observed,
    );
    assert_eq!(progress.snapshot.summary.duplicate_locations, 4);
    progress.record_import(&ImportOutcome::Imported, "A/x", &observed);
    progress.record_import(&ImportOutcome::Location(LocationOutcome::Attached), "A/y", &observed);
    assert_eq!(progress.snapshot.summary.albums_imported, 1);
    assert_eq!(progress.snapshot.summary.locations_attached, 1);
    let lonely = MatchGroup { album_id: "z".to_string(), matches: Vec::new() };
    progress.record_lookup_failure(&lonely);
    assert_eq!(progress.snapshot.summary.failures, 0);
}

#[test]
fn absolute_paths_join_the_resolved_root() {
    let report = DiscoveryReport {
        resolved_root: Some("/music".to_string()),
        ..Default::default()
    };
    assert_eq!(report.absolute_path("Artist/Title"), "/music/Artist/Title");
    assert_eq!(report.absolute_path("/elsewhere"), "/elsewhere");
    assert_eq!(DiscoveryReport::default().absolute_path("a"), "a");
}

#[test]
fn entries_are_classified_without_following_links() {
    let dir = EntryType { is_symlink: false, is_dir: true, is_file: false };
    let link = EntryType { is_symlink: true, is_dir: false, is_file: false };
    assert_eq!(classify_entry(None, None), EntryOutcome::Error("read_entry_type"));
    assert_eq!(classify_entry(Some(link), Some("x".to_string())), EntryOutcome::Skipped("symbolic_link"));
    assert_eq!(classify_entry(Some(dir), None), EntryOutcome::Skipped("non_utf8_directory"));
    assert_eq!(
        classify_entry(Some(dir), Some("x".to_string())),
        EntryOutcome::Kind(ScannedEntryKind::Directory("x".to_string()))
    );
    let candidate = album_candidate("Artist", "Title (Live) (2024)").unwrap();
    assert_eq!(candidate.title, "Title (Live)");
    assert_eq!(candidate.release_year, Some(2024));
    assert_eq!(candidate.relative_path, "Artist/Title (Live) (2024)");
    assert!(album_candidate("Artist", "  ").is_none());
    let mut scanner = Scanner::new();
    scanner.record_skipped();
    let report = scanner.finish("/music".to_string(), Some(vec![candidate_at("b"), candidate_at("a")]));
    assert_eq!(report.candidates[0].relative_path, "a");
    assert_eq!(report.skipped_directories, 1);
    assert!(!report.root_failed);
    let failed = root_failure("missing".to_string(), "not found".to_string());
    assert!(failed.root_failed);
    assert_eq!(failed.diagnostics[0].reason, "resolve_music_root");
}

fn candidate_at(path: &str) -> AlbumCandidate {
    candidate(path)
}

#[test]
fn repository_outcomes_follow_the_stored_location() {
    assert_eq!(import_outcome(true, &None, "A/B"), Some(ImportOutcome::Imported));
    assert_eq!(
        import_outcome(false, &Some("A/B".to_string()), "A/B"),
        Some(ImportOutcome::Location(LocationOutcome::Unchanged))
    );
    assert_eq!(
        import_outcome(false, &Some("C/D".to_string()), "A/B"),
        Some(ImportOutcome::Duplicate { stored_path: Some("C/D".to_string()) })
    );
    assert_eq!(import_outcome(false, &None, "A/B"), None);
    assert_eq!(attach_result("x", 1), Ok(ImportOutcome::Location(LocationOutcome::Attached)));
    assert_eq!(attach_result("x", 0), Err("Album x changed during import".to_string()));
    let update = LocationUpdate {
        album_id: "x".to_string(),
        previous_path: Some("Old".to_string()),
        relative_path: Some("New".to_string()),
    };
    assert_eq!(location_update_result(&update, false, 1), Ok(LocationOutcome::Changed));
    assert_eq!(
        location_update_result(&update, true, 1),
        Err("Album location New is occupied".to_string())
    );
    assert_eq!(
        location_update_result(&update, false, 0),
        Err("Album x was deleted or its location changed during the scan".to_string())
    );
    let album = catalog_album(
        AlbumRow { id: "x".to_string(), title: "T".to_string(), release_year: 2024, relative_path: None },
        &[
            CreditRow { album_id: "y".to_string(), artist_name: "Other".to_string() },
            CreditRow { album_id: "x".to_string(), artist_name: "Primary".to_string() },
            CreditRow { album_id: "x".to_string(), artist_name: "Guest".to_string() },
        ],
    );
    assert_eq!(album.primary_artist.as_deref(), Some("Primary"));
}

#[test]
fn musicbrainz_requests_and_answers() {
    let group = CreditedReleaseGroup {
        id: "rg".to_string(),
        primary_type: "Album".to_string(),
        title: "Duality".to_string(),
        first_release_date: None,
        artist_credit: Some(vec![ArtistCredit {
            name: "BLCKK".to_string(),
            artist: ArtistCreditArtist { id: "a".to_string(), name: "BLCKK".to_string() },
        }]),
    };
    assert_eq!(album_search_query(&group), Ok("BLCKK Duality".to_string()));
    let uncredited = CreditedReleaseGroup { artist_credit: None, ..group };
    assert_eq!(
        album_search_query(&uncredited),
        Err("release group has no artist credit".to_string())
    );
    assert_eq!(
        artist_search_url("AC/DC ü"),
        "https://musicbrainz.org/ws/2/artist?query=AC%2FDC%20%C3%BC&fmt=json"
    );
    assert_eq!(
        release_groups_url("abc", 2),
        "https://musicbrainz.org/ws/2/release-group/?artist=abc&limit=100&offset=200&fmt=json"
    );
    assert!(retry_musicbrainz(503));
    assert!(!retry_musicbrainz(500));
    assert_eq!(artist_fetch_error_status(Some(404)), 404);
    assert_eq!(artist_fetch_error_status(Some(400)), 500);
    assert_eq!(artist_fetch_error_status(None), 500);
}

#[test]
fn administration_answers() {
    assert_eq!(create_error_status(&PrepareAlbumError::InvalidCredits), 422);
    assert_eq!(create_error_status(&PrepareAlbumError::Tidal(TidalError::UnexpectedResponse)), 500);
    assert!(primary_artist_matches(&["a".to_string(), "b".to_string()], "a"));
    assert!(!primary_artist_matches(&["a".to_string(), "b".to_string()], "b"));
    assert!(!primary_artist_matches(&[], "a"));
    assert_eq!(
        deletion_database_error(true).1,
        "Album files were removed, but catalog deletion failed. The album remains in the catalog."
    );
    assert_eq!(
        files_to_delete(AlbumDeletionRequest { delete_files: true }, None).unwrap_err().0,
        422
    );
    assert_eq!(
        files_to_delete(AlbumDeletionRequest { delete_files: false }, Some("A/B".to_string())),
        Ok(None)
    );
    assert_eq!(
        orphaned_artists(vec![("a".to_string(), false), ("b".to_string(), true), ("c".to_string(), false)]),
        vec!["a".to_string(), "c".to_string()]
    );
    let mut summary = ReleaseDateRefreshSummary::new();
    assert_eq!(summary.date_to_store(Ok(Some("2024-02-30".to_string()))), None);
    assert_eq!(
        summary.date_to_store(Ok(Some("2024-02".to_string()))),
        Some(ReleaseDate { year: 2024, month: Some(2), day: None })
    );
    summary.record_store(true);
    assert_eq!(summary, ReleaseDateRefreshSummary { updated: 1, skipped: 1 });
    let mut counts = ArtworkRefreshCounts::new();
    assert_eq!(counts.artwork_to_store(Ok(Some("http://x.example/a".to_string()))), None);
    assert_eq!(
        counts.artwork_to_store(Ok(Some("https://x.example/a".to_string()))),
        Some("https://x.example/a".to_string())
    );
    counts.record_store(Ok(0));
    counts.record_store(Err(()));
    assert_eq!(
        counts,
        ArtworkRefreshCounts { updated: 0, already_present: 1, unavailable: 1, failed: 1 }
    );
    assert_eq!(check_tidal_country_code("NL".to_string()), Ok("NL".to_string()));
    assert!(check_tidal_country_code("nl".to_string()).is_err());
    assert!(check_tidal_country_code("NLD".to_string()).is_err());
}

#[test]
fn release_group_urls_ask_for_artist_credits() {
    assert_eq!(
        release_group_url("rg-1"),
        "https://musicbrainz.org/ws/2/release-group/rg-1?inc=artist-credits&fmt=json"
    );
}
