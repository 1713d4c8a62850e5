use platen::filesystem::{album_location, filesystem_safe_component, is_removable_location, STAGING_DIRECTORY};
use platen::reconciliation::{
    decide_location, identity, normalized_matching_component, reconcile, AlbumCandidate, CatalogAlbum,
    DuplicateLocations, LocationDecision, LocationUpdate,
};
use platen::scan::{is_audio_file, parse_album_directory_name};
use platen::workflow::{DiscoveryReport, FilesystemDiagnostic, ScanPhase, ScanSummary};

fn candidate(path: &str, artist: &str, title: &str, year: Option<i32>) -> AlbumCandidate {
    AlbumCandidate {
        primary_artist: artist.to_string(),
        title: title.to_string(),
        release_year: year,
        relative_path: path.to_string(),
    }
}

#[test]
fn discovery_summary_includes_root_failure_diagnostics() {
    let report = DiscoveryReport {
        diagnostics: vec![FilesystemDiagnostic {
            reason: "resolve_music_root".to_string(),
            path: "missing".into(),
            os_error: std::io::Error::from(std::io::ErrorKind::NotFound).to_string(),
        }],
        root_failed: true,
        ..Default::default()
    };
    assert_eq!(
        ScanSummary::from(&report),
        ScanSummary {
            filesystem_errors: 1,
            ..Default::default()
        }
    );
}

#[test]
fn location_decisions_require_a_unique_candidate_unless_the_old_path_is_observed() {
    let first = candidate("Artist/Title", "Artist", "Title", None);
    let second = candidate("Artist/Title (2024)", "Artist", "Title", Some(2024));
    let candidates = [first, second];
    for (old_path, observed, expected) in [
        (
            None,
            false,
            [
                LocationDecision::NoLocation,
                LocationDecision::Attach("Artist/Title".to_string()),
                LocationDecision::NoLocation,
            ],
        ),
        (
            Some("Old/Title"),
            false,
            [
                LocationDecision::Clear,
                LocationDecision::Change("Artist/Title".to_string()),
                LocationDecision::Clear,
            ],
        ),
        (
            Some("Old/Title"),
            true,
            [
                LocationDecision::Keep("Old/Title".to_string()),
                LocationDecision::Keep("Old/Title".to_string()),
                LocationDecision::Keep("Old/Title".to_string()),
            ],
        ),
    ] {
        for (candidate_count, expected) in expected.into_iter().enumerate() {
            assert_eq!(
                decide_location(old_path, observed, &candidates[..candidate_count]),
                expected,
                "old_path={old_path:?}, observed={observed}, candidates={candidate_count}"
            );
        }
    }
}

#[test]
fn scan_phases_are_active_while_scanning_or_matching() {
    assert!(ScanPhase::Scanning.is_active());
    assert!(ScanPhase::Matching.is_active());
    assert!(!ScanPhase::Completed.is_active());
    assert!(!ScanPhase::Failed.is_active());
}

#[test]
fn album_directory_names_parse_only_the_final_year() {
    assert_eq!(
        parse_album_directory_name("  Title (Live) (2024)  "),
        Some(("Title (Live)".to_string(), Some(2024)))
    );
    assert_eq!(parse_album_directory_name("Title"), Some(("Title".to_string(), None)));
    assert_eq!(parse_album_directory_name("Title (24)"), Some(("Title (24)".to_string(), None)));
    assert_eq!(parse_album_directory_name("(2024)"), Some(("(2024)".to_string(), None)));
    assert_eq!(parse_album_directory_name("   "), None);
}

#[test]
fn audio_extensions_are_recognised_case_insensitively() {
    for name in ["a.flac", "a.MP3", "a.M4a", "a.aac", "a.OGG", "a.opus", "a.WAV", "a.aiff", "a.AIF", "a.alac"] {
        assert!(is_audio_file(name), "{name}");
    }
    assert!(!is_audio_file("cover.jpg"));
    assert!(!is_audio_file("flac"));
    assert!(!is_audio_file(".flac"));
}

#[test]
fn album_locations_are_safe_two_component_paths() {
    assert_eq!(album_location("AC/DC", "Back: In Black?", 1980), "AC - DC/Back_ In Black_ (1980)");
    assert_eq!(album_location("  ", "...", 2024), "Unknown artist/Unknown album (2024)");
    assert_eq!(filesystem_safe_component("Name. ", "Fallback"), "Name");
    assert!(is_removable_location("Artist/Album (2024)"));
    assert!(!is_removable_location("Artist"));
    assert!(!is_removable_location("Artist/.."));
    assert!(!is_removable_location(&format!("{STAGING_DIRECTORY}/job")));
    assert!(!is_removable_location("Artist/a:b"));
}

#[test]
fn placed_album_locations_are_removable() {
    for (artist, title, year) in [
        ("AC/DC", "Back: In Black?", 1980),
        ("  ", "...", 2024),
        ("..", ".", 1999),
        ("a\\b", "x\0y", -5),
    ] {
        let location = album_location(artist, title, year);
        assert!(is_removable_location(&location), "{location}");
    }
    assert!(!is_removable_location(&album_location(STAGING_DIRECTORY, "Album", 2024)));
}

#[test]
fn placed_album_directories_read_back_title_and_year() {
    for (title, year, expected) in [
        ("Back: In Black?", 1980, "Back_ In Black_"),
        ("Live (2001)", 2005, "Live (2001)"),
        ("  ...  ", 1000, "Unknown album"),
        ("Nbsp\u{a0}.", 9999, "Nbsp"),
    ] {
        let location = album_location("Artist", title, year);
        let directory = location.rsplit_once('/').unwrap().1;
        assert_eq!(
            parse_album_directory_name(directory),
            Some((expected.to_string(), Some(year))),
            "{location}"
        );
    }
}

#[test]
fn matching_identity_is_conservative() {
    assert_eq!(normalized_matching_component("  ", "fallback"), "fallback");
    let (artist, title) = identity(" ac - dc ", " a_b   (live) ");
    let (artist2, title2) = identity("AC - DC", "A_B (Live)");
    assert_eq!((artist, title), (artist2, title2));
}

#[test]
fn reconciliation_attaches_unique_matches_and_reports_the_rest() {
    let candidates = vec![
        candidate("Artist/Title (2024)", "Artist", "Title", Some(2024)),
        candidate("Other/Unknown", "Other", "Unknown", None),
    ];
    let albums = vec![CatalogAlbum {
        id: "album".to_string(),
        primary_artist: Some("Artist".to_string()),
        title: "Title".to_string(),
        release_year: 2024,
        relative_path: None,
    }];
    let plan = reconcile(&candidates, &albums);
    assert_eq!(
        plan.locations,
        vec![LocationUpdate {
            album_id: "album".to_string(),
            previous_path: None,
            relative_path: Some("Artist/Title (2024)".to_string()),
        }]
    );
    assert_eq!(plan.unchanged_locations, 0);
    assert_eq!(plan.unknown_candidates.len(), 1);
    assert_eq!(plan.unknown_candidates[0].relative_path, "Other/Unknown");
    assert!(plan.ambiguous_candidates.is_empty());
    assert_eq!(plan.duplicate_paths_by_album_id, Vec::<DuplicateLocations>::new());
}

#[test]
fn directories_claimed_by_a_stored_location_or_identity_are_not_searched() {
    let candidates = vec![
        candidate("Renamed/Anything", "Renamed", "Anything", None),
        candidate("Artist/Title", "ARTIST", "title", None),
        candidate("Nobody/Nothing (1999)", "Nobody", "Nothing", Some(1999)),
    ];
    let albums = vec![
        CatalogAlbum {
            id: "stored".to_string(),
            primary_artist: Some("Someone".to_string()),
            title: "Else".to_string(),
            release_year: 2001,
            relative_path: Some("Renamed/Anything".to_string()),
        },
        CatalogAlbum {
            id: "identity".to_string(),
            primary_artist: Some("Artist".to_string()),
            title: "Title".to_string(),
            release_year: 2010,
            relative_path: None,
        },
        CatalogAlbum {
            id: "other-year".to_string(),
            primary_artist: Some("Nobody".to_string()),
            title: "Nothing".to_string(),
            release_year: 2000,
            relative_path: None,
        },
    ];
    let plan = reconcile(&candidates, &albums);
    let unknown: Vec<&str> = plan.unknown_candidates.iter().map(|c| c.relative_path.as_str()).collect();
    assert_eq!(unknown, vec!["Nobody/Nothing (1999)"]);
    assert!(plan.ambiguous_candidates.is_empty());
    assert_eq!(plan.unchanged_locations, 1);
}

#[test]
fn safe_components_of_ascii_names_are_already_safe() {
    for (value, expected) in [("AC/DC ", "AC - DC"), ("  a:b*c. . ", "a_b_c"), (" ... ", "Unknown artist")] {
        let once = filesystem_safe_component(value, "Unknown artist");
        assert_eq!(once, expected);
        assert_eq!(filesystem_safe_component(&once, "Unknown artist"), once);
    }
}

#[test]
fn ascii_album_directories_read_back_without_trimming() {
    let location = album_location("Artist", " Title.. ", 1999);
    assert_eq!(location, "Artist/Title (1999)");
    let (_, directory) = location.split_once('/').unwrap();
    assert_eq!(
        parse_album_directory_name(directory),
        Some((filesystem_safe_component(" Title.. ", "Unknown album"), Some(1999)))
    );
}

#[test]
fn matching_identity_ignores_ascii_letter_case() {
    let lower = identity("ac/dc", "back in black");
    assert_eq!(lower, ("ac - dc".to_string(), "back in black".to_string()));
    assert_eq!(identity("AC/DC", "Back In BLACK"), lower);
    assert_eq!(identity("Ac/Dc", "BACK IN BLACK"), lower);
}

#[test]
fn planned_locations_are_unique_and_never_an_existing_location() {
    let candidates = vec![
        candidate("Artist/Title (2024)", "Artist", "Title", Some(2024)),
        candidate("Artist/Other", "Artist", "Other", None),
        candidate("Kept/Here", "Kept", "Here", None),
    ];
    let albums = vec![
        CatalogAlbum {
            id: "a".to_string(),
            primary_artist: Some("Artist".to_string()),
            title: "Title".to_string(),
            release_year: 2024,
            relative_path: Some("Old/Gone".to_string()),
        },
        CatalogAlbum {
            id: "b".to_string(),
            primary_artist: Some("Artist".to_string()),
            title: "Other".to_string(),
            release_year: 2020,
            relative_path: None,
        },
        CatalogAlbum {
            id: "c".to_string(),
            primary_artist: Some("Kept".to_string()),
            title: "Here".to_string(),
            release_year: 2001,
            relative_path: Some("Kept/Here".to_string()),
        },
    ];
    let plan = reconcile(&candidates, &albums);
    let set: Vec<&str> = plan.locations.iter().filter_map(|u| u.relative_path.as_deref()).collect();
    assert_eq!(set, vec!["Artist/Title (2024)", "Artist/Other"]);
    for path in &set {
        assert!(candidates.iter().any(|c| c.relative_path == *path));
        assert!(albums.iter().all(|a| a.relative_path.as_deref() != Some(*path)));
    }
    assert_eq!(plan.unchanged_locations, 1);
}

#[test]
fn matching_identity_ignores_extra_spaces() {
    let expected = identity("Artist", "Title Two");
    assert_eq!(identity(" Artist", "Title  Two "), expected);
    assert_eq!(identity("Artist  ", "  Title   Two"), expected);
    assert_eq!(identity("AC/DC ", "Back"), identity("AC/DC", "Back"));
}

#[test]
fn the_plan_does_not_depend_on_the_order_of_its_inputs() {
    let candidates = vec![
        candidate("Artist/Title (2024)", "Artist", "Title", Some(2024)),
        candidate("Other/Unknown", "Other", "Unknown", None),
        candidate("Twin/Album", "Twin", "Album", None),
        candidate("Kept/Here", "Kept", "Here", None),
        candidate("Artist/Title", "Artist", "Title", None),
    ];
    let album = |id: &str, artist: &str, title: &str, year: i32, path: Option<&str>| CatalogAlbum {
        id: id.to_string(),
        primary_artist: Some(artist.to_string()),
        title: title.to_string(),
        release_year: year,
        relative_path: path.map(str::to_string),
    };
    let albums = vec![
        album("a", "Artist", "Title", 2024, Some("Old/Gone")),
        album("t1", "Twin", "Album", 2001, None),
        album("t2", "Twin", "Album", 2002, None),
        album("k", "Kept", "Here", 1999, Some("Kept/Here")),
    ];
    let plan = reconcile(&candidates, &albums);
    let reversed_candidates: Vec<AlbumCandidate> = candidates
        .iter()
        .rev()
        .map(|c| candidate(&c.relative_path, &c.primary_artist, &c.title, c.release_year))
        .collect();
    let reversed_albums: Vec<CatalogAlbum> = albums
        .iter()
        .rev()
        .map(|a| {
            album(
                &a.id,
                a.primary_artist.as_deref().unwrap(),
                &a.title,
                a.release_year,
                a.relative_path.as_deref(),
            )
        })
        .collect();
    let other = reconcile(&reversed_candidates, &reversed_albums);
    assert_eq!(plan.locations, other.locations);
    assert_eq!(plan.unchanged_locations, other.unchanged_locations);
    assert_eq!(plan.unknown_candidates, other.unknown_candidates);
    assert_eq!(plan.ambiguous_candidates, other.ambiguous_candidates);
    assert_eq!(plan.duplicate_paths_by_album_id, other.duplicate_paths_by_album_id);
    assert_eq!(plan.ambiguous_candidates.len(), 1);
    assert_eq!(plan.duplicate_paths_by_album_id.len(), 1);
    assert_eq!(plan.duplicate_paths_by_album_id[0].paths, vec!["Artist/Title", "Artist/Title (2024)"]);
}

#[test]
fn spacing_next_to_path_separators_is_ignored_where_it_does_not_change_the_name() {
    assert_eq!(identity(" AC/DC", "Back"), identity("AC/DC", "Back"));
    assert_eq!(identity("a  /b", "Back"), identity("a /b", "Back"));
    assert_eq!(identity("AC/DC ", "Back"), identity("AC/DC", "Back"));
    // A space that turns "- " into a separator already written changes the name.
    assert_ne!(identity(" - /b", "Back"), identity("- /b", "Back"));
    assert_ne!(identity("a -  /b", "Back"), identity("a - /b", "Back"));
}

#[test]
fn the_plan_lists_are_strictly_sorted() {
    let candidates = vec![
        candidate("Zed/One", "Zed", "One", None),
        candidate("Amy/Two", "Amy", "Two", None),
        candidate("Nobody/B", "Nobody", "B", None),
        candidate("Nobody/A", "Nobody", "A", None),
    ];
    let album = |id: &str, artist: &str, title: &str| CatalogAlbum {
        id: id.to_string(),
        primary_artist: Some(artist.to_string()),
        title: title.to_string(),
        release_year: 2000,
        relative_path: None,
    };
    let albums = vec![album("z", "Zed", "One"), album("a", "Amy", "Two")];
    let plan = reconcile(&candidates, &albums);
    let ids: Vec<&str> = plan.locations.iter().map(|u| u.album_id.as_str()).collect();
    assert_eq!(ids, vec!["a", "z"]);
    let unknown: Vec<&str> = plan.unknown_candidates.iter().map(|c| c.relative_path.as_str()).collect();
    assert_eq!(unknown, vec!["Nobody/A", "Nobody/B"]);
}
