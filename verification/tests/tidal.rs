use platen::matching::TidalError;
use platen::tidal::{
    album_artists, album_search_results, artist_albums_page, artwork_file_dimensions,
    artwork_resources, is_valid_https_url, select_artwork_url, select_profile_image_url,
    AlbumSearch, AlbumSearchData, AlbumSearchIncluded, AlbumSearchIncludedAttributes,
    AlbumSearchIncludedRelationships, AlbumSearchRelationships, AlbumSearchRelationshipsAlbums,
    AlbumSearchRelationshipsAlbumsData, AlbumWithArtistsDocument, AlbumWithArtistsRelationships,
    AlbumWithArtistsResource, ArtistAlbumsRelationshipDocument, ArtistIncludedAttributes,
    ArtistIncludedRelationships, ArtworkAttributes, ArtworkFile, ArtworkFileMeta,
    ArtworkRelationship, ArtworkRelationshipData, ArtworkResource, Links, RetryAction, RetryState,
    SendOutcome, TidalAuth, OauthToken,
};

fn file(href: &str, width: Option<u32>, height: Option<u32>, meta: Option<(Option<u32>, Option<u32>)>) -> ArtworkFile {
    ArtworkFile {
        href: Some(href.to_string()),
        width,
        height,
        meta: meta.map(|(width, height)| ArtworkFileMeta { width, height }),
    }
}

fn square(href: &str, size: u32) -> ArtworkFile {
    file(href, Some(size), Some(size), None)
}

fn artwork(id: &str, media_type: &str, files: Vec<ArtworkFile>) -> ArtworkResource {
    ArtworkResource {
        id: id.to_string(),
        attributes: ArtworkAttributes {
            media_type: Some(media_type.to_string()),
            files,
        },
    }
}

fn relationship(ids: &[&str]) -> ArtworkRelationship {
    ArtworkRelationship {
        data: Some(ids.iter().map(|id| ArtworkRelationshipData { id: id.to_string() }).collect()),
    }
}

fn artist_resource(id: &str, name: &str, profile: Option<&[&str]>) -> AlbumSearchIncluded {
    AlbumSearchIncluded::Artist {
        id: id.to_string(),
        attributes: ArtistIncludedAttributes { name: name.to_string() },
        relationships: profile.map(|ids| ArtistIncludedRelationships {
            profile_art: Some(relationship(ids)),
        }),
    }
}

fn attributes(title: &str) -> AlbumSearchIncludedAttributes {
    AlbumSearchIncludedAttributes {
        title: title.to_string(),
        release_date: Some("2026-07-29".to_string()),
        album_type: "SINGLE".to_string(),
        explicit: None,
        media_tags: None,
    }
}

#[test]
fn deserializes_album_artists_with_profile_artwork() {
    let doc = AlbumWithArtistsDocument {
        data: Some(AlbumWithArtistsResource {
            relationships: Some(AlbumWithArtistsRelationships {
                artists: Some(AlbumSearchRelationshipsAlbums {
                    data: vec![AlbumSearchRelationshipsAlbumsData { id: "artist-1".to_string() }],
                }),
            }),
        }),
        included: vec![
            artist_resource("artist-1", "BLCKK", Some(&["portrait"])),
            AlbumSearchIncluded::Artwork {
                resource: artwork("portrait", "IMAGE", vec![square("https://cdn.example/portrait", 640)]),
            },
        ],
    };
    let artists = album_artists(&doc).expect("artists resolve");
    assert_eq!(artists.len(), 1);
    assert_eq!(artists[0].id, "artist-1");
    assert_eq!(artists[0].name, "BLCKK");
    assert_eq!(artists[0].profile_image_url.as_deref(), Some("https://cdn.example/portrait"));
}

#[test]
fn selects_profile_image_from_artist_metadata() {
    let included = vec![AlbumSearchIncluded::Artwork {
        resource: artwork(
            "portrait",
            "IMAGE",
            vec![
                square("https://cdn.example/portrait-large", 1200),
                square("https://cdn.example/portrait", 640),
            ],
        ),
    }];
    let relationships = ArtistIncludedRelationships {
        profile_art: Some(relationship(&["portrait"])),
    };
    let artworks = artwork_resources(&included);
    assert_eq!(
        select_profile_image_url(Some(&relationships), &artworks).as_deref(),
        Some("https://cdn.example/portrait")
    );
}

#[test]
fn selects_the_first_image_resource_with_the_best_square_file() {
    let included = vec![
        AlbumSearchIncluded::Artwork {
            resource: artwork("video", "VIDEO", vec![square("https://cdn.example/video", 2000)]),
        },
        AlbumSearchIncluded::Artwork {
            resource: artwork(
                "not-square",
                "IMAGE",
                vec![file("https://cdn.example/landscape", Some(1200), Some(800), None)],
            ),
        },
        AlbumSearchIncluded::Artwork {
            resource: artwork(
                "cover",
                "IMAGE",
                vec![
                    square("http://cdn.example/http", 1600),
                    square("/relative", 1600),
                    square("not a url", 1600),
                    square("https://cdn.example/large", 1200),
                    square("https://cdn.example/small", 640),
                    square("https://cdn.example/tiny", 320),
                ],
            ),
        },
    ];
    let relationship = relationship(&["video", "not-square", "cover"]);
    let artworks = artwork_resources(&included);
    let cover = select_artwork_url(Some(&relationship), &artworks);
    assert_eq!(cover.as_deref(), Some("https://cdn.example/small"));
}

#[test]
fn selects_the_first_valid_artwork_resource_in_relationship_order() {
    let included = vec![
        AlbumSearchIncluded::Artwork {
            resource: artwork("first", "IMAGE", vec![square("https://cdn.example/first", 1200)]),
        },
        AlbumSearchIncluded::Artwork {
            resource: artwork("second", "IMAGE", vec![square("https://cdn.example/second", 640)]),
        },
    ];
    let relationship = relationship(&["first", "second"]);
    let artworks = artwork_resources(&included);
    assert_eq!(
        select_artwork_url(Some(&relationship), &artworks).as_deref(),
        Some("https://cdn.example/first")
    );
}

#[test]
fn does_not_combine_dimensions_from_different_metadata_pairs() {
    let resource = artwork(
        "cover",
        "IMAGE",
        vec![file("https://cdn.example/mixed", Some(640), None, Some((Some(1200), Some(640))))],
    );
    let relationship = relationship(&["cover"]);
    let artworks = vec![&resource];
    assert_eq!(select_artwork_url(Some(&relationship), &artworks), None);
}

#[test]
fn uses_largest_square_when_no_square_file_reaches_the_threshold() {
    let resource = artwork(
        "cover",
        "IMAGE",
        vec![
            file("https://cdn.example/medium", None, None, Some((Some(500), Some(500)))),
            square("https://cdn.example/large", 600),
            file("https://cdn.example/wide", Some(1000), Some(800), None),
        ],
    );
    let relationship = relationship(&["cover"]);
    let artworks = vec![&resource];
    assert_eq!(
        select_artwork_url(Some(&relationship), &artworks).as_deref(),
        Some("https://cdn.example/large")
    );
}

#[test]
fn file_dimensions_come_from_one_source() {
    assert_eq!(artwork_file_dimensions(&square("x", 5)), Some((5, 5)));
    assert_eq!(
        artwork_file_dimensions(&file("x", Some(1), None, Some((Some(2), Some(3))))),
        Some((2, 3))
    );
    assert_eq!(artwork_file_dimensions(&file("x", Some(1), None, Some((Some(2), None)))), None);
    assert!(is_valid_https_url("https://cdn.example/a"));
    assert!(!is_valid_https_url("http://cdn.example/a"));
    assert!(!is_valid_https_url("mailto:someone@example.com"));
    assert!(!is_valid_https_url("not a url"));
}

#[test]
fn album_search_results_resolve_each_relationship() {
    let doc = AlbumSearch {
        data: vec![AlbumSearchData {
            relationships: AlbumSearchRelationships {
                albums: AlbumSearchRelationshipsAlbums {
                    data: vec![AlbumSearchRelationshipsAlbumsData { id: "546629982".to_string() }],
                },
            },
        }],
        included: vec![
            artist_resource("other", "Other", None),
            AlbumSearchIncluded::Album {
                id: "546629982".to_string(),
                attributes: attributes("Michelle (Take 1)"),
                relationships: AlbumSearchIncludedRelationships {
                    artists: AlbumSearchRelationshipsAlbums {
                        data: vec![AlbumSearchRelationshipsAlbumsData { id: "artist-1".to_string() }],
                    },
                    cover_art: Some(relationship(&["cover"])),
                },
            },
            artist_resource("artist-1", "BLCKK", None),
            AlbumSearchIncluded::Artwork {
                resource: artwork("cover", "IMAGE", vec![square("https://cdn.example/cover", 640)]),
            },
            AlbumSearchIncluded::Unknown,
        ],
    };
    let hits = album_search_results(&doc).expect("hits resolve");
    assert_eq!(hits.len(), 1);
    assert_eq!(hits[0].id, "546629982");
    assert_eq!(hits[0].title, "Michelle (Take 1)");
    assert_eq!(hits[0].release_date.as_deref(), Some("2026-07-29"));
    assert_eq!(hits[0].cover_url.as_deref(), Some("https://cdn.example/cover"));
    assert_eq!(hits[0].artists.len(), 1);
    assert_eq!(hits[0].artists[0].name, "BLCKK");

    let missing = AlbumSearch {
        data: vec![AlbumSearchData {
            relationships: AlbumSearchRelationships {
                albums: AlbumSearchRelationshipsAlbums {
                    data: vec![AlbumSearchRelationshipsAlbumsData { id: "nope".to_string() }],
                },
            },
        }],
        included: Vec::new(),
    };
    assert_eq!(album_search_results(&missing), Err(TidalError::UnexpectedResponse));
    let empty = AlbumSearch { data: Vec::new(), included: Vec::new() };
    assert_eq!(album_search_results(&empty), Err(TidalError::UnexpectedResponse));
}

#[test]
fn deserializes_artist_albums_relationship_document() {
    let doc = ArtistAlbumsRelationshipDocument {
        included: vec![AlbumSearchIncluded::Album {
            id: "546629982".to_string(),
            attributes: attributes("Michelle (Take 1)"),
            relationships: AlbumSearchIncludedRelationships::default(),
        }],
        links: None,
    };
    let (albums, next) = artist_albums_page(&doc);
    assert_eq!(albums.len(), 1);
    assert_eq!(albums[0].id, "546629982");
    assert_eq!(albums[0].release_date.as_deref(), Some("2026-07-29"));
    assert!(next.is_none());
    let doc = ArtistAlbumsRelationshipDocument {
        included: Vec::new(),
        links: Some(Links { next: Some("/next".to_string()) }),
    };
    assert_eq!(artist_albums_page(&doc).1.as_deref(), Some("/next"));
}

#[test]
fn requests_are_retried_after_rate_limits_and_transport_errors() {
    let mut state = RetryState::new();
    let limited = SendOutcome::Response { status: 429, retry_after: Some("7".to_string()) };
    assert_eq!(state.next_action(&limited), RetryAction::Wait(7));
    let limited = SendOutcome::Response { status: 429, retry_after: None };
    assert_eq!(state.next_action(&limited), RetryAction::Wait(2));
    assert_eq!(state.next_action(&SendOutcome::TransportError), RetryAction::Wait(4));
    assert_eq!(state.next_action(&SendOutcome::TransportError), RetryAction::Fail);
    assert_eq!(state.next_action(&limited), RetryAction::Deliver);
    let unauthorized = SendOutcome::Response { status: 401, retry_after: None };
    assert_eq!(state.next_action(&unauthorized), RetryAction::Reauthenticate);
    assert_eq!(state.next_action(&unauthorized), RetryAction::Deliver);
}

#[test]
fn tokens_are_used_until_a_minute_before_they_expire() {
    let mut auth = TidalAuth::new();
    assert_eq!(auth.usable_token(0), None);
    auth.store(&OauthToken { access_token: "t".to_string(), expires_in: 3600 }, 1_000_000);
    assert_eq!(auth.expires_at, 1_000_000 + 3540 * 1_000_000);
    assert_eq!(auth.usable_token(2_000_000).as_deref(), Some("t"));
    assert_eq!(auth.usable_token(auth.expires_at), None);
    auth.store(&OauthToken { access_token: "u".to_string(), expires_in: 30 }, 5);
    assert_eq!(auth.expires_at, 5);
    auth.forget();
    assert_eq!(auth.usable_token(0), None);
}

#[test]
fn a_request_is_sent_at_most_its_retries_plus_two_times() {
    let limited = SendOutcome::Response { status: 429, retry_after: None };
    let unauthorized = SendOutcome::Response { status: 401, retry_after: None };
    let outcomes = [limited.clone(), unauthorized.clone(), limited.clone(), limited.clone(), unauthorized, limited];
    let mut state = RetryState::new();
    let mut sends = 0;
    for outcome in &outcomes {
        sends += 1;
        match state.next_action(outcome) {
            RetryAction::Wait(_) | RetryAction::Reauthenticate => {}
            RetryAction::Deliver | RetryAction::Fail => break,
        }
    }
    assert_eq!(sends, 5);
}
