use bragi::catalog::Catalog;
use bragi::dto::{AlbumDTO, ArtistDTO, TrackDTO};
use bragi::fingerprint::fingerprint;
use bragi::guard::ScanGuard;
use bragi::indexer::{scan_library, AlbumDir, ArtistDir, ScanReport, TrackFile};

fn track_file(album_path: &str, name: &str) -> TrackFile {
    TrackFile { name: name.to_string(), path: format!("{}/{}", album_path, name), duration: 1337 }
}

fn album_dir(artist_path: &str, name: &str, files: &[&str]) -> AlbumDir {
    let path = format!("{}/{}", artist_path, name);
    let files = files.iter().map(|f| track_file(&path, f)).collect();
    AlbumDir { name: name.to_string(), path, files }
}

fn artist_dir(root: &str, name: &str, albums: Vec<AlbumDir>) -> ArtistDir {
    let mut files_beneath: Vec<String> = Vec::new();
    for a in &albums {
        for f in &a.files {
            files_beneath.push(f.name.clone());
        }
    }
    ArtistDir { name: name.to_string(), path: format!("{}/{}", root, name), files_beneath, albums }
}

#[test]
fn one_scan_builds_the_catalog_and_a_rescan_adds_nothing() {
    let root = "/music";
    let tree = vec![artist_dir(
        root,
        "Artist A",
        vec![album_dir("/music/Artist A", "Album B (2001)", &["01 - Song.flac"])],
    )];

    let mut catalog = Catalog::new();
    let mut report = ScanReport::new();
    scan_library(&mut catalog, &mut report, root, &tree);

    let artists = catalog.list_artists();
    assert_eq!(artists.len(), 1);
    assert_eq!(artists[0].name, "Artist A");
    assert_eq!(artists[0].path, "/music");
    let expected_fp = fingerprint(&vec!["01 - Song.flac".to_string()]);
    assert_eq!(artists[0].checksum.as_deref(), Some(expected_fp.as_str()));

    let albums = catalog.list_albums();
    assert_eq!(albums.len(), 1);
    assert_eq!(albums[0].title, "Album B");
    assert_eq!(albums[0].release_year, 2001);
    assert_eq!(albums[0].artist_id, artists[0].id);
    assert_eq!(albums[0].path, "/music/Artist A");

    let tracks = catalog.list_tracks_of_album(albums[0].id);
    assert_eq!(tracks.len(), 1);
    assert_eq!(tracks[0].title, "Song");
    assert_eq!(tracks[0].track_number, 1);
    assert_eq!(tracks[0].path, "/music/Artist A/Album B (2001)/01 - Song.flac");

    assert_eq!(report.created_artists.len(), 1);
    assert_eq!(report.created_albums.len(), 1);
    assert_eq!(report.created_tracks.len(), 1);
    assert_eq!(report.skipped_artists.len(), 0);

    // Second pass over the unchanged tree: everything is skipped.
    let mut report2 = ScanReport::new();
    scan_library(&mut catalog, &mut report2, root, &tree);
    assert_eq!(catalog.list_artists().len(), 1);
    assert_eq!(catalog.list_albums().len(), 1);
    assert_eq!(catalog.list_tracks().len(), 1);
    assert_eq!(report2.created_artists.len(), 0);
    assert_eq!(report2.updated_artists.len(), 0);
    assert_eq!(report2.created_albums.len(), 0);
    assert_eq!(report2.created_tracks.len(), 0);
    assert_eq!(report2.skipped_artists.len(), 1);
}

#[test]
fn adding_a_file_adds_one_track_and_refreshes_the_checksum() {
    let root = "/music";
    let tree = vec![artist_dir(
        root,
        "Artist A",
        vec![album_dir("/music/Artist A", "Album B (2001)", &["01 - Song.flac"])],
    )];
    let mut catalog = Catalog::new();
    let mut report = ScanReport::new();
    scan_library(&mut catalog, &mut report, root, &tree);
    let old_checksum = catalog.list_artists()[0].checksum.clone().unwrap();

    let grown = vec![artist_dir(
        root,
        "Artist A",
        vec![album_dir(
            "/music/Artist A",
            "Album B (2001)",
            &["01 - Song.flac", "02 - Song Two.flac"],
        )],
    )];
    let mut report2 = ScanReport::new();
    scan_library(&mut catalog, &mut report2, root, &grown);

    assert_eq!(catalog.list_artists().len(), 1);
    assert_eq!(catalog.list_albums().len(), 1);
    let tracks = catalog.list_tracks();
    assert_eq!(tracks.len(), 2);
    assert_eq!(tracks[1].title, "Song Two");
    assert_eq!(tracks[1].track_number, 2);
    assert_eq!(report2.created_tracks.len(), 1);
    assert_eq!(report2.updated_artists.len(), 1);
    assert_eq!(report2.created_artists.len(), 0);
    assert_eq!(report2.created_albums.len(), 0);
    let new_checksum = catalog.list_artists()[0].checksum.clone().unwrap();
    assert_ne!(old_checksum, new_checksum);
}

#[test]
fn unparsable_names_are_recorded_and_skipped() {
    let root = "/music";
    let tree = vec![artist_dir(
        root,
        "Artist A",
        vec![
            album_dir("/music/Artist A", "Untitled", &["01 - Song.flac"]),
            album_dir(
                "/music/Artist A",
                "Album B (2001)",
                &["track_final.flac", "01 - Song.flac", "notes.txt", ".hidden.flac"],
            ),
        ],
    )];
    let mut catalog = Catalog::new();
    let mut report = ScanReport::new();
    scan_library(&mut catalog, &mut report, root, &tree);

    // The malformed album directory is a diagnostic, not an album.
    assert_eq!(catalog.list_albums().len(), 1);
    assert_eq!(report.album_failures, vec!["Untitled".to_string()]);
    // The malformed track stem is a diagnostic; the non-audio and hidden
    // files are ignored outright.
    assert_eq!(catalog.list_tracks().len(), 1);
    assert_eq!(report.track_failures, vec!["track_final.flac".to_string()]);
}

#[test]
fn hidden_directories_are_ignored_at_every_level() {
    let root = "/music";
    let tree = vec![
        artist_dir(root, ".git", vec![album_dir("/music/.git", "Album B (2001)", &["01 - S.flac"])]),
        artist_dir(
            root,
            "Artist A",
            vec![
                album_dir("/music/Artist A", ".cache (2001)", &["01 - S.flac"]),
                album_dir("/music/Artist A", "Album B (2001)", &["01 - S.flac"]),
            ],
        ),
    ];
    let mut catalog = Catalog::new();
    let mut report = ScanReport::new();
    scan_library(&mut catalog, &mut report, root, &tree);
    assert_eq!(catalog.list_artists().len(), 1);
    assert_eq!(catalog.list_artists()[0].name, "Artist A");
    assert_eq!(catalog.list_albums().len(), 1);
    assert_eq!(report.album_failures.len(), 0);
}

#[test]
fn an_album_title_shared_between_scans_is_not_duplicated() {
    let root = "/music";
    let tree = vec![artist_dir(
        root,
        "Artist A",
        vec![
            album_dir("/music/Artist A", "Album B (2001)", &["01 - Song.flac"]),
            album_dir("/music/Artist A", "Album B (2002)", &["02 - Other.flac"]),
        ],
    )];
    let mut catalog = Catalog::new();
    let mut report = ScanReport::new();
    scan_library(&mut catalog, &mut report, root, &tree);
    // Both directories parse to the title "Album B"; the natural key keeps a
    // single row and the second directory's tracks join it.
    assert_eq!(catalog.list_albums().len(), 1);
    assert_eq!(catalog.list_tracks().len(), 2);
}

#[test]
fn natural_keys_stay_unique_across_scans() {
    let root = "/music";
    let first = vec![
        artist_dir(root, "Artist A", vec![album_dir("/music/Artist A", "X (2001)", &["01 - S.flac"])]),
        artist_dir(root, "Artist B", vec![album_dir("/music/Artist B", "Y (2002)", &["01 - S.flac"])]),
    ];
    let second = vec![
        artist_dir(
            root,
            "Artist A",
            vec![
                album_dir("/music/Artist A", "X (2001)", &["01 - S.flac", "02 - T.flac"]),
                album_dir("/music/Artist A", "Y (2003)", &["01 - S.flac"]),
            ],
        ),
        artist_dir(root, "Artist C", vec![album_dir("/music/Artist C", "Z (2004)", &["01 - S.flac"])]),
    ];
    let mut catalog = Catalog::new();
    let mut report = ScanReport::new();
    scan_library(&mut catalog, &mut report, root, &first);
    let mut report2 = ScanReport::new();
    scan_library(&mut catalog, &mut report2, root, &second);

    let artists = catalog.list_artists();
    for i in 0..artists.len() {
        for j in i + 1..artists.len() {
            assert_ne!(artists[i].name, artists[j].name);
        }
    }
    let albums = catalog.list_albums();
    for i in 0..albums.len() {
        for j in i + 1..albums.len() {
            assert_ne!(albums[i].title, albums[j].title);
        }
    }
    let tracks = catalog.list_tracks();
    for i in 0..tracks.len() {
        for j in i + 1..tracks.len() {
            assert!(
                tracks[i].album_id != tracks[j].album_id || tracks[i].title != tracks[j].title
            );
        }
    }
    // The second snapshot's "Y (2003)" collides with artist B's album title
    // "Y"; the natural key keeps the one row, so three albums exist in all.
    assert_eq!(albums.len(), 3);
}

#[test]
fn scanning_an_empty_root_changes_nothing() {
    let mut catalog = Catalog::new();
    let mut report = ScanReport::new();
    scan_library(&mut catalog, &mut report, "/music", &Vec::new());
    assert_eq!(catalog.list_artists().len(), 0);
    assert_eq!(report.created_artists.len(), 0);
    assert_eq!(report.skipped_artists.len(), 0);
}

#[test]
fn an_artist_directory_without_albums_still_becomes_a_row() {
    let root = "/music";
    let tree = vec![artist_dir(root, "Artist A", Vec::new())];
    let mut catalog = Catalog::new();
    let mut report = ScanReport::new();
    scan_library(&mut catalog, &mut report, root, &tree);
    assert_eq!(catalog.list_artists().len(), 1);
    assert_eq!(catalog.list_albums().len(), 0);
    let empty_fp = fingerprint(&Vec::new());
    assert_eq!(catalog.list_artists()[0].checksum.as_deref(), Some(empty_fp.as_str()));
}

#[test]
fn the_scan_guard_admits_one_scan_at_a_time() {
    let mut g = ScanGuard::new();
    assert!(g.try_begin());
    assert!(!g.try_begin());
    g.finish();
    assert!(g.try_begin());
}

#[test]
fn dtos_project_the_rows() {
    let mut catalog = Catalog::new();
    let aid = catalog.create_artist("Artist A".to_string(), "/m".to_string(), None);
    let alb = catalog.create_album("Album B".to_string(), "/m/a".to_string(), 2001, aid);
    let tid = catalog.create_track("Song".to_string(), "/m/a/s.flac".to_string(), 1, 1337, alb);

    let artist = ArtistDTO::from(catalog.list_artists()[0].clone());
    assert_eq!(artist.id, aid);
    assert_eq!(artist.name, "Artist A");

    let album = AlbumDTO::from(catalog.get_album_by_id(alb).unwrap().clone());
    assert_eq!(album.id, alb);
    assert_eq!(album.title, "Album B");
    assert_eq!(album.year, 2001);

    let track = TrackDTO::from(catalog.list_tracks_of_album(alb)[0].clone());
    assert_eq!(track.id, tid);
    assert_eq!(track.title, "Song");
    assert_eq!(track.duration, 1337);
    assert_eq!(track.track_number, 1);
}
