use bragi::catalog::{Album, Artist, Catalog, Track};

#[test]
fn created_rows_get_sequential_identifiers() {
    let mut c = Catalog::new();
    let a1 = c.create_artist("Artist A".to_string(), "/music".to_string(), None);
    let a2 = c.create_artist("Artist B".to_string(), "/music".to_string(), None);
    assert_eq!(a1, 1);
    assert_eq!(a2, 2);
    assert_eq!(c.list_artists().len(), 2);
}

#[test]
fn artists_are_found_by_exact_name() {
    let mut c = Catalog::new();
    c.create_artist("Artist A".to_string(), "/music".to_string(), None);
    assert!(c.find_artist_by_name("Artist A").is_some());
    assert!(c.find_artist_by_name("Artist").is_none());
    assert!(c.find_artist_by_name("artist a").is_none());
}

#[test]
fn updating_a_checksum_touches_only_that_artist() {
    let mut c = Catalog::new();
    let a1 = c.create_artist("Artist A".to_string(), "/music".to_string(), None);
    let _a2 = c.create_artist("Artist B".to_string(), "/music".to_string(), Some("x".to_string()));
    c.update_artist_checksum(a1, "abc".to_string());
    let rows = c.list_artists();
    assert_eq!(rows[0].checksum.as_deref(), Some("abc"));
    assert_eq!(rows[1].checksum.as_deref(), Some("x"));
}

#[test]
fn album_lookup_is_by_title_and_id() {
    let mut c = Catalog::new();
    let aid = c.create_artist("Artist A".to_string(), "/music".to_string(), None);
    let alb = c.create_album("Album B".to_string(), "/music/Artist A".to_string(), 2001, aid);
    assert_eq!(c.find_album_by_title("Album B"), Some(alb));
    assert_eq!(c.find_album_by_title("Album"), None);
    let row = c.get_album_by_id(alb).unwrap();
    assert_eq!(row.title, "Album B");
    assert_eq!(row.release_year, 2001);
    assert!(c.get_album_by_id(99).is_none());
}

#[test]
fn tracks_are_listed_per_album() {
    let mut c = Catalog::new();
    let aid = c.create_artist("Artist A".to_string(), "/m".to_string(), None);
    let alb1 = c.create_album("One (2001)".to_string(), "/m/a".to_string(), 2001, aid);
    let alb2 = c.create_album("Two (2002)".to_string(), "/m/a".to_string(), 2002, aid);
    c.create_track("S1".to_string(), "/m/a/1.flac".to_string(), 1, 0, alb1);
    c.create_track("S2".to_string(), "/m/a/2.flac".to_string(), 2, 0, alb2);
    c.create_track("S3".to_string(), "/m/a/3.flac".to_string(), 3, 0, alb1);
    let t1 = c.list_tracks_of_album(alb1);
    assert_eq!(t1.len(), 2);
    assert_eq!(t1[0].title, "S1");
    assert_eq!(t1[1].title, "S3");
    assert_eq!(c.list_tracks_of_album(alb2).len(), 1);
    assert!(c.track_title_exists(alb1, "S1"));
    assert!(!c.track_title_exists(alb2, "S1"));
}

fn artist_row(id: i32, name: &str) -> Artist {
    Artist { id, name: name.to_string(), path: "/m".to_string(), checksum: None }
}

fn album_row(id: i32, title: &str, artist_id: i32) -> Album {
    Album { id, title: title.to_string(), path: "/m/a".to_string(), release_year: 2000, artist_id }
}

fn track_row(id: i32, title: &str, album_id: i32) -> Track {
    Track {
        id,
        title: title.to_string(),
        path: "/m/a/t".to_string(),
        track_number: 1,
        duration: 0,
        album_id,
    }
}

#[test]
fn valid_rows_reload_and_ids_continue_above_them() {
    let artists = vec![artist_row(3, "A"), artist_row(7, "B")];
    let albums = vec![album_row(2, "X", 3)];
    let tracks = vec![track_row(5, "T", 2)];
    let mut c = Catalog::from_rows(artists, albums, tracks).unwrap();
    let next_artist = c.create_artist("C".to_string(), "/m".to_string(), None);
    assert_eq!(next_artist, 8);
    let next_album = c.create_album("Y".to_string(), "/m/c".to_string(), 2001, next_artist);
    assert_eq!(next_album, 3);
    let next_track = c.create_track("U".to_string(), "/p".to_string(), 1, 0, next_album);
    assert_eq!(next_track, 6);
}

#[test]
fn duplicate_natural_keys_are_rejected_on_reload() {
    let dup_names = vec![artist_row(1, "A"), artist_row(2, "A")];
    assert!(Catalog::from_rows(dup_names, Vec::new(), Vec::new()).is_none());
    let dup_ids = vec![artist_row(1, "A"), artist_row(1, "B")];
    assert!(Catalog::from_rows(dup_ids, Vec::new(), Vec::new()).is_none());
    let dup_titles = vec![album_row(1, "X", 1), album_row(2, "X", 1)];
    assert!(Catalog::from_rows(vec![artist_row(1, "A")], dup_titles, Vec::new()).is_none());
    let dup_track_titles = vec![track_row(1, "T", 1), track_row(2, "T", 1)];
    assert!(
        Catalog::from_rows(
            vec![artist_row(1, "A")],
            vec![album_row(1, "X", 1)],
            dup_track_titles
        )
        .is_none()
    );
}

#[test]
fn unlinked_or_nonpositive_rows_are_rejected_on_reload() {
    let orphan_album = vec![album_row(1, "X", 9)];
    assert!(Catalog::from_rows(vec![artist_row(1, "A")], orphan_album, Vec::new()).is_none());
    let orphan_track = vec![track_row(1, "T", 9)];
    assert!(
        Catalog::from_rows(vec![artist_row(1, "A")], vec![album_row(1, "X", 1)], orphan_track)
            .is_none()
    );
    let bad_id = vec![artist_row(0, "A")];
    assert!(Catalog::from_rows(bad_id, Vec::new(), Vec::new()).is_none());
}

#[test]
fn same_track_title_is_allowed_on_different_albums() {
    let artists = vec![artist_row(1, "A")];
    let albums = vec![album_row(1, "X", 1), album_row(2, "Y", 1)];
    let tracks = vec![track_row(1, "T", 1), track_row(2, "T", 2)];
    assert!(Catalog::from_rows(artists, albums, tracks).is_some());
}
