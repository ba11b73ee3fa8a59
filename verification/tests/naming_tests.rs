use bragi::naming::{get_filename_stem, is_audio_file, is_hidden, parse_album, parse_track};

#[test]
fn album_with_year_suffix_parses() {
    let a = parse_album("Abbey Road (1969)").unwrap();
    assert_eq!(a.title, "Abbey Road");
    assert_eq!(a.year, 1969);
}

#[test]
fn album_without_year_suffix_is_rejected() {
    assert!(parse_album("Untitled").is_none());
}

#[test]
fn album_suffix_must_close_the_name() {
    assert!(parse_album("Abbey Road (1969) remaster").is_none());
    assert!(parse_album("Abbey Road (69)").is_none());
    assert!(parse_album("Abbey Road (19x9)").is_none());
    assert!(parse_album("Abbey Road(1969)").is_none());
    assert!(parse_album("").is_none());
}

#[test]
fn album_title_may_be_empty() {
    let a = parse_album(" (2001)").unwrap();
    assert_eq!(a.title, "");
    assert_eq!(a.year, 2001);
}

#[test]
fn track_number_and_title_parse() {
    let t = parse_track("01 - Come Together").unwrap();
    assert_eq!(t.track_number, 1);
    assert_eq!(t.title, "Come Together");
}

#[test]
fn embedded_artist_segment_is_discarded() {
    let t = parse_track("02 - The Beatles - Something").unwrap();
    assert_eq!(t.track_number, 2);
    assert_eq!(t.title, "Something");
}

#[test]
fn track_without_leading_number_is_rejected() {
    assert!(parse_track("track_final").is_none());
    assert!(parse_track("").is_none());
    assert!(parse_track("- No Number").is_none());
}

#[test]
fn track_separator_may_be_a_dot() {
    let t = parse_track("3. Intro").unwrap();
    assert_eq!(t.track_number, 3);
    assert_eq!(t.title, "Intro");
}

#[test]
fn track_needs_a_separator_and_a_title() {
    assert!(parse_track("01 Come Together").is_none());
    assert!(parse_track("01 -").is_none());
    assert!(parse_track("12").is_none());
}

#[test]
fn track_number_too_large_is_rejected() {
    assert!(parse_track("99999999999999999999 - Song").is_none());
    let t = parse_track("2147483647 - Song").unwrap();
    assert_eq!(t.track_number, i32::MAX);
    assert!(parse_track("2147483648 - Song").is_none());
}

#[test]
fn audio_extensions_match_case_sensitively() {
    assert!(is_audio_file("song.flac"));
    assert!(is_audio_file("song.mp3"));
    assert!(is_audio_file("a.b.opus"));
    assert!(!is_audio_file("song.FLAC"));
    assert!(!is_audio_file("song.txt"));
    assert!(!is_audio_file("song"));
    assert!(!is_audio_file(".flac"));
    assert!(!is_audio_file(""));
}

#[test]
fn stems_drop_only_the_extension() {
    assert_eq!(get_filename_stem("01 - Song.flac").unwrap(), "01 - Song");
    assert_eq!(get_filename_stem("noext").unwrap(), "noext");
    assert_eq!(get_filename_stem(".hidden").unwrap(), ".hidden");
    assert_eq!(get_filename_stem("a.tar.gz").unwrap(), "a.tar");
    assert!(get_filename_stem("").is_none());
}

#[test]
fn hidden_names_start_with_a_dot() {
    assert!(is_hidden(".git"));
    assert!(!is_hidden("music"));
    assert!(!is_hidden(""));
}
