//! The library indexer: a three-level reconciliation of a filesystem
//! snapshot against the catalog. Per artist directory it skips (fingerprint
//! unchanged), updates and rescans (fingerprint changed or absent) or creates
//! and scans (new artist); album and track reconciliation nest the same
//! create-or-skip pattern below. Every decision is specified by the
//! `scan_*` model functions, and the executable scan is proved equal to them.

use vstd::prelude::*;

verus! {

use crate::naming::{
    hidden_name, audio_file_name, stem_of, album_name_matches, album_title_of, album_year_of,
    parse_track_spec, views_of, is_hidden, is_audio_file, get_filename_stem, parse_track,
    parse_album,
};
use crate::fingerprint::{fingerprint_of, fingerprint};
use crate::catalog::{
    CatalogV, Catalog, artist_idx_by_name, album_idx_by_title, has_artist_id, has_album_id,
    has_track_title, spec_create_artist, spec_create_album, spec_create_track,
    spec_set_artist_checksum,
};

// ---------- the filesystem snapshot ----------

/// Mathematical image of an audio file candidate.
pub ghost struct TrackFileV {
    pub name: Seq<char>,
    pub path: Seq<char>,
    pub duration: int,
}

/// A file directly under an album directory: its bare name, its full path,
/// and the duration the surrounding system attributes to it (the indexer
/// carries it through unexamined).
pub struct TrackFile {
    pub name: String,
    pub path: String,
    pub duration: i32,
}

impl View for TrackFile {
    type V = TrackFileV;

    open spec fn view(&self) -> TrackFileV {
        TrackFileV { name: self.name@, path: self.path@, duration: self.duration as int }
    }
}

/// Mathematical image of an album directory.
pub ghost struct AlbumDirV {
    pub name: Seq<char>,
    pub path: Seq<char>,
    pub files: Seq<TrackFileV>,
}

/// An immediate subdirectory of an artist directory, with the files directly
/// under it.
pub struct AlbumDir {
    pub name: String,
    pub path: String,
    pub files: Vec<TrackFile>,
}

pub open spec fn track_files_view(s: Seq<TrackFile>) -> Seq<TrackFileV> {
    s.map_values(|f: TrackFile| f@)
}

impl View for AlbumDir {
    type V = AlbumDirV;

    open spec fn view(&self) -> AlbumDirV {
        AlbumDirV { name: self.name@, path: self.path@, files: track_files_view(self.files@) }
    }
}

/// Mathematical image of an artist directory.
pub ghost struct ArtistDirV {
    pub name: Seq<char>,
    pub path: Seq<char>,
    pub files_beneath: Seq<Seq<char>>,
    pub albums: Seq<AlbumDirV>,
}

/// An immediate subdirectory of the library root: its immediate album
/// directories, plus every file name found anywhere beneath it (in any
/// order), which feeds the fingerprint.
pub struct ArtistDir {
    pub name: String,
    pub path: String,
    pub files_beneath: Vec<String>,
    pub albums: Vec<AlbumDir>,
}

pub open spec fn album_dirs_view(s: Seq<AlbumDir>) -> Seq<AlbumDirV> {
    s.map_values(|d: AlbumDir| d@)
}

impl View for ArtistDir {
    type V = ArtistDirV;

    open spec fn view(&self) -> ArtistDirV {
        ArtistDirV {
            name: self.name@,
            path: self.path@,
            files_beneath: views_of(self.files_beneath@),
            albums: album_dirs_view(self.albums@),
        }
    }
}

pub open spec fn artist_dirs_view(s: Seq<ArtistDir>) -> Seq<ArtistDirV> {
    s.map_values(|d: ArtistDir| d@)
}

// ---------- the scan report ----------

/// Mathematical image of a scan report.
pub ghost struct ReportV {
    pub created_artists: Seq<int>,
    pub updated_artists: Seq<int>,
    pub skipped_artists: Seq<int>,
    pub created_albums: Seq<int>,
    pub created_tracks: Seq<int>,
    pub album_failures: Seq<Seq<char>>,
    pub track_failures: Seq<Seq<char>>,
}

/// What one scan did: the identifiers of the rows it created, the artists it
/// updated or skipped, and the names it could not parse (each skipped
/// non-fatally, but never silently).
pub struct ScanReport {
    pub created_artists: Vec<i32>,
    pub updated_artists: Vec<i32>,
    pub skipped_artists: Vec<i32>,
    pub created_albums: Vec<i32>,
    pub created_tracks: Vec<i32>,
    pub album_failures: Vec<String>,
    pub track_failures: Vec<String>,
}

pub open spec fn ids_view(s: Seq<i32>) -> Seq<int> {
    s.map_values(|x: i32| x as int)
}

impl View for ScanReport {
    type V = ReportV;

    open spec fn view(&self) -> ReportV {
        ReportV {
            created_artists: ids_view(self.created_artists@),
            updated_artists: ids_view(self.updated_artists@),
            skipped_artists: ids_view(self.skipped_artists@),
            created_albums: ids_view(self.created_albums@),
            created_tracks: ids_view(self.created_tracks@),
            album_failures: views_of(self.album_failures@),
            track_failures: views_of(self.track_failures@),
        }
    }
}

impl ScanReport {
    /// An empty report.
    pub fn new() -> (r: Self)
        ensures
            r@.created_artists =~= Seq::<int>::empty(),
            r@.updated_artists =~= Seq::<int>::empty(),
            r@.skipped_artists =~= Seq::<int>::empty(),
            r@.created_albums =~= Seq::<int>::empty(),
            r@.created_tracks =~= Seq::<int>::empty(),
            r@.album_failures =~= Seq::<Seq<char>>::empty(),
            r@.track_failures =~= Seq::<Seq<char>>::empty(),
    {
        ScanReport {
            created_artists: Vec::new(),
            updated_artists: Vec::new(),
            skipped_artists: Vec::new(),
            created_albums: Vec::new(),
            created_tracks: Vec::new(),
            album_failures: Vec::new(),
            track_failures: Vec::new(),
        }
    }
}

/// Catalog and report together: the state one scan step transforms.
pub ghost struct ScanStateV {
    pub catalog: CatalogV,
    pub report: ReportV,
}

// ---------- the model: what a scan does ----------

/// One file of an album directory: hidden or non-audio names are ignored,
/// unparsable stems are recorded and skipped, known titles are skipped, and
/// anything else becomes a new track row.
pub open spec fn track_step(s: ScanStateV, album_id: int, f: TrackFileV) -> ScanStateV {
    if hidden_name(f.name) || !audio_file_name(f.name) {
        s
    } else {
        match parse_track_spec(stem_of(f.name)) {
            None => ScanStateV {
                report: ReportV {
                    track_failures: s.report.track_failures.push(f.name),
                    ..s.report
                },
                ..s
            },
            Some(ti) => {
                if has_track_title(s.catalog, album_id, ti.title) {
                    s
                } else {
                    ScanStateV {
                        catalog: spec_create_track(
                            s.catalog,
                            ti.title,
                            f.path,
                            ti.track_number,
                            f.duration,
                            album_id,
                        ),
                        report: ReportV {
                            created_tracks: s.report.created_tracks.push(
                                s.catalog.next_track_id,
                            ),
                            ..s.report
                        },
                    }
                }
            },
        }
    }
}

/// Reconcile every file of one album directory, in order.
pub open spec fn scan_album_files(s: ScanStateV, album_id: int, files: Seq<TrackFileV>) -> ScanStateV
    decreases files.len(),
{
    if files.len() == 0 {
        s
    } else {
        scan_album_files(track_step(s, album_id, files[0]), album_id, files.drop_first())
    }
}

/// One album directory: hidden names are ignored, names outside the
/// convention are recorded and skipped, a known title is only rescanned for
/// new tracks, and a new title becomes a new album row that is then scanned.
pub open spec fn album_step(
    s: ScanStateV,
    artist_id: int,
    parent_path: Seq<char>,
    d: AlbumDirV,
) -> ScanStateV {
    if hidden_name(d.name) {
        s
    } else if !album_name_matches(d.name) {
        ScanStateV {
            report: ReportV { album_failures: s.report.album_failures.push(d.name), ..s.report },
            ..s
        }
    } else {
        let title = album_title_of(d.name);
        let idx = album_idx_by_title(s.catalog, title);
        if idx >= 0 {
            scan_album_files(s, s.catalog.albums[idx].id, d.files)
        } else {
            let id = s.catalog.next_album_id;
            let s1 = ScanStateV {
                catalog: spec_create_album(
                    s.catalog,
                    title,
                    parent_path,
                    album_year_of(d.name),
                    artist_id,
                ),
                report: ReportV { created_albums: s.report.created_albums.push(id), ..s.report },
            };
            scan_album_files(s1, id, d.files)
        }
    }
}

/// Reconcile every immediate subdirectory of one artist directory, in order.
pub open spec fn scan_artist_albums(
    s: ScanStateV,
    artist_id: int,
    parent_path: Seq<char>,
    dirs: Seq<AlbumDirV>,
) -> ScanStateV
    decreases dirs.len(),
{
    if dirs.len() == 0 {
        s
    } else {
        scan_artist_albums(
            album_step(s, artist_id, parent_path, dirs[0]),
            artist_id,
            parent_path,
            dirs.drop_first(),
        )
    }
}

/// One artist directory: hidden names are ignored; a known artist whose
/// stored checksum equals the subtree fingerprint is skipped outright; one
/// whose checksum is absent or differs has it replaced and is rescanned; an
/// unknown name becomes a new artist row (path = library root) that is then
/// scanned.
pub open spec fn artist_step(s: ScanStateV, root_path: Seq<char>, d: ArtistDirV) -> ScanStateV {
    if hidden_name(d.name) {
        s
    } else {
        let fp = fingerprint_of(d.files_beneath);
        let idx = artist_idx_by_name(s.catalog, d.name);
        if idx >= 0 {
            let a = s.catalog.artists[idx];
            if a.checksum == Some(fp) {
                ScanStateV {
                    report: ReportV {
                        skipped_artists: s.report.skipped_artists.push(a.id),
                        ..s.report
                    },
                    ..s
                }
            } else {
                let s1 = ScanStateV {
                    catalog: spec_set_artist_checksum(s.catalog, a.id, fp),
                    report: ReportV {
                        updated_artists: s.report.updated_artists.push(a.id),
                        ..s.report
                    },
                };
                scan_artist_albums(s1, a.id, d.path, d.albums)
            }
        } else {
            let id = s.catalog.next_artist_id;
            let s1 = ScanStateV {
                catalog: spec_create_artist(s.catalog, d.name, root_path, Some(fp)),
                report: ReportV {
                    created_artists: s.report.created_artists.push(id),
                    ..s.report
                },
            };
            scan_artist_albums(s1, id, d.path, d.albums)
        }
    }
}

/// Reconcile every immediate subdirectory of the library root, in order.
pub open spec fn scan_library_dirs(
    s: ScanStateV,
    root_path: Seq<char>,
    dirs: Seq<ArtistDirV>,
) -> ScanStateV
    decreases dirs.len(),
{
    if dirs.len() == 0 {
        s
    } else {
        scan_library_dirs(artist_step(s, root_path, dirs[0]), root_path, dirs.drop_first())
    }
}

// ---------- fold lemmas ----------

proof fn lemma_scan_album_files_snoc(s: ScanStateV, album_id: int, t: Seq<TrackFileV>, x: TrackFileV)
    ensures
        scan_album_files(s, album_id, t.push(x)) == track_step(
            scan_album_files(s, album_id, t),
            album_id,
            x,
        ),
    decreases t.len(),
{
    if t.len() == 0 {
        assert(t.push(x)[0] == x);
        assert(t.push(x).drop_first() =~= Seq::<TrackFileV>::empty());
        assert(scan_album_files(s, album_id, t) == s);
        let st = track_step(s, album_id, x);
        assert(scan_album_files(st, album_id, t.push(x).drop_first()) == st);
    } else {
        assert(t.push(x)[0] == t[0]);
        assert(t.push(x).drop_first() =~= t.drop_first().push(x));
        let st = track_step(s, album_id, t[0]);
        assert(scan_album_files(s, album_id, t) == scan_album_files(st, album_id, t.drop_first()));
        lemma_scan_album_files_snoc(st, album_id, t.drop_first(), x);
    }
}

proof fn lemma_scan_artist_albums_snoc(
    s: ScanStateV,
    artist_id: int,
    parent_path: Seq<char>,
    t: Seq<AlbumDirV>,
    x: AlbumDirV,
)
    ensures
        scan_artist_albums(s, artist_id, parent_path, t.push(x)) == album_step(
            scan_artist_albums(s, artist_id, parent_path, t),
            artist_id,
            parent_path,
            x,
        ),
    decreases t.len(),
{
    if t.len() == 0 {
        assert(t.push(x)[0] == x);
        assert(t.push(x).drop_first() =~= Seq::<AlbumDirV>::empty());
        assert(scan_artist_albums(s, artist_id, parent_path, t) == s);
        let st = album_step(s, artist_id, parent_path, x);
        assert(scan_artist_albums(st, artist_id, parent_path, t.push(x).drop_first()) == st);
    } else {
        assert(t.push(x)[0] == t[0]);
        assert(t.push(x).drop_first() =~= t.drop_first().push(x));
        let st = album_step(s, artist_id, parent_path, t[0]);
        assert(scan_artist_albums(s, artist_id, parent_path, t) == scan_artist_albums(
            st,
            artist_id,
            parent_path,
            t.drop_first(),
        ));
        lemma_scan_artist_albums_snoc(st, artist_id, parent_path, t.drop_first(), x);
    }
}

proof fn lemma_scan_library_dirs_snoc(
    s: ScanStateV,
    root_path: Seq<char>,
    t: Seq<ArtistDirV>,
    x: ArtistDirV,
)
    ensures
        scan_library_dirs(s, root_path, t.push(x)) == artist_step(
            scan_library_dirs(s, root_path, t),
            root_path,
            x,
        ),
    decreases t.len(),
{
    if t.len() == 0 {
        assert(t.push(x)[0] == x);
        assert(t.push(x).drop_first() =~= Seq::<ArtistDirV>::empty());
        assert(scan_library_dirs(s, root_path, t) == s);
        let st = artist_step(s, root_path, x);
        assert(scan_library_dirs(st, root_path, t.push(x).drop_first()) == st);
    } else {
        assert(t.push(x)[0] == t[0]);
        assert(t.push(x).drop_first() =~= t.drop_first().push(x));
        let st = artist_step(s, root_path, t[0]);
        assert(scan_library_dirs(s, root_path, t) == scan_library_dirs(st, root_path, t.drop_first()));
        lemma_scan_library_dirs_snoc(st, root_path, t.drop_first(), x);
    }
}

// ---------- how many rows a snapshot can create ----------

/// Number of files across a sequence of album directories.
pub open spec fn total_files(albums: Seq<AlbumDirV>) -> int
    decreases albums.len(),
{
    if albums.len() == 0 {
        0
    } else {
        total_files(albums.drop_last()) + albums.last().files.len()
    }
}

/// Number of album directories across a sequence of artist directories.
pub open spec fn total_albums(dirs: Seq<ArtistDirV>) -> int
    decreases dirs.len(),
{
    if dirs.len() == 0 {
        0
    } else {
        total_albums(dirs.drop_last()) + dirs.last().albums.len()
    }
}

/// Number of files across the album directories of a sequence of artist
/// directories.
pub open spec fn total_tracks(dirs: Seq<ArtistDirV>) -> int
    decreases dirs.len(),
{
    if dirs.len() == 0 {
        0
    } else {
        total_tracks(dirs.drop_last()) + total_files(dirs.last().albums)
    }
}

proof fn lemma_total_files_nonneg(s: Seq<AlbumDirV>)
    ensures
        total_files(s) >= 0,
    decreases s.len(),
{
    if s.len() > 0 {
        lemma_total_files_nonneg(s.drop_last());
    }
}

proof fn lemma_total_files_take(s: Seq<AlbumDirV>, k: int)
    requires
        0 <= k < s.len(),
    ensures
        total_files(s.take(k + 1)) == total_files(s.take(k)) + s[k].files.len(),
{
    assert(s.take(k + 1).drop_last() =~= s.take(k));
    assert(s.take(k + 1).last() == s[k]);
}

proof fn lemma_total_files_mono(s: Seq<AlbumDirV>, k: int)
    requires
        0 <= k <= s.len(),
    ensures
        total_files(s.take(k)) <= total_files(s),
    decreases s.len(),
{
    if k == s.len() {
        assert(s.take(k) =~= s);
    } else {
        assert(s.take(k) =~= s.drop_last().take(k));
        lemma_total_files_mono(s.drop_last(), k);
    }
}

proof fn lemma_total_albums_take(s: Seq<ArtistDirV>, k: int)
    requires
        0 <= k < s.len(),
    ensures
        total_albums(s.take(k + 1)) == total_albums(s.take(k)) + s[k].albums.len(),
{
    assert(s.take(k + 1).drop_last() =~= s.take(k));
    assert(s.take(k + 1).last() == s[k]);
}

proof fn lemma_total_albums_mono(s: Seq<ArtistDirV>, k: int)
    requires
        0 <= k <= s.len(),
    ensures
        total_albums(s.take(k)) <= total_albums(s),
    decreases s.len(),
{
    if k == s.len() {
        assert(s.take(k) =~= s);
    } else {
        assert(s.take(k) =~= s.drop_last().take(k));
        lemma_total_albums_mono(s.drop_last(), k);
    }
}

proof fn lemma_total_tracks_take(s: Seq<ArtistDirV>, k: int)
    requires
        0 <= k < s.len(),
    ensures
        total_tracks(s.take(k + 1)) == total_tracks(s.take(k)) + total_files(s[k].albums),
{
    assert(s.take(k + 1).drop_last() =~= s.take(k));
    assert(s.take(k + 1).last() == s[k]);
}

proof fn lemma_total_tracks_mono(s: Seq<ArtistDirV>, k: int)
    requires
        0 <= k <= s.len(),
    ensures
        total_tracks(s.take(k)) <= total_tracks(s),
    decreases s.len(),
{
    if k == s.len() {
        assert(s.take(k) =~= s);
    } else {
        assert(s.take(k) =~= s.drop_last().take(k));
        lemma_total_tracks_mono(s.drop_last(), k);
        lemma_total_files_nonneg(s.last().albums);
    }
}

proof fn lemma_strs_push(s: Seq<String>, x: String)
    ensures
        views_of(s.push(x)) =~= views_of(s).push(x@),
{
}

proof fn lemma_ids_push(s: Seq<i32>, x: i32)
    ensures
        ids_view(s.push(x)) =~= ids_view(s).push(x as int),
{
}

// ---------- the model preserves well-formedness ----------

proof fn lemma_track_step_wf(s: ScanStateV, album_id: int, f: TrackFileV)
    requires
        s.catalog.wf(),
        has_album_id(s.catalog, album_id),
    ensures
        ({
            let r = track_step(s, album_id, f);
            &&& r.catalog.wf()
            &&& has_album_id(r.catalog, album_id)
            &&& r.catalog.artists == s.catalog.artists
            &&& r.catalog.albums == s.catalog.albums
            &&& r.catalog.next_artist_id == s.catalog.next_artist_id
            &&& r.catalog.next_album_id == s.catalog.next_album_id
        }),
{
    let r = track_step(s, album_id, f);
    if !hidden_name(f.name) && audio_file_name(f.name) {
        match parse_track_spec(stem_of(f.name)) {
            None => {},
            Some(ti) => {
                if !has_track_title(s.catalog, album_id, ti.title) {
                    crate::catalog::lemma_create_track_wf(
                        s.catalog,
                        ti.title,
                        f.path,
                        ti.track_number,
                        f.duration,
                        album_id,
                    );
                }
            },
        }
    }
    let k = choose|k: int|
        0 <= k < s.catalog.albums.len() && (#[trigger] s.catalog.albums[k]).id == album_id;
    assert(0 <= k < r.catalog.albums.len() && r.catalog.albums[k].id == album_id);
}

proof fn lemma_scan_album_files_wf(s: ScanStateV, album_id: int, files: Seq<TrackFileV>)
    requires
        s.catalog.wf(),
        has_album_id(s.catalog, album_id),
    ensures
        ({
            let r = scan_album_files(s, album_id, files);
            &&& r.catalog.wf()
            &&& r.catalog.artists == s.catalog.artists
            &&& r.catalog.albums == s.catalog.albums
            &&& r.catalog.next_artist_id == s.catalog.next_artist_id
            &&& r.catalog.next_album_id == s.catalog.next_album_id
        }),
    decreases files.len(),
{
    if files.len() > 0 {
        lemma_track_step_wf(s, album_id, files[0]);
        lemma_scan_album_files_wf(track_step(s, album_id, files[0]), album_id, files.drop_first());
    }
}

proof fn lemma_album_step_wf(s: ScanStateV, artist_id: int, parent_path: Seq<char>, d: AlbumDirV)
    requires
        s.catalog.wf(),
        has_artist_id(s.catalog, artist_id),
    ensures
        ({
            let r = album_step(s, artist_id, parent_path, d);
            &&& r.catalog.wf()
            &&& has_artist_id(r.catalog, artist_id)
            &&& r.catalog.artists == s.catalog.artists
            &&& r.catalog.next_artist_id == s.catalog.next_artist_id
        }),
{
    let r = album_step(s, artist_id, parent_path, d);
    if !hidden_name(d.name) && album_name_matches(d.name) {
        let title = album_title_of(d.name);
        let idx = album_idx_by_title(s.catalog, title);
        crate::catalog::lemma_first_match_properties(
            s.catalog.albums,
            |a: crate::catalog::AlbumV| a.title == title,
        );
        if idx >= 0 {
            assert(has_album_id(s.catalog, s.catalog.albums[idx].id)) by {
                assert(0 <= idx < s.catalog.albums.len());
            }
            lemma_scan_album_files_wf(s, s.catalog.albums[idx].id, d.files);
        } else {
            let id = s.catalog.next_album_id;
            crate::catalog::lemma_create_album_wf(
                s.catalog,
                title,
                parent_path,
                album_year_of(d.name),
                artist_id,
            );
            let c1 = spec_create_album(s.catalog, title, parent_path, album_year_of(d.name), artist_id);
            let s1 = ScanStateV {
                catalog: c1,
                report: ReportV { created_albums: s.report.created_albums.push(id), ..s.report },
            };
            assert(has_album_id(c1, id)) by {
                assert(c1.albums[c1.albums.len() - 1].id == id);
            }
            lemma_scan_album_files_wf(s1, id, d.files);
        }
    }
    let k = choose|k: int|
        0 <= k < s.catalog.artists.len() && (#[trigger] s.catalog.artists[k]).id == artist_id;
    assert(0 <= k < r.catalog.artists.len() && r.catalog.artists[k].id == artist_id);
}

proof fn lemma_scan_artist_albums_wf(
    s: ScanStateV,
    artist_id: int,
    parent_path: Seq<char>,
    dirs: Seq<AlbumDirV>,
)
    requires
        s.catalog.wf(),
        has_artist_id(s.catalog, artist_id),
    ensures
        ({
            let r = scan_artist_albums(s, artist_id, parent_path, dirs);
            &&& r.catalog.wf()
            &&& r.catalog.artists == s.catalog.artists
            &&& r.catalog.next_artist_id == s.catalog.next_artist_id
        }),
    decreases dirs.len(),
{
    if dirs.len() > 0 {
        lemma_album_step_wf(s, artist_id, parent_path, dirs[0]);
        lemma_scan_artist_albums_wf(
            album_step(s, artist_id, parent_path, dirs[0]),
            artist_id,
            parent_path,
            dirs.drop_first(),
        );
    }
}

proof fn lemma_artist_step_wf(s: ScanStateV, root_path: Seq<char>, d: ArtistDirV)
    requires
        s.catalog.wf(),
    ensures
        artist_step(s, root_path, d).catalog.wf(),
{
    if !hidden_name(d.name) {
        let fp = fingerprint_of(d.files_beneath);
        let idx = artist_idx_by_name(s.catalog, d.name);
        crate::catalog::lemma_first_match_properties(
            s.catalog.artists,
            |a: crate::catalog::ArtistV| a.name == d.name,
        );
        if idx >= 0 {
            let a = s.catalog.artists[idx];
            if a.checksum != Some(fp) {
                crate::catalog::lemma_set_artist_checksum_wf(s.catalog, a.id, fp);
                let c1 = spec_set_artist_checksum(s.catalog, a.id, fp);
                let s1 = ScanStateV {
                    catalog: c1,
                    report: ReportV {
                        updated_artists: s.report.updated_artists.push(a.id),
                        ..s.report
                    },
                };
                assert(has_artist_id(c1, a.id)) by {
                    assert(c1.artists[idx].id == a.id);
                }
                lemma_scan_artist_albums_wf(s1, a.id, d.path, d.albums);
            }
        } else {
            let id = s.catalog.next_artist_id;
            crate::catalog::lemma_create_artist_wf(s.catalog, d.name, root_path, Some(fp));
            let c1 = spec_create_artist(s.catalog, d.name, root_path, Some(fp));
            let s1 = ScanStateV {
                catalog: c1,
                report: ReportV { created_artists: s.report.created_artists.push(id), ..s.report },
            };
            assert(has_artist_id(c1, id)) by {
                assert(c1.artists[c1.artists.len() - 1].id == id);
            }
            lemma_scan_artist_albums_wf(s1, id, d.path, d.albums);
        }
    }
}

/// Natural-key uniqueness: a scan leaves the catalog well-formed, so no two
/// artists share a name, no two albums share a title, and no two tracks of
/// one album share a title, whatever the snapshot held.
pub proof fn lemma_scan_preserves_wf(s: ScanStateV, root_path: Seq<char>, dirs: Seq<ArtistDirV>)
    requires
        s.catalog.wf(),
    ensures
        scan_library_dirs(s, root_path, dirs).catalog.wf(),
    decreases dirs.len(),
{
    if dirs.len() > 0 {
        lemma_artist_step_wf(s, root_path, dirs[0]);
        lemma_scan_preserves_wf(artist_step(s, root_path, dirs[0]), root_path, dirs.drop_first());
    }
}

// ---------- idempotence ----------

/// An artist directory is recorded in the catalog when an artist row carries
/// its name and the fingerprint of its current subtree.
pub open spec fn dir_recorded(c: CatalogV, d: ArtistDirV) -> bool {
    exists|k: int|
        0 <= k < c.artists.len() && (#[trigger] c.artists[k]).name == d.name && c.artists[k].checksum
            == Some(fingerprint_of(d.files_beneath))
}

/// No two non-hidden artist directories share a name, as the immediate
/// children of one directory never do on a filesystem.
pub open spec fn distinct_visible_names(dirs: Seq<ArtistDirV>) -> bool {
    forall|i: int, j: int|
        #![trigger dirs[i], dirs[j]]
        0 <= i < j < dirs.len() && !hidden_name(dirs[i].name) && !hidden_name(dirs[j].name)
            ==> dirs[i].name != dirs[j].name
}

/// How many of the directories are not hidden.
pub open spec fn visible_count(dirs: Seq<ArtistDirV>) -> int
    decreases dirs.len(),
{
    if dirs.len() == 0 {
        0
    } else {
        (if hidden_name(dirs[0].name) {
            0int
        } else {
            1int
        }) + visible_count(dirs.drop_first())
    }
}

proof fn lemma_artist_step_preserves_recorded(
    s: ScanStateV,
    root_path: Seq<char>,
    d: ArtistDirV,
    e: ArtistDirV,
)
    requires
        s.catalog.wf(),
        dir_recorded(s.catalog, e),
        hidden_name(d.name) || d.name != e.name,
    ensures
        dir_recorded(artist_step(s, root_path, d).catalog, e),
{
    let k = choose|k: int|
        0 <= k < s.catalog.artists.len() && (#[trigger] s.catalog.artists[k]).name == e.name
            && s.catalog.artists[k].checksum == Some(fingerprint_of(e.files_beneath));
    if !hidden_name(d.name) {
        let fp = fingerprint_of(d.files_beneath);
        let idx = artist_idx_by_name(s.catalog, d.name);
        crate::catalog::lemma_first_match_properties(
            s.catalog.artists,
            |a: crate::catalog::ArtistV| a.name == d.name,
        );
        if idx >= 0 {
            let a = s.catalog.artists[idx];
            if a.checksum == Some(fp) {
                assert(artist_step(s, root_path, d).catalog.artists[k] == s.catalog.artists[k]);
            } else {
                let c1 = spec_set_artist_checksum(s.catalog, a.id, fp);
                // The updated artist is the one named `d.name`, not `e`'s.
                assert(s.catalog.artists[k].id != a.id) by {
                    if s.catalog.artists[k].id == a.id {
                        if k < idx {
                            assert(s.catalog.artists[k].id != s.catalog.artists[idx].id);
                        } else if idx < k {
                            assert(s.catalog.artists[idx].id != s.catalog.artists[k].id);
                        }
                    }
                }
                assert(c1.artists[k] == s.catalog.artists[k]);
                assert(dir_recorded(c1, e));
                crate::catalog::lemma_set_artist_checksum_wf(s.catalog, a.id, fp);
                let s1 = ScanStateV {
                    catalog: c1,
                    report: ReportV {
                        updated_artists: s.report.updated_artists.push(a.id),
                        ..s.report
                    },
                };
                assert(has_artist_id(c1, a.id)) by {
                    assert(c1.artists[idx].id == a.id);
                }
                lemma_scan_artist_albums_wf(s1, a.id, d.path, d.albums);
                let r = scan_artist_albums(s1, a.id, d.path, d.albums);
                assert(r.catalog.artists == c1.artists);
                assert(r.catalog.artists[k] == s.catalog.artists[k]);
            }
        } else {
            let id = s.catalog.next_artist_id;
            crate::catalog::lemma_create_artist_wf(s.catalog, d.name, root_path, Some(fp));
            let c1 = spec_create_artist(s.catalog, d.name, root_path, Some(fp));
            assert(c1.artists[k] == s.catalog.artists[k]);
            let s1 = ScanStateV {
                catalog: c1,
                report: ReportV { created_artists: s.report.created_artists.push(id), ..s.report },
            };
            assert(has_artist_id(c1, id)) by {
                assert(c1.artists[c1.artists.len() - 1].id == id);
            }
            lemma_scan_artist_albums_wf(s1, id, d.path, d.albums);
            let r = scan_artist_albums(s1, id, d.path, d.albums);
            assert(r.catalog.artists[k] == s.catalog.artists[k]);
        }
    }
}

proof fn lemma_fold_preserves_recorded(
    s: ScanStateV,
    root_path: Seq<char>,
    dirs: Seq<ArtistDirV>,
    e: ArtistDirV,
)
    requires
        s.catalog.wf(),
        dir_recorded(s.catalog, e),
        forall|i: int|
            0 <= i < dirs.len() && !hidden_name((#[trigger] dirs[i]).name) ==> dirs[i].name
                != e.name,
    ensures
        dir_recorded(scan_library_dirs(s, root_path, dirs).catalog, e),
    decreases dirs.len(),
{
    if dirs.len() > 0 {
        lemma_artist_step_preserves_recorded(s, root_path, dirs[0], e);
        lemma_artist_step_wf(s, root_path, dirs[0]);
        let s1 = artist_step(s, root_path, dirs[0]);
        assert(forall|i: int|
            0 <= i < dirs.drop_first().len() && !hidden_name(
                (#[trigger] dirs.drop_first()[i]).name,
            ) ==> dirs.drop_first()[i].name != e.name);
        lemma_fold_preserves_recorded(s1, root_path, dirs.drop_first(), e);
    }
}

proof fn lemma_artist_step_records(s: ScanStateV, root_path: Seq<char>, d: ArtistDirV)
    requires
        s.catalog.wf(),
        !hidden_name(d.name),
    ensures
        dir_recorded(artist_step(s, root_path, d).catalog, d),
{
    let fp = fingerprint_of(d.files_beneath);
    let idx = artist_idx_by_name(s.catalog, d.name);
    crate::catalog::lemma_first_match_properties(
        s.catalog.artists,
        |a: crate::catalog::ArtistV| a.name == d.name,
    );
    if idx >= 0 {
        let a = s.catalog.artists[idx];
        if a.checksum == Some(fp) {
            assert(artist_step(s, root_path, d).catalog.artists[idx].name == d.name);
        } else {
            let c1 = spec_set_artist_checksum(s.catalog, a.id, fp);
            assert(c1.artists[idx].name == d.name && c1.artists[idx].checksum == Some(fp));
            crate::catalog::lemma_set_artist_checksum_wf(s.catalog, a.id, fp);
            let s1 = ScanStateV {
                catalog: c1,
                report: ReportV {
                    updated_artists: s.report.updated_artists.push(a.id),
                    ..s.report
                },
            };
            assert(has_artist_id(c1, a.id)) by {
                assert(c1.artists[idx].id == a.id);
            }
            lemma_scan_artist_albums_wf(s1, a.id, d.path, d.albums);
            let r = scan_artist_albums(s1, a.id, d.path, d.albums);
            assert(r.catalog.artists[idx].name == d.name && r.catalog.artists[idx].checksum
                == Some(fp));
        }
    } else {
        let id = s.catalog.next_artist_id;
        crate::catalog::lemma_create_artist_wf(s.catalog, d.name, root_path, Some(fp));
        let c1 = spec_create_artist(s.catalog, d.name, root_path, Some(fp));
        let kk = c1.artists.len() - 1;
        assert(c1.artists[kk].name == d.name && c1.artists[kk].checksum == Some(fp));
        let s1 = ScanStateV {
            catalog: c1,
            report: ReportV { created_artists: s.report.created_artists.push(id), ..s.report },
        };
        assert(has_artist_id(c1, id)) by {
            assert(c1.artists[kk].id == id);
        }
        lemma_scan_artist_albums_wf(s1, id, d.path, d.albums);
        let r = scan_artist_albums(s1, id, d.path, d.albums);
        assert(r.catalog.artists[kk].name == d.name && r.catalog.artists[kk].checksum == Some(fp));
    }
}

proof fn lemma_scan_records(s: ScanStateV, root_path: Seq<char>, dirs: Seq<ArtistDirV>)
    requires
        s.catalog.wf(),
        distinct_visible_names(dirs),
    ensures
        ({
            let r = scan_library_dirs(s, root_path, dirs);
            &&& r.catalog.wf()
            &&& forall|i: int|
                0 <= i < dirs.len() && !hidden_name((#[trigger] dirs[i]).name) ==> dir_recorded(
                    r.catalog,
                    dirs[i],
                )
        }),
    decreases dirs.len(),
{
    lemma_scan_preserves_wf(s, root_path, dirs);
    if dirs.len() > 0 {
        lemma_artist_step_wf(s, root_path, dirs[0]);
        let s1 = artist_step(s, root_path, dirs[0]);
        let rest = dirs.drop_first();
        assert(distinct_visible_names(rest)) by {
            assert forall|i: int, j: int|
                #![trigger rest[i], rest[j]]
                0 <= i < j < rest.len() && !hidden_name(rest[i].name) && !hidden_name(
                    rest[j].name,
                ) implies rest[i].name != rest[j].name by {
                assert(rest[i] == dirs[i + 1] && rest[j] == dirs[j + 1]);
            }
        }
        lemma_scan_records(s1, root_path, rest);
        let r = scan_library_dirs(s, root_path, dirs);
        assert(r == scan_library_dirs(s1, root_path, rest));
        if !hidden_name(dirs[0].name) {
            lemma_artist_step_records(s, root_path, dirs[0]);
            assert(forall|i: int|
                0 <= i < rest.len() && !hidden_name((#[trigger] rest[i]).name) ==> rest[i].name
                    != dirs[0].name) by {
                assert forall|i: int|
                    0 <= i < rest.len() && !hidden_name((#[trigger] rest[i]).name) implies
                    rest[i].name != dirs[0].name by {
                    assert(rest[i] == dirs[i + 1]);
                }
            }
            lemma_fold_preserves_recorded(s1, root_path, rest, dirs[0]);
        }
        assert forall|i: int|
            0 <= i < dirs.len() && !hidden_name((#[trigger] dirs[i]).name) implies dir_recorded(
                r.catalog,
                dirs[i],
            ) by {
            if i > 0 {
                assert(dirs[i] == rest[i - 1]);
            }
        }
    }
}

proof fn lemma_fresh_scan_skips(s: ScanStateV, root_path: Seq<char>, dirs: Seq<ArtistDirV>)
    requires
        s.catalog.wf(),
        forall|i: int|
            0 <= i < dirs.len() && !hidden_name((#[trigger] dirs[i]).name) ==> dir_recorded(
                s.catalog,
                dirs[i],
            ),
    ensures
        ({
            let r = scan_library_dirs(s, root_path, dirs);
            &&& r.catalog == s.catalog
            &&& r.report.created_artists == s.report.created_artists
            &&& r.report.updated_artists == s.report.updated_artists
            &&& r.report.created_albums == s.report.created_albums
            &&& r.report.created_tracks == s.report.created_tracks
            &&& r.report.album_failures == s.report.album_failures
            &&& r.report.track_failures == s.report.track_failures
            &&& r.report.skipped_artists.len() == s.report.skipped_artists.len() + visible_count(
                dirs,
            )
        }),
    decreases dirs.len(),
{
    if dirs.len() > 0 {
        let d = dirs[0];
        let s1 = artist_step(s, root_path, d);
        if !hidden_name(d.name) {
            let fp = fingerprint_of(d.files_beneath);
            let idx = artist_idx_by_name(s.catalog, d.name);
            crate::catalog::lemma_first_match_properties(
                s.catalog.artists,
                |a: crate::catalog::ArtistV| a.name == d.name,
            );
            let k = choose|k: int|
                0 <= k < s.catalog.artists.len() && (#[trigger] s.catalog.artists[k]).name == d.name
                    && s.catalog.artists[k].checksum == Some(fingerprint_of(d.files_beneath));
            assert(idx >= 0);
            assert(s.catalog.artists[idx].name == d.name);
            // Unique names: the found artist is the recorded one.
            assert(k == idx) by {
                if k < idx {
                    assert(s.catalog.artists[k].name != s.catalog.artists[idx].name);
                } else if idx < k {
                    assert(s.catalog.artists[idx].name != s.catalog.artists[k].name);
                }
            }
            assert(s.catalog.artists[idx].checksum == Some(fp));
            assert(s1.catalog == s.catalog);
            assert(s1.report.skipped_artists.len() == s.report.skipped_artists.len() + 1);
        } else {
            assert(s1 == s);
        }
        assert(forall|i: int|
            0 <= i < dirs.drop_first().len() && !hidden_name(
                (#[trigger] dirs.drop_first()[i]).name,
            ) ==> dir_recorded(s1.catalog, dirs.drop_first()[i]));
        lemma_fresh_scan_skips(s1, root_path, dirs.drop_first());
    }
}

/// Idempotence: after one scan of a tree whose non-hidden artist directories
/// carry distinct names, scanning the unchanged tree again leaves the catalog
/// exactly as it was — no row is created, no artist updated — and every
/// non-hidden artist directory takes the fingerprint fast path and is
/// skipped.
pub proof fn lemma_scan_idempotent(
    s: ScanStateV,
    second_report: ReportV,
    root_path: Seq<char>,
    dirs: Seq<ArtistDirV>,
)
    requires
        s.catalog.wf(),
        distinct_visible_names(dirs),
    ensures
        ({
            let first = scan_library_dirs(s, root_path, dirs);
            let second = scan_library_dirs(
                ScanStateV { catalog: first.catalog, report: second_report },
                root_path,
                dirs,
            );
            &&& second.catalog == first.catalog
            &&& second.report.created_artists == second_report.created_artists
            &&& second.report.updated_artists == second_report.updated_artists
            &&& second.report.created_albums == second_report.created_albums
            &&& second.report.created_tracks == second_report.created_tracks
            &&& second.report.album_failures == second_report.album_failures
            &&& second.report.track_failures == second_report.track_failures
            &&& second.report.skipped_artists.len() == second_report.skipped_artists.len()
                + visible_count(dirs)
        }),
{
    lemma_scan_records(s, root_path, dirs);
    let first = scan_library_dirs(s, root_path, dirs);
    lemma_fresh_scan_skips(
        ScanStateV { catalog: first.catalog, report: second_report },
        root_path,
        dirs,
    );
}

// ---------- the executable scan: track level ----------

/// Reconcile the files of one album directory against the catalog, exactly
/// as the `scan_album_files` model prescribes.
pub fn scan_album(catalog: &mut Catalog, report: &mut ScanReport, album_id: i32, files: &Vec<
    TrackFile,
>)
    requires
        old(catalog)@.wf(),
        has_album_id(old(catalog)@, album_id as int),
        old(catalog)@.next_track_id + files@.len() <= i32::MAX as int + 1,
    ensures
        ({
            let st = scan_album_files(
                ScanStateV { catalog: old(catalog)@, report: old(report)@ },
                album_id as int,
                track_files_view(files@),
            );
            final(catalog)@ == st.catalog && final(report)@ == st.report
        }),
        final(catalog)@.wf(),
        final(catalog)@.artists == old(catalog)@.artists,
        final(catalog)@.albums == old(catalog)@.albums,
        final(catalog)@.next_artist_id == old(catalog)@.next_artist_id,
        final(catalog)@.next_album_id == old(catalog)@.next_album_id,
        old(catalog)@.next_track_id <= final(catalog)@.next_track_id <= old(
            catalog,
        )@.next_track_id + files@.len(),
{
    let ghost s0 = ScanStateV { catalog: old(catalog)@, report: old(report)@ };
    let ghost fv = track_files_view(files@);
    let n = files.len();
    proof {
        assert(fv.take(0) =~= Seq::<TrackFileV>::empty());
    }
    let mut k: usize = 0;
    while k < n
        invariant
            0 <= k <= n,
            n == files@.len(),
            fv == track_files_view(files@),
            (ScanStateV { catalog: catalog@, report: report@ }) == scan_album_files(
                s0,
                album_id as int,
                fv.take(k as int),
            ),
            catalog@.wf(),
            has_album_id(catalog@, album_id as int),
            catalog@.artists == s0.catalog.artists,
            catalog@.albums == s0.catalog.albums,
            catalog@.next_artist_id == s0.catalog.next_artist_id,
            catalog@.next_album_id == s0.catalog.next_album_id,
            s0.catalog.next_track_id <= catalog@.next_track_id <= s0.catalog.next_track_id + k,
            s0.catalog.next_track_id + n <= i32::MAX as int + 1,
        decreases n - k,
    {
        let ghost pre = ScanStateV { catalog: catalog@, report: report@ };
        proof {
            lemma_scan_album_files_snoc(s0, album_id as int, fv.take(k as int), fv[k as int]);
            assert(fv.take(k + 1) =~= fv.take(k as int).push(fv[k as int]));
        }
        let hidden = is_hidden(files[k].name.as_str());
        if !hidden && is_audio_file(files[k].name.as_str()) {
            match get_filename_stem(files[k].name.as_str()) {
                None => {
                    proof {
                        assert(false);
                    }
                },
                Some(stem) => {
                    proof {
                        assert(stem@ == stem_of(fv[k as int].name));
                    }
                    match parse_track(stem.as_str()) {
                        None => {
                            let nm = files[k].name.clone();
                            proof {
                                lemma_strs_push(report.track_failures@, nm);
                            }
                            report.track_failures.push(nm);
                        },
                        Some(ti) => {
                            if catalog.track_title_exists(album_id, ti.title.as_str()) {
                            } else {
                                let path = files[k].path.clone();
                                let duration = files[k].duration;
                                let ghost expect_id = catalog@.next_track_id;
                                let id = catalog.create_track(
                                    ti.title,
                                    path,
                                    ti.track_number,
                                    duration,
                                    album_id,
                                );
                                proof {
                                    lemma_ids_push(report.created_tracks@, id);
                                    assert(id as int == expect_id);
                                }
                                report.created_tracks.push(id);
                            }
                        },
                    }
                },
            }
        }
        proof {
            assert(ScanStateV { catalog: catalog@, report: report@ } == track_step(
                pre,
                album_id as int,
                fv[k as int],
            ));
            let kk = choose|kk: int|
                0 <= kk < pre.catalog.albums.len() && (#[trigger] pre.catalog.albums[kk]).id
                    == album_id as int;
            assert(0 <= kk < catalog@.albums.len() && catalog@.albums[kk].id == album_id as int);
        }
        k = k + 1;
    }
    proof {
        assert(fv.take(n as int) =~= fv);
    }
}

// ---------- the executable scan: album level ----------

/// Reconcile the immediate subdirectories of one artist directory against
/// the catalog, exactly as the `scan_artist_albums` model prescribes.
pub fn scan_artist(
    catalog: &mut Catalog,
    report: &mut ScanReport,
    artist_id: i32,
    parent_path: &str,
    dirs: &Vec<AlbumDir>,
)
    requires
        old(catalog)@.wf(),
        has_artist_id(old(catalog)@, artist_id as int),
        old(catalog)@.next_album_id + dirs@.len() <= i32::MAX as int + 1,
        old(catalog)@.next_track_id + total_files(album_dirs_view(dirs@)) <= i32::MAX as int + 1,
    ensures
        ({
            let st = scan_artist_albums(
                ScanStateV { catalog: old(catalog)@, report: old(report)@ },
                artist_id as int,
                parent_path@,
                album_dirs_view(dirs@),
            );
            final(catalog)@ == st.catalog && final(report)@ == st.report
        }),
        final(catalog)@.wf(),
        final(catalog)@.artists == old(catalog)@.artists,
        final(catalog)@.next_artist_id == old(catalog)@.next_artist_id,
        old(catalog)@.next_album_id <= final(catalog)@.next_album_id <= old(
            catalog,
        )@.next_album_id + dirs@.len(),
        old(catalog)@.next_track_id <= final(catalog)@.next_track_id <= old(
            catalog,
        )@.next_track_id + total_files(album_dirs_view(dirs@)),
{
    let ghost s0 = ScanStateV { catalog: old(catalog)@, report: old(report)@ };
    let ghost dv = album_dirs_view(dirs@);
    let n = dirs.len();
    proof {
        assert(dv.take(0) =~= Seq::<AlbumDirV>::empty());
    }
    let mut k: usize = 0;
    while k < n
        invariant
            0 <= k <= n,
            n == dirs@.len(),
            dv == album_dirs_view(dirs@),
            (ScanStateV { catalog: catalog@, report: report@ }) == scan_artist_albums(
                s0,
                artist_id as int,
                parent_path@,
                dv.take(k as int),
            ),
            catalog@.wf(),
            has_artist_id(catalog@, artist_id as int),
            catalog@.artists == s0.catalog.artists,
            catalog@.next_artist_id == s0.catalog.next_artist_id,
            s0.catalog.next_album_id <= catalog@.next_album_id <= s0.catalog.next_album_id + k,
            s0.catalog.next_track_id <= catalog@.next_track_id <= s0.catalog.next_track_id
                + total_files(dv.take(k as int)),
            s0.catalog.next_album_id + n <= i32::MAX as int + 1,
            s0.catalog.next_track_id + total_files(dv) <= i32::MAX as int + 1,
        decreases n - k,
    {
        let ghost pre = ScanStateV { catalog: catalog@, report: report@ };
        proof {
            lemma_scan_artist_albums_snoc(
                s0,
                artist_id as int,
                parent_path@,
                dv.take(k as int),
                dv[k as int],
            );
            assert(dv.take(k + 1) =~= dv.take(k as int).push(dv[k as int]));
            lemma_total_files_take(dv, k as int);
            lemma_total_files_mono(dv, k + 1);
            lemma_total_files_nonneg(dv.take(k as int));
        }
        if !is_hidden(dirs[k].name.as_str()) {
            match parse_album(dirs[k].name.as_str()) {
                None => {
                    let nm = dirs[k].name.clone();
                    proof {
                        lemma_strs_push(report.album_failures@, nm);
                    }
                    report.album_failures.push(nm);
                },
                Some(an) => {
                    match catalog.find_album_by_title(an.title.as_str()) {
                        Some(existing_id) => {
                            proof {
                                let idx = album_idx_by_title(pre.catalog, an.title@);
                                assert(0 <= idx < catalog@.albums.len() && catalog@.albums[idx].id
                                    == existing_id as int);
                            }
                            scan_album(catalog, report, existing_id, &dirs[k].files);
                        },
                        None => {
                            let ghost expect_id = catalog@.next_album_id;
                            let id = catalog.create_album(
                                an.title,
                                parent_path.to_owned(),
                                an.year,
                                artist_id,
                            );
                            proof {
                                lemma_ids_push(report.created_albums@, id);
                                assert(id as int == expect_id);
                                assert(catalog@.albums[catalog@.albums.len() - 1].id
                                    == id as int);
                            }
                            report.created_albums.push(id);
                            scan_album(catalog, report, id, &dirs[k].files);
                        },
                    }
                },
            }
        }
        proof {
            assert(ScanStateV { catalog: catalog@, report: report@ } == album_step(
                pre,
                artist_id as int,
                parent_path@,
                dv[k as int],
            ));
            let kk = choose|kk: int|
                0 <= kk < pre.catalog.artists.len() && (#[trigger] pre.catalog.artists[kk]).id
                    == artist_id as int;
            assert(0 <= kk < catalog@.artists.len() && catalog@.artists[kk].id == artist_id as int);
        }
        k = k + 1;
    }
    proof {
        assert(dv.take(n as int) =~= dv);
    }
}

// ---------- the executable scan: library level ----------

/// Reconcile every immediate subdirectory of the library root against the
/// catalog, exactly as the `scan_library_dirs` model prescribes: the whole
/// scan the trigger interface asks for.
pub fn scan_library(
    catalog: &mut Catalog,
    report: &mut ScanReport,
    root_path: &str,
    dirs: &Vec<ArtistDir>,
)
    requires
        old(catalog)@.wf(),
        old(catalog)@.next_artist_id + dirs@.len() <= i32::MAX as int + 1,
        old(catalog)@.next_album_id + total_albums(artist_dirs_view(dirs@)) <= i32::MAX as int + 1,
        old(catalog)@.next_track_id + total_tracks(artist_dirs_view(dirs@)) <= i32::MAX as int + 1,
    ensures
        ({
            let st = scan_library_dirs(
                ScanStateV { catalog: old(catalog)@, report: old(report)@ },
                root_path@,
                artist_dirs_view(dirs@),
            );
            final(catalog)@ == st.catalog && final(report)@ == st.report
        }),
        final(catalog)@.wf(),
{
    let ghost s0 = ScanStateV { catalog: old(catalog)@, report: old(report)@ };
    let ghost dv = artist_dirs_view(dirs@);
    let n = dirs.len();
    proof {
        assert(dv.take(0) =~= Seq::<ArtistDirV>::empty());
    }
    let mut k: usize = 0;
    while k < n
        invariant
            0 <= k <= n,
            n == dirs@.len(),
            dv == artist_dirs_view(dirs@),
            (ScanStateV { catalog: catalog@, report: report@ }) == scan_library_dirs(
                s0,
                root_path@,
                dv.take(k as int),
            ),
            catalog@.wf(),
            s0.catalog.next_artist_id <= catalog@.next_artist_id <= s0.catalog.next_artist_id + k,
            s0.catalog.next_album_id <= catalog@.next_album_id <= s0.catalog.next_album_id
                + total_albums(dv.take(k as int)),
            s0.catalog.next_track_id <= catalog@.next_track_id <= s0.catalog.next_track_id
                + total_tracks(dv.take(k as int)),
            s0.catalog.next_artist_id + n <= i32::MAX as int + 1,
            s0.catalog.next_album_id + total_albums(dv) <= i32::MAX as int + 1,
            s0.catalog.next_track_id + total_tracks(dv) <= i32::MAX as int + 1,
        decreases n - k,
    {
        let ghost pre = ScanStateV { catalog: catalog@, report: report@ };
        proof {
            lemma_scan_library_dirs_snoc(s0, root_path@, dv.take(k as int), dv[k as int]);
            assert(dv.take(k + 1) =~= dv.take(k as int).push(dv[k as int]));
            lemma_total_albums_take(dv, k as int);
            lemma_total_albums_mono(dv, k + 1);
            lemma_total_tracks_take(dv, k as int);
            lemma_total_tracks_mono(dv, k + 1);
            lemma_total_files_nonneg(dv[k as int].albums);
        }
        if !is_hidden(dirs[k].name.as_str()) {
            let fp = fingerprint(&dirs[k].files_beneath);
            match catalog.find_artist_by_name(dirs[k].name.as_str()) {
                Some(i) => {
                    let aid = catalog.artist_at(i).id;
                    let same = match &catalog.artist_at(i).checksum {
                        Some(cs) => crate::naming::str_eq(cs.as_str(), fp.as_str()),
                        None => false,
                    };
                    if same {
                        proof {
                            lemma_ids_push(report.skipped_artists@, aid);
                        }
                        report.skipped_artists.push(aid);
                    } else {
                        proof {
                            let idx = artist_idx_by_name(pre.catalog, dv[k as int].name);
                            assert(0 <= idx < catalog@.artists.len() && catalog@.artists[idx].id
                                == aid as int);
                            lemma_ids_push(report.updated_artists@, aid);
                        }
                        catalog.update_artist_checksum(aid, fp);
                        report.updated_artists.push(aid);
                        proof {
                            let idx = artist_idx_by_name(pre.catalog, dv[k as int].name);
                            assert(catalog@.artists[idx].id == aid as int);
                        }
                        scan_artist(catalog, report, aid, dirs[k].path.as_str(), &dirs[k].albums);
                    }
                },
                None => {
                    let ghost expect_id = catalog@.next_artist_id;
                    let aid = catalog.create_artist(
                        dirs[k].name.clone(),
                        root_path.to_owned(),
                        Some(fp),
                    );
                    proof {
                        lemma_ids_push(report.created_artists@, aid);
                        assert(aid as int == expect_id);
                        assert(catalog@.artists[catalog@.artists.len() - 1].id == aid as int);
                    }
                    report.created_artists.push(aid);
                    scan_artist(catalog, report, aid, dirs[k].path.as_str(), &dirs[k].albums);
                },
            }
        }
        proof {
            assert(ScanStateV { catalog: catalog@, report: report@ } == artist_step(
                pre,
                root_path@,
                dv[k as int],
            ));
        }
        k = k + 1;
    }
    proof {
        assert(dv.take(n as int) =~= dv);
    }
}

} // verus!
