//! The catalog: artists, albums and tracks with their natural keys, held in
//! memory as plain rows. The indexer reconciles a filesystem snapshot against
//! a `Catalog`; the surrounding service persists the rows. Well-formedness
//! (`CatalogV::wf`) pins down the natural-key uniqueness the indexer
//! guarantees: no two artists share a name, no two albums share a title, and
//! no two tracks of one album share a title.

use vstd::prelude::*;

verus! {

// ---------- rows and their mathematical images ----------

/// Mathematical image of an artist row.
pub ghost struct ArtistV {
    pub id: int,
    pub name: Seq<char>,
    pub path: Seq<char>,
    pub checksum: Option<Seq<char>>,
}

/// An artist row: the display name is the natural key; the checksum is the
/// fingerprint of the artist's subtree at the last successful scan, `None`
/// only before the first one.
pub struct Artist {
    pub id: i32,
    pub name: String,
    pub path: String,
    pub checksum: Option<String>,
}

/// The view of an optional string.
pub open spec fn opt_str_view(o: Option<String>) -> Option<Seq<char>> {
    match o {
        Some(s) => Some(s@),
        None => None,
    }
}

impl View for Artist {
    type V = ArtistV;

    open spec fn view(&self) -> ArtistV {
        ArtistV {
            id: self.id as int,
            name: self.name@,
            path: self.path@,
            checksum: opt_str_view(self.checksum),
        }
    }
}

impl Clone for Artist {
    fn clone(&self) -> (r: Self)
        ensures
            r@ == self@,
    {
        Artist {
            id: self.id,
            name: self.name.clone(),
            path: self.path.clone(),
            checksum: match &self.checksum {
                Some(s) => Some(s.clone()),
                None => None,
            },
        }
    }
}

/// Mathematical image of an album row.
pub ghost struct AlbumV {
    pub id: int,
    pub title: Seq<char>,
    pub path: Seq<char>,
    pub release_year: int,
    pub artist_id: int,
}

/// An album row: the title is the natural key within the catalog's album
/// listing; an album belongs to exactly one artist and is never reparented.
pub struct Album {
    pub id: i32,
    pub title: String,
    pub path: String,
    pub release_year: i32,
    pub artist_id: i32,
}

impl View for Album {
    type V = AlbumV;

    open spec fn view(&self) -> AlbumV {
        AlbumV {
            id: self.id as int,
            title: self.title@,
            path: self.path@,
            release_year: self.release_year as int,
            artist_id: self.artist_id as int,
        }
    }
}

impl Clone for Album {
    fn clone(&self) -> (r: Self)
        ensures
            r@ == self@,
    {
        Album {
            id: self.id,
            title: self.title.clone(),
            path: self.path.clone(),
            release_year: self.release_year,
            artist_id: self.artist_id,
        }
    }
}

/// Mathematical image of a track row.
pub ghost struct TrackV {
    pub id: int,
    pub title: Seq<char>,
    pub path: Seq<char>,
    pub track_number: int,
    pub duration: int,
    pub album_id: int,
}

/// A track row: the title is the natural key within one album's track
/// listing. The duration is carried through from the snapshot; extracting a
/// real one belongs to a future metadata collaborator, not to the indexer.
pub struct Track {
    pub id: i32,
    pub title: String,
    pub path: String,
    pub track_number: i32,
    pub duration: i32,
    pub album_id: i32,
}

impl View for Track {
    type V = TrackV;

    open spec fn view(&self) -> TrackV {
        TrackV {
            id: self.id as int,
            title: self.title@,
            path: self.path@,
            track_number: self.track_number as int,
            duration: self.duration as int,
            album_id: self.album_id as int,
        }
    }
}

impl Clone for Track {
    fn clone(&self) -> (r: Self)
        ensures
            r@ == self@,
    {
        Track {
            id: self.id,
            title: self.title.clone(),
            path: self.path.clone(),
            track_number: self.track_number,
            duration: self.duration,
            album_id: self.album_id,
        }
    }
}

// ---------- finding rows by key ----------

/// Index of the first element satisfying `pred`, or `-1` if none does.
pub open spec fn first_match<A>(s: Seq<A>, pred: spec_fn(A) -> bool) -> int
    decreases s.len(),
{
    if s.len() == 0 {
        -1
    } else if pred(s[0]) {
        0
    } else {
        let r = first_match(s.drop_first(), pred);
        if r < 0 {
            -1
        } else {
            r + 1
        }
    }
}

pub proof fn lemma_first_match_properties<A>(s: Seq<A>, pred: spec_fn(A) -> bool)
    ensures
        first_match(s, pred) == -1 ==> forall|i: int| 0 <= i < s.len() ==> !pred(#[trigger] s[i]),
        first_match(s, pred) >= 0 ==> 0 <= first_match(s, pred) < s.len() && pred(
            s[first_match(s, pred)],
        ) && forall|i: int| 0 <= i < first_match(s, pred) ==> !pred(#[trigger] s[i]),
    decreases s.len(),
{
    if s.len() > 0 && !pred(s[0]) {
        lemma_first_match_properties(s.drop_first(), pred);
        assert forall|i: int| 1 <= i < s.len() implies s.drop_first()[i - 1] == s[i] by {}
    }
}

pub proof fn lemma_first_match_at<A>(s: Seq<A>, pred: spec_fn(A) -> bool, k: int)
    requires
        0 <= k < s.len(),
        pred(s[k]),
        forall|i: int| 0 <= i < k ==> !pred(#[trigger] s[i]),
    ensures
        first_match(s, pred) == k,
    decreases k,
{
    if k > 0 {
        lemma_first_match_at(s.drop_first(), pred, k - 1);
    }
}

pub proof fn lemma_first_match_none<A>(s: Seq<A>, pred: spec_fn(A) -> bool)
    requires
        forall|i: int| 0 <= i < s.len() ==> !pred(#[trigger] s[i]),
    ensures
        first_match(s, pred) == -1,
    decreases s.len(),
{
    if s.len() > 0 {
        lemma_first_match_none(s.drop_first(), pred);
    }
}

// ---------- the catalog ----------

/// Mathematical image of the whole catalog.
pub ghost struct CatalogV {
    pub artists: Seq<ArtistV>,
    pub albums: Seq<AlbumV>,
    pub tracks: Seq<TrackV>,
    pub next_artist_id: int,
    pub next_album_id: int,
    pub next_track_id: int,
}

/// Index of the artist whose name is the natural key `name`, or `-1`.
pub open spec fn artist_idx_by_name(c: CatalogV, name: Seq<char>) -> int {
    first_match(c.artists, |a: ArtistV| a.name == name)
}

/// Index of the album whose title is the natural key `title`, or `-1`.
pub open spec fn album_idx_by_title(c: CatalogV, title: Seq<char>) -> int {
    first_match(c.albums, |a: AlbumV| a.title == title)
}

/// Index of the album carrying identifier `id`, or `-1`.
pub open spec fn album_idx_by_id(c: CatalogV, id: int) -> int {
    first_match(c.albums, |a: AlbumV| a.id == id)
}

pub open spec fn artists_have_id(s: Seq<ArtistV>, id: int) -> bool {
    exists|i: int| 0 <= i < s.len() && (#[trigger] s[i]).id == id
}

pub open spec fn albums_have_id(s: Seq<AlbumV>, id: int) -> bool {
    exists|i: int| 0 <= i < s.len() && (#[trigger] s[i]).id == id
}

pub open spec fn has_artist_id(c: CatalogV, id: int) -> bool {
    exists|i: int| 0 <= i < c.artists.len() && (#[trigger] c.artists[i]).id == id
}

pub open spec fn has_album_id(c: CatalogV, id: int) -> bool {
    exists|i: int| 0 <= i < c.albums.len() && (#[trigger] c.albums[i]).id == id
}

/// Whether some track of album `album_id` already carries `title`.
pub open spec fn has_track_title(c: CatalogV, album_id: int, title: Seq<char>) -> bool {
    exists|i: int|
        0 <= i < c.tracks.len() && (#[trigger] c.tracks[i]).album_id == album_id && c.tracks[i].title
            == title
}

impl CatalogV {
    /// Every identifier was assigned below the corresponding counter.
    pub open spec fn ids_ok(self) -> bool {
        &&& forall|i: int|
            0 <= i < self.artists.len() ==> 1 <= (#[trigger] self.artists[i]).id
                < self.next_artist_id
        &&& forall|i: int|
            0 <= i < self.albums.len() ==> 1 <= (#[trigger] self.albums[i]).id < self.next_album_id
        &&& forall|i: int|
            0 <= i < self.tracks.len() ==> 1 <= (#[trigger] self.tracks[i]).id < self.next_track_id
        &&& 1 <= self.next_artist_id
        &&& 1 <= self.next_album_id
        &&& 1 <= self.next_track_id
    }

    /// Natural keys and identifiers are unique: no two artists share a name,
    /// no two albums share a title, no two tracks of one album share a title.
    pub open spec fn keys_unique(self) -> bool {
        &&& forall|i: int, j: int|
            #![trigger self.artists[i], self.artists[j]]
            0 <= i < j < self.artists.len() ==> self.artists[i].name != self.artists[j].name
                && self.artists[i].id != self.artists[j].id
        &&& forall|i: int, j: int|
            #![trigger self.albums[i], self.albums[j]]
            0 <= i < j < self.albums.len() ==> self.albums[i].title != self.albums[j].title
                && self.albums[i].id != self.albums[j].id
        &&& forall|i: int, j: int|
            #![trigger self.tracks[i], self.tracks[j]]
            0 <= i < j < self.tracks.len() ==> self.tracks[i].id != self.tracks[j].id && (
            self.tracks[i].album_id == self.tracks[j].album_id ==> self.tracks[i].title
                != self.tracks[j].title)
    }

    /// Every album belongs to a present artist, every track to a present
    /// album.
    pub open spec fn links_ok(self) -> bool {
        &&& forall|i: int|
            0 <= i < self.albums.len() ==> has_artist_id(self, (#[trigger] self.albums[i]).artist_id)
        &&& forall|i: int|
            0 <= i < self.tracks.len() ==> has_album_id(self, (#[trigger] self.tracks[i]).album_id)
    }

    /// Catalog well-formedness: the invariant every gateway operation
    /// preserves.
    pub open spec fn wf(self) -> bool {
        self.ids_ok() && self.keys_unique() && self.links_ok()
    }
}

/// The catalog after a new artist row is appended under the next identifier.
pub open spec fn spec_create_artist(
    c: CatalogV,
    name: Seq<char>,
    path: Seq<char>,
    checksum: Option<Seq<char>>,
) -> CatalogV {
    CatalogV {
        artists: c.artists.push(
            ArtistV { id: c.next_artist_id, name: name, path: path, checksum: checksum },
        ),
        next_artist_id: c.next_artist_id + 1,
        ..c
    }
}

/// The catalog after the artist carrying `id` has its checksum replaced.
pub open spec fn spec_set_artist_checksum(c: CatalogV, id: int, checksum: Seq<char>) -> CatalogV {
    CatalogV {
        artists: c.artists.map_values(
            |a: ArtistV|
                if a.id == id {
                    ArtistV { checksum: Some(checksum), ..a }
                } else {
                    a
                },
        ),
        ..c
    }
}

/// The catalog after a new album row is appended under the next identifier.
pub open spec fn spec_create_album(
    c: CatalogV,
    title: Seq<char>,
    path: Seq<char>,
    release_year: int,
    artist_id: int,
) -> CatalogV {
    CatalogV {
        albums: c.albums.push(
            AlbumV {
                id: c.next_album_id,
                title: title,
                path: path,
                release_year: release_year,
                artist_id: artist_id,
            },
        ),
        next_album_id: c.next_album_id + 1,
        ..c
    }
}

/// The catalog after a new track row is appended under the next identifier.
pub open spec fn spec_create_track(
    c: CatalogV,
    title: Seq<char>,
    path: Seq<char>,
    track_number: int,
    duration: int,
    album_id: int,
) -> CatalogV {
    CatalogV {
        tracks: c.tracks.push(
            TrackV {
                id: c.next_track_id,
                title: title,
                path: path,
                track_number: track_number,
                duration: duration,
                album_id: album_id,
            },
        ),
        next_track_id: c.next_track_id + 1,
        ..c
    }
}

// ---------- well-formedness is preserved ----------

pub proof fn lemma_create_artist_wf(
    c: CatalogV,
    name: Seq<char>,
    path: Seq<char>,
    checksum: Option<Seq<char>>,
)
    requires
        c.wf(),
        artist_idx_by_name(c, name) == -1,
    ensures
        spec_create_artist(c, name, path, checksum).wf(),
{
    let d = spec_create_artist(c, name, path, checksum);
    lemma_first_match_properties(c.artists, |a: ArtistV| a.name == name);
    assert forall|i: int|
        0 <= i < d.albums.len() implies has_artist_id(d, (#[trigger] d.albums[i]).artist_id) by {
        let k = choose|k: int|
            0 <= k < c.artists.len() && (#[trigger] c.artists[k]).id == c.albums[i].artist_id;
        assert(d.artists[k].id == c.albums[i].artist_id);
    }
    assert forall|i: int|
        0 <= i < d.tracks.len() implies has_album_id(d, (#[trigger] d.tracks[i]).album_id) by {
        assert(has_album_id(c, c.tracks[i].album_id));
        let k = choose|k: int|
            0 <= k < c.albums.len() && (#[trigger] c.albums[k]).id == c.tracks[i].album_id;
        assert(0 <= k < d.albums.len() && d.albums[k].id == d.tracks[i].album_id);
    }
}

pub proof fn lemma_set_artist_checksum_wf(c: CatalogV, id: int, checksum: Seq<char>)
    requires
        c.wf(),
    ensures
        spec_set_artist_checksum(c, id, checksum).wf(),
{
    let d = spec_set_artist_checksum(c, id, checksum);
    assert(d.artists.len() == c.artists.len());
    assert forall|i: int|
        0 <= i < d.albums.len() implies has_artist_id(d, (#[trigger] d.albums[i]).artist_id) by {
        let k = choose|k: int|
            0 <= k < c.artists.len() && (#[trigger] c.artists[k]).id == c.albums[i].artist_id;
        assert(d.artists[k].id == c.albums[i].artist_id);
    }
    assert forall|i: int|
        0 <= i < d.tracks.len() implies has_album_id(d, (#[trigger] d.tracks[i]).album_id) by {
        assert(has_album_id(c, c.tracks[i].album_id));
        let k = choose|k: int|
            0 <= k < c.albums.len() && (#[trigger] c.albums[k]).id == c.tracks[i].album_id;
        assert(0 <= k < d.albums.len() && d.albums[k].id == d.tracks[i].album_id);
    }
}

pub proof fn lemma_create_album_wf(
    c: CatalogV,
    title: Seq<char>,
    path: Seq<char>,
    release_year: int,
    artist_id: int,
)
    requires
        c.wf(),
        album_idx_by_title(c, title) == -1,
        has_artist_id(c, artist_id),
    ensures
        spec_create_album(c, title, path, release_year, artist_id).wf(),
{
    let d = spec_create_album(c, title, path, release_year, artist_id);
    lemma_first_match_properties(c.albums, |a: AlbumV| a.title == title);
    assert forall|i: int|
        0 <= i < d.albums.len() implies has_artist_id(d, (#[trigger] d.albums[i]).artist_id) by {
        if i < c.albums.len() {
            assert(has_artist_id(c, c.albums[i].artist_id));
        } else {
            assert(d.albums[i].artist_id == artist_id);
        }
    }
    assert forall|i: int|
        0 <= i < d.tracks.len() implies has_album_id(d, (#[trigger] d.tracks[i]).album_id) by {
        let k = choose|k: int|
            0 <= k < c.albums.len() && (#[trigger] c.albums[k]).id == c.tracks[i].album_id;
        assert(d.albums[k].id == c.tracks[i].album_id);
    }
}

pub proof fn lemma_create_track_wf(
    c: CatalogV,
    title: Seq<char>,
    path: Seq<char>,
    track_number: int,
    duration: int,
    album_id: int,
)
    requires
        c.wf(),
        !has_track_title(c, album_id, title),
        has_album_id(c, album_id),
    ensures
        spec_create_track(c, title, path, track_number, duration, album_id).wf(),
{
    let d = spec_create_track(c, title, path, track_number, duration, album_id);
    assert forall|i: int|
        0 <= i < d.albums.len() implies has_artist_id(d, (#[trigger] d.albums[i]).artist_id) by {
        assert(has_artist_id(c, c.albums[i].artist_id));
        let k = choose|k: int|
            0 <= k < c.artists.len() && (#[trigger] c.artists[k]).id == c.albums[i].artist_id;
        assert(0 <= k < d.artists.len() && d.artists[k].id == d.albums[i].artist_id);
    }
    assert forall|i: int|
        0 <= i < d.tracks.len() implies has_album_id(d, (#[trigger] d.tracks[i]).album_id) by {
        if i < c.tracks.len() {
            assert(has_album_id(c, c.tracks[i].album_id));
            let k = choose|k: int|
                0 <= k < c.albums.len() && (#[trigger] c.albums[k]).id == c.tracks[i].album_id;
            assert(0 <= k < d.albums.len() && d.albums[k].id == d.tracks[i].album_id);
        } else {
            assert(d.tracks[i].album_id == album_id);
            let k = choose|k: int|
                0 <= k < c.albums.len() && (#[trigger] c.albums[k]).id == album_id;
            assert(0 <= k < d.albums.len() && d.albums[k].id == d.tracks[i].album_id);
        }
    }
    assert forall|i: int, j: int|
        #![trigger d.tracks[i], d.tracks[j]]
        0 <= i < j < d.tracks.len() implies d.tracks[i].id != d.tracks[j].id && (
    d.tracks[i].album_id == d.tracks[j].album_id ==> d.tracks[i].title != d.tracks[j].title) by {
        if j == c.tracks.len() && d.tracks[i].album_id == d.tracks[j].album_id {
            assert(c.tracks[i].album_id == album_id);
            assert(!(c.tracks[i].title == title));
        }
    }
}

// ---------- loading persisted rows ----------

/// Whether already-persisted rows form a well-formed catalog image: positive
/// identifiers, unique natural keys and identifiers, and every row linked to
/// a present parent.
pub open spec fn rows_valid(artists: Seq<ArtistV>, albums: Seq<AlbumV>, tracks: Seq<TrackV>) -> bool {
    &&& forall|i: int| 0 <= i < artists.len() ==> (#[trigger] artists[i]).id >= 1
    &&& forall|i: int| 0 <= i < albums.len() ==> (#[trigger] albums[i]).id >= 1
    &&& forall|i: int| 0 <= i < tracks.len() ==> (#[trigger] tracks[i]).id >= 1
    &&& forall|i: int, j: int|
        #![trigger artists[i], artists[j]]
        0 <= i < j < artists.len() ==> artists[i].name != artists[j].name && artists[i].id
            != artists[j].id
    &&& forall|i: int, j: int|
        #![trigger albums[i], albums[j]]
        0 <= i < j < albums.len() ==> albums[i].title != albums[j].title && albums[i].id
            != albums[j].id
    &&& forall|i: int, j: int|
        #![trigger tracks[i], tracks[j]]
        0 <= i < j < tracks.len() ==> tracks[i].id != tracks[j].id && (tracks[i].album_id
            == tracks[j].album_id ==> tracks[i].title != tracks[j].title)
    &&& forall|i: int|
        0 <= i < albums.len() ==> artists_have_id(artists, (#[trigger] albums[i]).artist_id)
    &&& forall|i: int|
        0 <= i < tracks.len() ==> albums_have_id(albums, (#[trigger] tracks[i]).album_id)
}

/// The largest artist identifier among the rows, or 0 of none.
pub open spec fn max_artist_id(s: Seq<ArtistV>) -> int
    decreases s.len(),
{
    if s.len() == 0 {
        0
    } else {
        let m = max_artist_id(s.drop_last());
        if s.last().id > m {
            s.last().id
        } else {
            m
        }
    }
}

/// The largest album identifier among the rows, or 0 of none.
pub open spec fn max_album_id(s: Seq<AlbumV>) -> int
    decreases s.len(),
{
    if s.len() == 0 {
        0
    } else {
        let m = max_album_id(s.drop_last());
        if s.last().id > m {
            s.last().id
        } else {
            m
        }
    }
}

/// The largest track identifier among the rows, or 0 of none.
pub open spec fn max_track_id(s: Seq<TrackV>) -> int
    decreases s.len(),
{
    if s.len() == 0 {
        0
    } else {
        let m = max_track_id(s.drop_last());
        if s.last().id > m {
            s.last().id
        } else {
            m
        }
    }
}

proof fn lemma_max_artist_id(s: Seq<ArtistV>)
    ensures
        max_artist_id(s) >= 0,
        forall|i: int| 0 <= i < s.len() ==> (#[trigger] s[i]).id <= max_artist_id(s),
    decreases s.len(),
{
    if s.len() > 0 {
        lemma_max_artist_id(s.drop_last());
        assert forall|i: int| 0 <= i < s.len() implies (#[trigger] s[i]).id <= max_artist_id(s) by {
            if i < s.len() - 1 {
                assert(s.drop_last()[i] == s[i]);
            }
        }
    }
}

proof fn lemma_max_album_id(s: Seq<AlbumV>)
    ensures
        max_album_id(s) >= 0,
        forall|i: int| 0 <= i < s.len() ==> (#[trigger] s[i]).id <= max_album_id(s),
    decreases s.len(),
{
    if s.len() > 0 {
        lemma_max_album_id(s.drop_last());
        assert forall|i: int| 0 <= i < s.len() implies (#[trigger] s[i]).id <= max_album_id(s) by {
            if i < s.len() - 1 {
                assert(s.drop_last()[i] == s[i]);
            }
        }
    }
}

proof fn lemma_max_track_id(s: Seq<TrackV>)
    ensures
        max_track_id(s) >= 0,
        forall|i: int| 0 <= i < s.len() ==> (#[trigger] s[i]).id <= max_track_id(s),
    decreases s.len(),
{
    if s.len() > 0 {
        lemma_max_track_id(s.drop_last());
        assert forall|i: int| 0 <= i < s.len() implies (#[trigger] s[i]).id <= max_track_id(s) by {
            if i < s.len() - 1 {
                assert(s.drop_last()[i] == s[i]);
            }
        }
    }
}

// ---------- the executable catalog ----------

/// The catalog rows held in memory, with the counters the next identifiers
/// come from.
pub struct Catalog {
    artists: Vec<Artist>,
    albums: Vec<Album>,
    tracks: Vec<Track>,
    next_artist_id: i64,
    next_album_id: i64,
    next_track_id: i64,
}

/// The views of a sequence of artist rows.
pub open spec fn artists_view(s: Seq<Artist>) -> Seq<ArtistV> {
    s.map_values(|a: Artist| a@)
}

/// The views of a sequence of album rows.
pub open spec fn albums_view(s: Seq<Album>) -> Seq<AlbumV> {
    s.map_values(|a: Album| a@)
}

/// The views of a sequence of track rows.
pub open spec fn tracks_view(s: Seq<Track>) -> Seq<TrackV> {
    s.map_values(|t: Track| t@)
}

impl View for Catalog {
    type V = CatalogV;

    closed spec fn view(&self) -> CatalogV {
        CatalogV {
            artists: artists_view(self.artists@),
            albums: albums_view(self.albums@),
            tracks: tracks_view(self.tracks@),
            next_artist_id: self.next_artist_id as int,
            next_album_id: self.next_album_id as int,
            next_track_id: self.next_track_id as int,
        }
    }
}

impl Catalog {
    /// The empty catalog, from which identifiers are assigned starting at 1.
    pub fn new() -> (r: Self)
        ensures
            r@.artists =~= Seq::<ArtistV>::empty(),
            r@.albums =~= Seq::<AlbumV>::empty(),
            r@.tracks =~= Seq::<TrackV>::empty(),
            r@.next_artist_id == 1,
            r@.next_album_id == 1,
            r@.next_track_id == 1,
            r@.wf(),
    {
        Catalog {
            artists: Vec::new(),
            albums: Vec::new(),
            tracks: Vec::new(),
            next_artist_id: 1,
            next_album_id: 1,
            next_track_id: 1,
        }
    }

    /// Rebuild a catalog from already-persisted rows, checking that they
    /// form a well-formed image (positive unique identifiers, unique natural
    /// keys, rows linked to present parents); identifiers continue above the
    /// largest persisted one.
    pub fn from_rows(artists: Vec<Artist>, albums: Vec<Album>, tracks: Vec<Track>) -> (r: Option<
        Catalog,
    >)
        ensures
            r is Some <==> rows_valid(
                artists_view(artists@),
                albums_view(albums@),
                tracks_view(tracks@),
            ),
            r matches Some(c) ==> c@.artists == artists_view(artists@) && c@.albums == albums_view(
                albums@,
            ) && c@.tracks == tracks_view(tracks@) && c@.wf() && c@.next_artist_id == max_artist_id(
                artists_view(artists@),
            ) + 1 && c@.next_album_id == max_album_id(albums_view(albums@)) + 1
                && c@.next_track_id == max_track_id(tracks_view(tracks@)) + 1,
    {
        let ghost av = artists_view(artists@);
        let ghost lv = albums_view(albums@);
        let ghost tv = tracks_view(tracks@);
        let na = artists.len();
        let nl = albums.len();
        let nt = tracks.len();
        // Identifiers are positive.
        let mut i: usize = 0;
        while i < na
            invariant
                0 <= i <= na,
                na == av.len(),
                av == artists_view(artists@),
                forall|a: int| 0 <= a < i ==> (#[trigger] av[a]).id >= 1,
            decreases na - i,
        {
            if artists[i].id < 1 {
                proof {
                    assert(av[i as int].id < 1);
                }
                return None;
            }
            i = i + 1;
        }
        let mut i: usize = 0;
        while i < nl
            invariant
                0 <= i <= nl,
                nl == lv.len(),
                lv == albums_view(albums@),
                forall|a: int| 0 <= a < i ==> (#[trigger] lv[a]).id >= 1,
            decreases nl - i,
        {
            if albums[i].id < 1 {
                proof {
                    assert(lv[i as int].id < 1);
                }
                return None;
            }
            i = i + 1;
        }
        let mut i: usize = 0;
        while i < nt
            invariant
                0 <= i <= nt,
                nt == tv.len(),
                tv == tracks_view(tracks@),
                forall|a: int| 0 <= a < i ==> (#[trigger] tv[a]).id >= 1,
            decreases nt - i,
        {
            if tracks[i].id < 1 {
                proof {
                    assert(tv[i as int].id < 1);
                }
                return None;
            }
            i = i + 1;
        }
        // Natural keys and identifiers are unique.
        let mut i: usize = 0;
        while i < na
            invariant
                0 <= i <= na,
                na == av.len(),
                av == artists_view(artists@),
                forall|a: int, b: int|
                    #![trigger av[a], av[b]]
                    0 <= a < b < na && a < i ==> av[a].name != av[b].name && av[a].id != av[b].id,
            decreases na - i,
        {
            let mut j: usize = i + 1;
            while j < na
                invariant
                    0 <= i < j <= na,
                    na == av.len(),
                    av == artists_view(artists@),
                    forall|b: int| i < b < j ==> av[i as int].name != (#[trigger] av[b]).name
                        && av[i as int].id != av[b].id,
                decreases na - j,
            {
                if crate::naming::str_eq(artists[i].name.as_str(), artists[j].name.as_str())
                    || artists[i].id == artists[j].id {
                    proof {
                        assert(av[i as int].name == av[j as int].name || av[i as int].id
                            == av[j as int].id);
                    }
                    return None;
                }
                j = j + 1;
            }
            i = i + 1;
        }
        let mut i: usize = 0;
        while i < nl
            invariant
                0 <= i <= nl,
                nl == lv.len(),
                lv == albums_view(albums@),
                forall|a: int, b: int|
                    #![trigger lv[a], lv[b]]
                    0 <= a < b < nl && a < i ==> lv[a].title != lv[b].title && lv[a].id != lv[b].id,
            decreases nl - i,
        {
            let mut j: usize = i + 1;
            while j < nl
                invariant
                    0 <= i < j <= nl,
                    nl == lv.len(),
                    lv == albums_view(albums@),
                    forall|b: int| i < b < j ==> lv[i as int].title != (#[trigger] lv[b]).title
                        && lv[i as int].id != lv[b].id,
                decreases nl - j,
            {
                if crate::naming::str_eq(albums[i].title.as_str(), albums[j].title.as_str())
                    || albums[i].id == albums[j].id {
                    proof {
                        assert(lv[i as int].title == lv[j as int].title || lv[i as int].id
                            == lv[j as int].id);
                    }
                    return None;
                }
                j = j + 1;
            }
            i = i + 1;
        }
        let mut i: usize = 0;
        while i < nt
            invariant
                0 <= i <= nt,
                nt == tv.len(),
                tv == tracks_view(tracks@),
                forall|a: int, b: int|
                    #![trigger tv[a], tv[b]]
                    0 <= a < b < nt && a < i ==> tv[a].id != tv[b].id && (tv[a].album_id
                        == tv[b].album_id ==> tv[a].title != tv[b].title),
            decreases nt - i,
        {
            let mut j: usize = i + 1;
            while j < nt
                invariant
                    0 <= i < j <= nt,
                    nt == tv.len(),
                    tv == tracks_view(tracks@),
                    forall|b: int| i < b < j ==> tv[i as int].id != (#[trigger] tv[b]).id && (
                    tv[i as int].album_id == tv[b].album_id ==> tv[i as int].title != tv[b].title),
                decreases nt - j,
            {
                if tracks[i].id == tracks[j].id || (tracks[i].album_id == tracks[j].album_id
                    && crate::naming::str_eq(tracks[i].title.as_str(), tracks[j].title.as_str())) {
                    proof {
                        assert(tv[i as int].id == tv[j as int].id || (tv[i as int].album_id
                            == tv[j as int].album_id && tv[i as int].title == tv[j as int].title));
                    }
                    return None;
                }
                j = j + 1;
            }
            i = i + 1;
        }
        // Every row is linked to a present parent.
        let mut i: usize = 0;
        while i < nl
            invariant
                0 <= i <= nl,
                na == av.len(),
                nl == lv.len(),
                av == artists_view(artists@),
                lv == albums_view(albums@),
                forall|a: int| 0 <= a < i ==> artists_have_id(av, (#[trigger] lv[a]).artist_id),
            decreases nl - i,
        {
            let mut j: usize = 0;
            let mut found = false;
            while j < na
                invariant
                    0 <= j <= na,
                    0 <= i < nl,
                    na == av.len(),
                    nl == lv.len(),
                    av == artists_view(artists@),
                    lv == albums_view(albums@),
                    found ==> artists_have_id(av, lv[i as int].artist_id),
                    !found ==> forall|b: int|
                        0 <= b < j ==> (#[trigger] av[b]).id != lv[i as int].artist_id,
                decreases na - j,
            {
                if artists[j].id == albums[i].artist_id {
                    proof {
                        assert(av[j as int].id == lv[i as int].artist_id);
                    }
                    found = true;
                }
                j = j + 1;
            }
            if !found {
                proof {
                    assert(!artists_have_id(av, lv[i as int].artist_id));
                }
                return None;
            }
            i = i + 1;
        }
        let mut i: usize = 0;
        while i < nt
            invariant
                0 <= i <= nt,
                nl == lv.len(),
                nt == tv.len(),
                lv == albums_view(albums@),
                tv == tracks_view(tracks@),
                forall|a: int| 0 <= a < i ==> albums_have_id(lv, (#[trigger] tv[a]).album_id),
            decreases nt - i,
        {
            let mut j: usize = 0;
            let mut found = false;
            while j < nl
                invariant
                    0 <= j <= nl,
                    0 <= i < nt,
                    nl == lv.len(),
                    nt == tv.len(),
                    lv == albums_view(albums@),
                    tv == tracks_view(tracks@),
                    found ==> albums_have_id(lv, tv[i as int].album_id),
                    !found ==> forall|b: int|
                        0 <= b < j ==> (#[trigger] lv[b]).id != tv[i as int].album_id,
                decreases nl - j,
            {
                if albums[j].id == tracks[i].album_id {
                    proof {
                        assert(lv[j as int].id == tv[i as int].album_id);
                    }
                    found = true;
                }
                j = j + 1;
            }
            if !found {
                proof {
                    assert(!albums_have_id(lv, tv[i as int].album_id));
                }
                return None;
            }
            i = i + 1;
        }
        // Identifier counters continue above the largest persisted one.
        let mut ma: i64 = 0;
        let mut i: usize = 0;
        proof {
            assert(av.take(0) =~= Seq::<ArtistV>::empty());
        }
        while i < na
            invariant
                0 <= i <= na,
                na == av.len(),
                av == artists_view(artists@),
                ma == max_artist_id(av.take(i as int)),
                0 <= ma <= i32::MAX,
            decreases na - i,
        {
            proof {
                assert(av.take(i + 1).drop_last() =~= av.take(i as int));
                assert(av.take(i + 1).last() == av[i as int]);
            }
            if artists[i].id as i64 > ma {
                ma = artists[i].id as i64;
            }
            i = i + 1;
        }
        let mut ml: i64 = 0;
        let mut i: usize = 0;
        proof {
            assert(lv.take(0) =~= Seq::<AlbumV>::empty());
        }
        while i < nl
            invariant
                0 <= i <= nl,
                nl == lv.len(),
                lv == albums_view(albums@),
                ml == max_album_id(lv.take(i as int)),
                0 <= ml <= i32::MAX,
            decreases nl - i,
        {
            proof {
                assert(lv.take(i + 1).drop_last() =~= lv.take(i as int));
                assert(lv.take(i + 1).last() == lv[i as int]);
            }
            if albums[i].id as i64 > ml {
                ml = albums[i].id as i64;
            }
            i = i + 1;
        }
        let mut mt: i64 = 0;
        let mut i: usize = 0;
        proof {
            assert(tv.take(0) =~= Seq::<TrackV>::empty());
        }
        while i < nt
            invariant
                0 <= i <= nt,
                nt == tv.len(),
                tv == tracks_view(tracks@),
                mt == max_track_id(tv.take(i as int)),
                0 <= mt <= i32::MAX,
            decreases nt - i,
        {
            proof {
                assert(tv.take(i + 1).drop_last() =~= tv.take(i as int));
                assert(tv.take(i + 1).last() == tv[i as int]);
            }
            if tracks[i].id as i64 > mt {
                mt = tracks[i].id as i64;
            }
            i = i + 1;
        }
        proof {
            assert(av.take(na as int) =~= av);
            assert(lv.take(nl as int) =~= lv);
            assert(tv.take(nt as int) =~= tv);
            lemma_max_artist_id(av);
            lemma_max_album_id(lv);
            lemma_max_track_id(tv);
        }
        let out = Catalog {
            artists,
            albums,
            tracks,
            next_artist_id: ma + 1,
            next_album_id: ml + 1,
            next_track_id: mt + 1,
        };
        proof {
            assert(out@.links_ok()) by {
                assert forall|a: int|
                    0 <= a < out@.albums.len() implies has_artist_id(
                    out@,
                    (#[trigger] out@.albums[a]).artist_id,
                ) by {
                    let k = choose|k: int|
                        0 <= k < av.len() && (#[trigger] av[k]).id == lv[a].artist_id;
                    assert(out@.artists[k].id == out@.albums[a].artist_id);
                }
                assert forall|a: int|
                    0 <= a < out@.tracks.len() implies has_album_id(
                    out@,
                    (#[trigger] out@.tracks[a]).album_id,
                ) by {
                    let k = choose|k: int|
                        0 <= k < lv.len() && (#[trigger] lv[k]).id == tv[a].album_id;
                    assert(out@.albums[k].id == out@.tracks[a].album_id);
                }
            }
        }
        Some(out)
    }

    /// All artist rows.
    pub fn list_artists(&self) -> (r: &Vec<Artist>)
        ensures
            artists_view(r@) == self@.artists,
    {
        &self.artists
    }

    /// All album rows.
    pub fn list_albums(&self) -> (r: &Vec<Album>)
        ensures
            albums_view(r@) == self@.albums,
    {
        &self.albums
    }

    /// All track rows.
    pub fn list_tracks(&self) -> (r: &Vec<Track>)
        ensures
            tracks_view(r@) == self@.tracks,
    {
        &self.tracks
    }

    /// The artist at a known index.
    pub fn artist_at(&self, i: usize) -> (r: &Artist)
        requires
            i < self@.artists.len(),
        ensures
            r@ == self@.artists[i as int],
    {
        &self.artists[i]
    }

    /// Find an artist row by its natural key.
    pub fn find_artist_by_name(&self, name: &str) -> (r: Option<usize>)
        ensures
            r matches Some(i) ==> artist_idx_by_name(self@, name@) == i && i < self@.artists.len(),
            r is None ==> artist_idx_by_name(self@, name@) == -1,
    {
        let n = self.artists.len();
        let mut k: usize = 0;
        while k < n
            invariant
                0 <= k <= n,
                n == self@.artists.len(),
                forall|i: int| 0 <= i < k ==> (#[trigger] self@.artists[i]).name != name@,
            decreases n - k,
        {
            if crate::naming::str_eq(self.artists[k].name.as_str(), name) {
                proof {
                    lemma_first_match_at(self@.artists, |a: ArtistV| a.name == name@, k as int);
                }
                return Some(k);
            }
            k = k + 1;
        }
        proof {
            lemma_first_match_none(self@.artists, |a: ArtistV| a.name == name@);
        }
        None
    }

    /// Find an album row by its natural key, returning its identifier.
    pub fn find_album_by_title(&self, title: &str) -> (r: Option<i32>)
        ensures
            r matches Some(id) ==> {
                let i = album_idx_by_title(self@, title@);
                0 <= i < self@.albums.len() && self@.albums[i].id == id as int
            },
            r is None ==> album_idx_by_title(self@, title@) == -1,
    {
        let n = self.albums.len();
        let mut k: usize = 0;
        while k < n
            invariant
                0 <= k <= n,
                n == self@.albums.len(),
                forall|i: int| 0 <= i < k ==> (#[trigger] self@.albums[i]).title != title@,
            decreases n - k,
        {
            if crate::naming::str_eq(self.albums[k].title.as_str(), title) {
                proof {
                    lemma_first_match_at(self@.albums, |a: AlbumV| a.title == title@, k as int);
                }
                return Some(self.albums[k].id);
            }
            k = k + 1;
        }
        proof {
            lemma_first_match_none(self@.albums, |a: AlbumV| a.title == title@);
        }
        None
    }

    /// Find an album row by identifier.
    pub fn get_album_by_id(&self, id: i32) -> (r: Option<&Album>)
        ensures
            r matches Some(a) ==> {
                let i = album_idx_by_id(self@, id as int);
                0 <= i < self@.albums.len() && a@ == self@.albums[i]
            },
            r is None ==> album_idx_by_id(self@, id as int) == -1,
            r is Some <==> has_album_id(self@, id as int),
    {
        let n = self.albums.len();
        let mut k: usize = 0;
        while k < n
            invariant
                0 <= k <= n,
                n == self@.albums.len(),
                forall|i: int| 0 <= i < k ==> (#[trigger] self@.albums[i]).id != id as int,
            decreases n - k,
        {
            if self.albums[k].id == id {
                proof {
                    lemma_first_match_at(self@.albums, |a: AlbumV| a.id == id as int, k as int);
                    assert(has_album_id(self@, id as int)) by {
                        assert(self@.albums[k as int].id == id as int);
                    }
                }
                return Some(&self.albums[k]);
            }
            k = k + 1;
        }
        proof {
            lemma_first_match_none(self@.albums, |a: AlbumV| a.id == id as int);
            assert(!has_album_id(self@, id as int));
        }
        None
    }

    /// All track rows of one album.
    pub fn list_tracks_of_album(&self, album_id: i32) -> (r: Vec<Track>)
        ensures
            tracks_view(r@) == self@.tracks.filter(|t: TrackV| t.album_id == album_id as int),
    {
        let n = self.tracks.len();
        let mut out: Vec<Track> = Vec::new();
        proof {
            reveal(Seq::filter);
            assert(self@.tracks.take(0) =~= Seq::<TrackV>::empty());
            assert(tracks_view(out@) =~= self@.tracks.take(0).filter(
                |t: TrackV| t.album_id == album_id as int,
            ));
        }
        let mut k: usize = 0;
        while k < n
            invariant
                0 <= k <= n,
                n == self@.tracks.len(),
                tracks_view(out@) == self@.tracks.take(k as int).filter(
                    |t: TrackV| t.album_id == album_id as int,
                ),
            decreases n - k,
        {
            let ghost pre = self@.tracks.take(k as int);
            let ghost cur = self@.tracks.take(k + 1);
            proof {
                reveal(Seq::filter);
                assert(cur.drop_last() =~= pre);
                assert(cur.last() == self@.tracks[k as int]);
            }
            if self.tracks[k].album_id == album_id {
                let e = self.tracks[k].clone();
                proof {
                    assert(tracks_view(out@.push(e)) =~= tracks_view(out@).push(e@));
                    assert(tracks_view(out@).push(e@) =~= cur.filter(
                        |t: TrackV| t.album_id == album_id as int,
                    ));
                }
                out.push(e);
            }
            k = k + 1;
        }
        proof {
            assert(self@.tracks.take(n as int) =~= self@.tracks);
        }
        out
    }

    /// Whether some track of album `album_id` already carries `title`.
    pub fn track_title_exists(&self, album_id: i32, title: &str) -> (r: bool)
        ensures
            r == has_track_title(self@, album_id as int, title@),
    {
        let n = self.tracks.len();
        let mut k: usize = 0;
        while k < n
            invariant
                0 <= k <= n,
                n == self@.tracks.len(),
                forall|i: int|
                    0 <= i < k ==> !((#[trigger] self@.tracks[i]).album_id == album_id as int
                        && self@.tracks[i].title == title@),
            decreases n - k,
        {
            if self.tracks[k].album_id == album_id && crate::naming::str_eq(
                self.tracks[k].title.as_str(),
                title,
            ) {
                proof {
                    assert(self@.tracks[k as int].album_id == album_id as int);
                }
                return true;
            }
            k = k + 1;
        }
        proof {
            assert(!has_track_title(self@, album_id as int, title@));
        }
        false
    }

    /// Append a new artist row under the next identifier, which is returned.
    pub fn create_artist(&mut self, name: String, path: String, checksum: Option<String>) -> (id:
        i32)
        requires
            old(self)@.wf(),
            artist_idx_by_name(old(self)@, name@) == -1,
            old(self)@.next_artist_id <= i32::MAX,
        ensures
            final(self)@ == spec_create_artist(old(self)@, name@, path@, opt_str_view(checksum)),
            final(self)@.wf(),
            id as int == old(self)@.next_artist_id,
    {
        let id = self.next_artist_id as i32;
        let row = Artist { id, name, path, checksum };
        proof {
            assert(artists_view(self.artists@.push(row)) =~= artists_view(self.artists@).push(
                row@,
            ));
            lemma_create_artist_wf(self@, row@.name, row@.path, row@.checksum);
        }
        self.artists.push(row);
        self.next_artist_id = self.next_artist_id + 1;
        id
    }

    /// Replace the checksum of the artist carrying `id`.
    pub fn update_artist_checksum(&mut self, id: i32, checksum: String)
        requires
            old(self)@.wf(),
            has_artist_id(old(self)@, id as int),
        ensures
            final(self)@ == spec_set_artist_checksum(old(self)@, id as int, checksum@),
            final(self)@.wf(),
    {
        let ghost orig = self@;
        let n = self.artists.len();
        let mut k: usize = 0;
        while k < n
            invariant
                0 <= k <= n,
                n == orig.artists.len(),
                self@ == orig,
                orig == old(self)@,
                orig.wf(),
                has_artist_id(orig, id as int),
                forall|i: int| 0 <= i < k ==> (#[trigger] orig.artists[i]).id != id as int,
            decreases n - k,
        {
            if self.artists[k].id == id {
                self.artists[k].checksum = Some(checksum);
                proof {
                    let d = spec_set_artist_checksum(orig, id as int, checksum@);
                    assert(d.artists.len() == n);
                    assert(self@.artists.len() == n);
                    assert forall|i: int| 0 <= i < n implies self@.artists[i] == d.artists[i] by {
                        if i != k && orig.artists[i].id == id as int {
                            assert(orig.artists[k as int].id == id as int);
                            if i < k {
                                assert(orig.artists[i].id != orig.artists[k as int].id);
                            } else {
                                assert(orig.artists[k as int].id != orig.artists[i].id);
                            }
                        }
                    }
                    assert(self@.artists =~= d.artists);
                    assert(self@ == d);
                    lemma_set_artist_checksum_wf(orig, id as int, checksum@);
                }
                return ;
            }
            k = k + 1;
        }
        proof {
            assert(!has_artist_id(orig, id as int));
        }
    }

    /// Append a new album row under the next identifier, which is returned.
    pub fn create_album(
        &mut self,
        title: String,
        path: String,
        release_year: i32,
        artist_id: i32,
    ) -> (id: i32)
        requires
            old(self)@.wf(),
            album_idx_by_title(old(self)@, title@) == -1,
            has_artist_id(old(self)@, artist_id as int),
            old(self)@.next_album_id <= i32::MAX,
        ensures
            final(self)@ == spec_create_album(
                old(self)@,
                title@,
                path@,
                release_year as int,
                artist_id as int,
            ),
            final(self)@.wf(),
            id as int == old(self)@.next_album_id,
    {
        let id = self.next_album_id as i32;
        let row = Album { id, title, path, release_year, artist_id };
        proof {
            assert(albums_view(self.albums@.push(row)) =~= albums_view(self.albums@).push(row@));
            lemma_create_album_wf(
                self@,
                row@.title,
                row@.path,
                release_year as int,
                artist_id as int,
            );
        }
        self.albums.push(row);
        self.next_album_id = self.next_album_id + 1;
        id
    }

    /// Append a new track row under the next identifier, which is returned.
    pub fn create_track(
        &mut self,
        title: String,
        path: String,
        track_number: i32,
        duration: i32,
        album_id: i32,
    ) -> (id: i32)
        requires
            old(self)@.wf(),
            !has_track_title(old(self)@, album_id as int, title@),
            has_album_id(old(self)@, album_id as int),
            old(self)@.next_track_id <= i32::MAX,
        ensures
            final(self)@ == spec_create_track(
                old(self)@,
                title@,
                path@,
                track_number as int,
                duration as int,
                album_id as int,
            ),
            final(self)@.wf(),
            id as int == old(self)@.next_track_id,
    {
        let id = self.next_track_id as i32;
        let row = Track { id, title, path, track_number, duration, album_id };
        proof {
            assert(tracks_view(self.tracks@.push(row)) =~= tracks_view(self.tracks@).push(row@));
            lemma_create_track_wf(
                self@,
                row@.title,
                row@.path,
                track_number as int,
                duration as int,
                album_id as int,
            );
        }
        self.tracks.push(row);
        self.next_track_id = self.next_track_id + 1;
        id
    }
}

} // verus!
