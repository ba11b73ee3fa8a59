//! The read-side shapes the serving layer hands out: flat projections of the
//! catalog rows, with the storage paths and internal linkage left out.

use vstd::prelude::*;

verus! {

use crate::catalog::{Artist, Album, Track};

/// What the serving layer exposes of a track.
pub struct TrackDTO {
    pub id: i32,
    pub title: String,
    pub duration: i32,
    pub track_number: i32,
}

impl From<Track> for TrackDTO {
    fn from(track: Track) -> (r: Self)
        ensures
            r.id == track.id && r.title@ == track.title@ && r.duration == track.duration
                && r.track_number == track.track_number,
    {
        TrackDTO {
            id: track.id,
            title: track.title,
            duration: track.duration,
            track_number: track.track_number,
        }
    }
}

impl vstd::std_specs::convert::FromSpecImpl<Track> for TrackDTO {
    open spec fn obeys_from_spec() -> bool {
        true
    }

    open spec fn from_spec(t: Track) -> Self {
        TrackDTO { id: t.id, title: t.title, duration: t.duration, track_number: t.track_number }
    }
}

/// What the serving layer exposes of an album.
pub struct AlbumDTO {
    pub id: i32,
    pub title: String,
    pub year: i32,
}

impl From<Album> for AlbumDTO {
    fn from(album: Album) -> (r: Self)
        ensures
            r.id == album.id && r.title@ == album.title@ && r.year == album.release_year,
    {
        AlbumDTO { id: album.id, title: album.title, year: album.release_year }
    }
}

impl vstd::std_specs::convert::FromSpecImpl<Album> for AlbumDTO {
    open spec fn obeys_from_spec() -> bool {
        true
    }

    open spec fn from_spec(a: Album) -> Self {
        AlbumDTO { id: a.id, title: a.title, year: a.release_year }
    }
}

/// What the serving layer exposes of an artist.
pub struct ArtistDTO {
    pub id: i32,
    pub name: String,
}

impl From<Artist> for ArtistDTO {
    fn from(artist: Artist) -> (r: Self)
        ensures
            r.id == artist.id && r.name@ == artist.name@,
    {
        ArtistDTO { id: artist.id, name: artist.name }
    }
}

impl vstd::std_specs::convert::FromSpecImpl<Artist> for ArtistDTO {
    open spec fn obeys_from_spec() -> bool {
        true
    }

    open spec fn from_spec(a: Artist) -> Self {
        ArtistDTO { id: a.id, name: a.name }
    }
}

} // verus!
