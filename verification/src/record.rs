//! The hierarchical record model: a library is a sequence of artists, each
//! holding albums, each holding tracks. Records are immutable once ingested.

use vstd::prelude::*;

verus! {

/// Mathematical model of a track: every field as a plain value.
pub ghost struct TrackView {
    pub title: Seq<char>,
    pub album: Seq<char>,
    pub album_artist: Seq<char>,
    pub year: i32,
    pub duration: u32,
    pub file_path: Seq<char>,
}

/// Mathematical model of an album.
pub ghost struct AlbumView {
    pub title: Seq<char>,
    pub artist: Seq<char>,
    pub year: i32,
    pub tracks: Seq<TrackView>,
}

/// Mathematical model of an artist.
pub ghost struct ArtistView {
    pub title: Seq<char>,
    pub albums: Seq<AlbumView>,
}

/// One audio file's metadata, plus where the file lives on disk.
pub struct Track {
    pub title: String,
    pub album: String,
    pub album_artist: String,
    pub year: i32,
    pub duration: u32,
    pub file_path: String,
}

/// An album: a titled, ordered sequence of tracks, with the artist name
/// denormalized for matching.
pub struct Album {
    pub title: String,
    pub artist: String,
    pub year: i32,
    pub tracks: Vec<Track>,
}

/// An artist: a titled, ordered sequence of albums.
pub struct Artist {
    pub title: String,
    pub albums: Vec<Album>,
}

impl View for Track {
    type V = TrackView;

    open spec fn view(&self) -> TrackView {
        TrackView {
            title: self.title@,
            album: self.album@,
            album_artist: self.album_artist@,
            year: self.year,
            duration: self.duration,
            file_path: self.file_path@,
        }
    }
}

impl View for Album {
    type V = AlbumView;

    open spec fn view(&self) -> AlbumView {
        AlbumView {
            title: self.title@,
            artist: self.artist@,
            year: self.year,
            tracks: self.tracks@.map_values(|t: Track| t@),
        }
    }
}

impl View for Artist {
    type V = ArtistView;

    open spec fn view(&self) -> ArtistView {
        ArtistView {
            title: self.title@,
            albums: self.albums@.map_values(|a: Album| a@),
        }
    }
}

/// The sentinel standing for "nothing currently playing": all fields empty.
pub open spec fn dummy_track() -> TrackView {
    TrackView {
        title: Seq::empty(),
        album: Seq::empty(),
        album_artist: Seq::empty(),
        year: 0,
        duration: 0,
        file_path: Seq::empty(),
    }
}

impl Track {
    pub fn new(
        title: String,
        album: String,
        album_artist: String,
        year: i32,
        duration: u32,
        file_path: String,
    ) -> (r: Track)
        ensures
            r@ == (TrackView {
                title: title@,
                album: album@,
                album_artist: album_artist@,
                year: year,
                duration: duration,
                file_path: file_path@,
            }),
    {
        Track { title, album, album_artist, year, duration, file_path }
    }

    /// The dummy sentinel track (empty title) that represents "nothing
    /// currently playing".
    pub fn dummy() -> (r: Track)
        ensures
            r@ == dummy_track(),
    {
        Track {
            title: String::new(),
            album: String::new(),
            album_artist: String::new(),
            year: 0,
            duration: 0,
            file_path: String::new(),
        }
    }
}

impl Clone for Track {
    fn clone(&self) -> (r: Track)
        ensures
            r@ == self@,
    {
        Track {
            title: self.title.clone(),
            album: self.album.clone(),
            album_artist: self.album_artist.clone(),
            year: self.year,
            duration: self.duration,
            file_path: self.file_path.clone(),
        }
    }
}

impl Album {
    pub fn new(title: String, artist: String, year: i32) -> (r: Album)
        ensures
            r@ == (AlbumView { title: title@, artist: artist@, year: year, tracks: Seq::empty() }),
    {
        let r = Album { title, artist, year, tracks: Vec::new() };
        proof {
            assert(r@.tracks =~= Seq::<TrackView>::empty());
        }
        r
    }

    /// Appends one more track to this album.
    pub fn update_album(&mut self, t: Track)
        ensures
            final(self)@ == (AlbumView {
                tracks: old(self)@.tracks.push(t@),
                ..old(self)@
            }),
    {
        self.tracks.push(t);
        proof {
            assert(self@.tracks =~= old(self)@.tracks.push(self.tracks@.last()@));
        }
    }
}

impl Clone for Album {
    fn clone(&self) -> (r: Album)
        ensures
            r@ == self@,
    {
        let tracks = clone_tracks(&self.tracks);
        let r = Album {
            title: self.title.clone(),
            artist: self.artist.clone(),
            year: self.year,
            tracks,
        };
        proof {
            assert(r@.tracks =~= self@.tracks);
        }
        r
    }
}

/// Clones a track list element by element, preserving the modelled contents.
pub fn clone_tracks(tracks: &Vec<Track>) -> (r: Vec<Track>)
    ensures
        r@.map_values(|t: Track| t@) == tracks@.map_values(|t: Track| t@),
{
    let mut r: Vec<Track> = Vec::new();
    let mut i: usize = 0;
    while i < tracks.len()
        invariant
            i <= tracks@.len(),
            r@.len() == i,
            forall|k: int| 0 <= k < i ==> r@[k]@ == tracks@[k]@,
        decreases tracks@.len() - i,
    {
        r.push(tracks[i].clone());
        i = i + 1;
    }
    proof {
        assert(r@.map_values(|t: Track| t@) =~= tracks@.map_values(|t: Track| t@));
    }
    r
}

impl Artist {
    pub fn new(title: String) -> (r: Artist)
        ensures
            r@ == (ArtistView { title: title@, albums: Seq::empty() }),
    {
        let r = Artist { title, albums: Vec::new() };
        proof {
            assert(r@.albums =~= Seq::<AlbumView>::empty());
        }
        r
    }

    /// Appends one more album to this artist.
    pub fn add_album(&mut self, album: Album)
        ensures
            final(self)@ == (ArtistView {
                title: old(self)@.title,
                albums: old(self)@.albums.push(album@),
            }),
    {
        self.albums.push(album);
        proof {
            assert(self@.albums =~= old(self)@.albums.push(self.albums@.last()@));
        }
    }
}

impl Clone for Artist {
    fn clone(&self) -> (r: Artist)
        ensures
            r@ == self@,
    {
        let albums = clone_albums(&self.albums);
        let r = Artist { title: self.title.clone(), albums };
        proof {
            assert(r@.albums =~= self@.albums);
        }
        r
    }
}

/// Clones an album list element by element, preserving the modelled contents.
pub fn clone_albums(albums: &Vec<Album>) -> (r: Vec<Album>)
    ensures
        r@.map_values(|a: Album| a@) == albums@.map_values(|a: Album| a@),
{
    let mut r: Vec<Album> = Vec::new();
    let mut i: usize = 0;
    while i < albums.len()
        invariant
            i <= albums@.len(),
            r@.len() == i,
            forall|k: int| 0 <= k < i ==> r@[k]@ == albums@[k]@,
        decreases albums@.len() - i,
    {
        r.push(albums[i].clone());
        i = i + 1;
    }
    proof {
        assert(r@.map_values(|a: Album| a@) =~= albums@.map_values(|a: Album| a@));
    }
    r
}

/// A value that could have come from `Track::clone` carries the same view.
pub proof fn lemma_cloned_track_view(a: Track, b: Track)
    requires
        vstd::pervasive::cloned::<Track>(a, b),
    ensures
        b@ == a@,
{
}

/// A value that could have come from `Album::clone` carries the same view.
pub proof fn lemma_cloned_album_view(a: Album, b: Album)
    requires
        vstd::pervasive::cloned::<Album>(a, b),
    ensures
        b@ == a@,
{
}

/// A value that could have come from `Artist::clone` carries the same view.
pub proof fn lemma_cloned_artist_view(a: Artist, b: Artist)
    requires
        vstd::pervasive::cloned::<Artist>(a, b),
    ensures
        b@ == a@,
{
}

/// One search result carried back to the caller as an owned record copy.
pub enum Media {
    Artist(Artist),
    Album(Album),
    Track(Track),
}

} // verus!
