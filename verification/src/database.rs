//! The search engine group: three approximate-text indices over one library
//! snapshot, one per granularity, each mapping a coordinate into the library
//! to the text it was built from. Matching itself is the outside engine's;
//! what is verified is that every index holds exactly the library's titles
//! under valid coordinates, and that a query reaches exactly the index its
//! scope names.

use vstd::prelude::*;
use crate::record::Artist;
use crate::terms::{SearchQuery, Term};
use crate::library::lib_view;

verus! {

#[verifier::external_type_specification]
#[verifier::external_body]
#[verifier::reject_recursive_types(Id)]
pub struct ExIndex<Id: Eq + Clone + core::hash::Hash>(simsearch::Index<Id>);

/// What the artist index holds: for each registered id, the text it was
/// registered under.
pub uninterp spec fn artist_entries(e: simsearch::Index<usize>) -> Map<usize, Seq<char>>;

/// What the album index holds.
pub uninterp spec fn album_entries(e: simsearch::Index<(usize, usize)>) -> Map<
    (usize, usize),
    Seq<char>,
>;

/// What the track index holds.
pub uninterp spec fn track_entries(e: simsearch::Index<(usize, usize, usize)>) -> Map<
    (usize, usize, usize),
    Seq<char>,
>;

/// Relies on simsearch::Index::new: a fresh index holds nothing.
#[verifier::external_body]
fn new_artist_index() -> (r: simsearch::Index<usize>)
    ensures
        forall|id: usize| !artist_entries(r).dom().contains(id),
{
    simsearch::Index::new()
}

/// Relies on simsearch::Index::new: a fresh index holds nothing.
#[verifier::external_body]
fn new_album_index() -> (r: simsearch::Index<(usize, usize)>)
    ensures
        forall|id: (usize, usize)| !album_entries(r).dom().contains(id),
{
    simsearch::Index::new()
}

/// Relies on simsearch::Index::new: a fresh index holds nothing.
#[verifier::external_body]
fn new_track_index() -> (r: simsearch::Index<(usize, usize, usize)>)
    ensures
        forall|id: (usize, usize, usize)| !track_entries(r).dom().contains(id),
{
    simsearch::Index::new()
}

/// Relies on simsearch::Index::insert: registers the content under the id;
/// an already-registered id is updated.
#[verifier::external_body]
fn artist_index_insert(e: &mut simsearch::Index<usize>, id: usize, content: &str)
    ensures
        artist_entries(*final(e)) == artist_entries(*old(e)).insert(id, content@),
{
    e.insert(id, content)
}

/// Relies on simsearch::Index::insert: registers the content under the id;
/// an already-registered id is updated.
#[verifier::external_body]
fn album_index_insert(e: &mut simsearch::Index<(usize, usize)>, id: (usize, usize), content: &str)
    ensures
        album_entries(*final(e)) == album_entries(*old(e)).insert(id, content@),
{
    e.insert(id, content)
}

/// Relies on simsearch::Index::insert: registers the content under the id;
/// an already-registered id is updated.
#[verifier::external_body]
fn track_index_insert(
    e: &mut simsearch::Index<(usize, usize, usize)>,
    id: (usize, usize, usize),
    content: &str,
)
    ensures
        track_entries(*final(e)) == track_entries(*old(e)).insert(id, content@),
{
    e.insert(id, content)
}

/// Relies on simsearch::Index::search: every hit carries an id that was
/// inserted; the engine ranks them by its own relevance order, which is not
/// re-ranked here.
#[verifier::external_body]
fn artist_index_search(e: &simsearch::Index<usize>, pattern: &str) -> (r: Vec<usize>)
    ensures
        forall|i: int|
            0 <= i < r@.len() ==> artist_entries(*e).dom().contains(#[trigger] r@[i]),
{
    e.search(pattern).into_iter().map(|h| h.id).collect()
}

/// Relies on simsearch::Index::search: every hit carries an id that was
/// inserted.
#[verifier::external_body]
fn album_index_search(e: &simsearch::Index<(usize, usize)>, pattern: &str) -> (r: Vec<
    (usize, usize),
>)
    ensures
        forall|i: int| 0 <= i < r@.len() ==> album_entries(*e).dom().contains(#[trigger] r@[i]),
{
    e.search(pattern).into_iter().map(|h| h.id).collect()
}

/// Relies on simsearch::Index::search: every hit carries an id that was
/// inserted.
#[verifier::external_body]
fn track_index_search(e: &simsearch::Index<(usize, usize, usize)>, pattern: &str) -> (r: Vec<
    (usize, usize, usize),
>)
    ensures
        forall|i: int| 0 <= i < r@.len() ==> track_entries(*e).dom().contains(#[trigger] r@[i]),
{
    e.search(pattern).into_iter().map(|h| h.id).collect()
}

/// One index, tagged with its granularity.
pub enum Engine {
    Artists(simsearch::Index<usize>),
    Albums(simsearch::Index<(usize, usize)>),
    Tracks(simsearch::Index<(usize, usize, usize)>),
}

/// An unordered set of matching coordinates, in the engine's own relevance
/// order, tagged like the engine that produced it.
pub enum SearchResult {
    Artists(Vec<usize>),
    Albums(Vec<(usize, usize)>),
    Tracks(Vec<(usize, usize, usize)>),
}

impl Engine {
    /// Queries this one index; the result variant mirrors the engine variant
    /// and every coordinate in it was indexed.
    pub fn search(&self, query_str: &str) -> (r: SearchResult)
        ensures
            self matches Engine::Artists(e) ==> r matches SearchResult::Artists(v) && (forall|
                i: int,
            |
                0 <= i < v@.len() ==> artist_entries(*e).dom().contains(#[trigger] v@[i])),
            self matches Engine::Albums(e) ==> r matches SearchResult::Albums(v) && (forall|i: int|
                0 <= i < v@.len() ==> album_entries(*e).dom().contains(#[trigger] v@[i])),
            self matches Engine::Tracks(e) ==> r matches SearchResult::Tracks(v) && (forall|i: int|
                0 <= i < v@.len() ==> track_entries(*e).dom().contains(#[trigger] v@[i])),
    {
        match self {
            Engine::Artists(e) => SearchResult::Artists(artist_index_search(e, query_str)),
            Engine::Albums(e) => SearchResult::Albums(album_index_search(e, query_str)),
            Engine::Tracks(e) => SearchResult::Tracks(track_index_search(e, query_str)),
        }
    }
}

/// The three indices over one snapshot.
pub struct EngineGroup {
    pub artists: Engine,
    pub albums: Engine,
    pub tracks: Engine,
}

impl EngineGroup {
    /// The group indexes exactly the given library: every id registered in
    /// an index is a valid coordinate into the library, every coordinate of
    /// the library is registered, and each carries the title it points at.
    pub open spec fn indexes(self, lib: Seq<crate::record::ArtistView>) -> bool {
        &&& self.artists matches Engine::Artists(e) && {
            &&& forall|a: usize|
                (#[trigger] artist_entries(e).dom().contains(a)) <==> a < lib.len()
            &&& forall|a: usize|
                a < lib.len() ==> #[trigger] artist_entries(e)[a] == lib[a as int].title
        }
        &&& self.albums matches Engine::Albums(e) && {
            &&& forall|c: (usize, usize)|
                (#[trigger] album_entries(e).dom().contains(c)) <==> c.0 < lib.len() && c.1
                    < lib[c.0 as int].albums.len()
            &&& forall|c: (usize, usize)|
                c.0 < lib.len() && c.1 < lib[c.0 as int].albums.len()
                    ==> #[trigger] album_entries(e)[c] == lib[c.0 as int].albums[c.1 as int].title
        }
        &&& self.tracks matches Engine::Tracks(e) && {
            &&& forall|c: (usize, usize, usize)|
                (#[trigger] track_entries(e).dom().contains(c)) <==> c.0 < lib.len() && c.1
                    < lib[c.0 as int].albums.len() && c.2
                    < lib[c.0 as int].albums[c.1 as int].tracks.len()
            &&& forall|c: (usize, usize, usize)|
                c.0 < lib.len() && c.1 < lib[c.0 as int].albums.len() && c.2
                    < lib[c.0 as int].albums[c.1 as int].tracks.len()
                    ==> #[trigger] track_entries(e)[c]
                    == lib[c.0 as int].albums[c.1 as int].tracks[c.2 as int].title
        }
    }
}

/// Builds the three indices from one library snapshot: artist titles under
/// artist indices, album titles under (artist, album), track titles under
/// (artist, album, track) — exactly the snapshot's coordinates, no others.
#[verifier::rlimit(100)]
#[verifier::spinoff_prover]
pub fn create_fuzzy_searcher(records: &Vec<Artist>) -> (r: Result<EngineGroup, ()>)
    ensures
        r matches Ok(g) && g.indexes(lib_view(records@)),
{
    broadcast use vstd::map::group_map_axioms, vstd::set::group_set_axioms;

    let ghost lib = lib_view(records@);
    let mut artists = new_artist_index();
    let mut albums = new_album_index();
    let mut tracks = new_track_index();
    let mut i: usize = 0;
    while i < records.len()
        invariant
            lib == lib_view(records@),
            i <= records@.len(),
            forall|a: usize| (#[trigger] artist_entries(artists).dom().contains(a)) <==> a < i,
            forall|a: usize|
                a < i ==> #[trigger] artist_entries(artists)[a] == lib[a as int].title,
            forall|c: (usize, usize)|
                (#[trigger] album_entries(albums).dom().contains(c)) <==> c.0 < i && c.1
                    < lib[c.0 as int].albums.len(),
            forall|c: (usize, usize)|
                c.0 < i && c.1 < lib[c.0 as int].albums.len()
                    ==> #[trigger] album_entries(albums)[c]
                    == lib[c.0 as int].albums[c.1 as int].title,
            forall|c: (usize, usize, usize)|
                (#[trigger] track_entries(tracks).dom().contains(c)) <==> c.0 < i && c.1
                    < lib[c.0 as int].albums.len() && c.2
                    < lib[c.0 as int].albums[c.1 as int].tracks.len(),
            forall|c: (usize, usize, usize)|
                c.0 < i && c.1 < lib[c.0 as int].albums.len() && c.2
                    < lib[c.0 as int].albums[c.1 as int].tracks.len()
                    ==> #[trigger] track_entries(tracks)[c]
                    == lib[c.0 as int].albums[c.1 as int].tracks[c.2 as int].title,
        decreases records@.len() - i,
    {
        let record = &records[i];
        proof {
            assert(lib[i as int] == records@[i as int]@);
        }
        let ghost pre_art = artist_entries(artists);
        artist_index_insert(&mut artists, i, record.title.as_str());
        proof {
            assert(artist_entries(artists) == pre_art.insert(i, record.title@));
        }
        let mut j: usize = 0;
        while j < record.albums.len()
            invariant
                lib == lib_view(records@),
                i < records@.len(),
                record == records@[i as int],
                j <= record.albums@.len(),
                record.albums@.len() == lib[i as int].albums.len(),
                forall|a: usize|
                    (#[trigger] artist_entries(artists).dom().contains(a)) <==> a < i + 1,
                forall|a: usize|
                    a < i + 1 ==> #[trigger] artist_entries(artists)[a] == lib[a as int].title,
                forall|c: (usize, usize)|
                    (#[trigger] album_entries(albums).dom().contains(c)) <==> (c.0 < i && c.1
                        < lib[c.0 as int].albums.len()) || (c.0 == i && c.1 < j),
                forall|c: (usize, usize)|
                    ((c.0 < i && c.1 < lib[c.0 as int].albums.len()) || (c.0 == i && c.1 < j))
                        ==> #[trigger] album_entries(albums)[c]
                        == lib[c.0 as int].albums[c.1 as int].title,
                forall|c: (usize, usize, usize)|
                    (#[trigger] track_entries(tracks).dom().contains(c)) <==> ((c.0 < i && c.1
                        < lib[c.0 as int].albums.len()) || (c.0 == i && c.1 < j)) && c.2
                        < lib[c.0 as int].albums[c.1 as int].tracks.len(),
                forall|c: (usize, usize, usize)|
                    (((c.0 < i && c.1 < lib[c.0 as int].albums.len()) || (c.0 == i && c.1 < j))
                        && c.2 < lib[c.0 as int].albums[c.1 as int].tracks.len())
                        ==> #[trigger] track_entries(tracks)[c]
                        == lib[c.0 as int].albums[c.1 as int].tracks[c.2 as int].title,
            decreases record.albums@.len() - j,
        {
            let album = &record.albums[j];
            proof {
                assert(lib[i as int].albums[j as int] == record.albums@[j as int]@);
            }
            let ghost pre_alb = album_entries(albums);
            album_index_insert(&mut albums, (i, j), album.title.as_str());
            proof {
                assert(album_entries(albums) == pre_alb.insert((i, j), album.title@));
            }
            let mut k: usize = 0;
            while k < album.tracks.len()
                invariant
                    lib == lib_view(records@),
                    i < records@.len(),
                    record == records@[i as int],
                    j < record.albums@.len(),
                    record.albums@.len() == lib[i as int].albums.len(),
                    album == records@[i as int].albums@[j as int],
                    k <= album.tracks@.len(),
                    album.tracks@.len() == lib[i as int].albums[j as int].tracks.len(),
                    forall|c: (usize, usize, usize)|
                        (#[trigger] track_entries(tracks).dom().contains(c)) <==> (((c.0 < i && c.1
                            < lib[c.0 as int].albums.len()) || (c.0 == i && c.1 < j)) && c.2
                            < lib[c.0 as int].albums[c.1 as int].tracks.len()) || (c.0 == i && c.1
                            == j && c.2 < k),
                    forall|c: (usize, usize, usize)|
                        ((((c.0 < i && c.1 < lib[c.0 as int].albums.len()) || (c.0 == i && c.1
                            < j)) && c.2 < lib[c.0 as int].albums[c.1 as int].tracks.len()) || (c.0
                            == i && c.1 == j && c.2 < k))
                            ==> #[trigger] track_entries(tracks)[c]
                            == lib[c.0 as int].albums[c.1 as int].tracks[c.2 as int].title,
                decreases album.tracks@.len() - k,
            {
                proof {
                    assert(lib[i as int].albums[j as int].tracks[k as int]
                        == album.tracks@[k as int]@);
                }
                let ghost pre_trk = track_entries(tracks);
                track_index_insert(&mut tracks, (i, j, k), album.tracks[k].title.as_str());
                proof {
                    assert(track_entries(tracks) == pre_trk.insert(
                        (i, j, k),
                        album.tracks@[k as int].title@,
                    ));
                }
                k = k + 1;
            }
            j = j + 1;
        }
        i = i + 1;
    }
    Ok(
        EngineGroup {
            artists: Engine::Artists(artists),
            albums: Engine::Albums(albums),
            tracks: Engine::Tracks(tracks),
        },
    )
}

/// Queries exactly the index the scope names: title reaches the track index,
/// album the album index, artist the artist index; the other two are not
/// consulted.
pub fn search(engine: &EngineGroup, query: SearchQuery) -> (r: SearchResult)
    ensures
        query.terms matches crate::terms::Term::Title(_) ==> call_search_result(
            engine.tracks,
            r,
        ),
        query.terms matches crate::terms::Term::Album(_) ==> call_search_result(
            engine.albums,
            r,
        ),
        query.terms matches crate::terms::Term::Artist(_) ==> call_search_result(
            engine.artists,
            r,
        ),
{
    match query.terms {
        Term::Title(s) => engine.tracks.search(s.as_str()),
        Term::Album(s) => engine.albums.search(s.as_str()),
        Term::Artist(s) => engine.artists.search(s.as_str()),
    }
}

/// What Engine::search promises of its result, restated so that the
/// dispatching function can carry it per scope.
pub open spec fn call_search_result(e: Engine, r: SearchResult) -> bool {
    &&& e matches Engine::Artists(x) ==> r matches SearchResult::Artists(v) && (forall|i: int|
        0 <= i < v.len() ==> artist_entries(x).dom().contains(#[trigger] v[i]))
    &&& e matches Engine::Albums(x) ==> r matches SearchResult::Albums(v) && (forall|i: int|
        0 <= i < v.len() ==> album_entries(x).dom().contains(#[trigger] v[i]))
    &&& e matches Engine::Tracks(x) ==> r matches SearchResult::Tracks(v) && (forall|i: int|
        0 <= i < v.len() ==> track_entries(x).dom().contains(#[trigger] v[i]))
}

} // verus!
