//! The library builder: classifies file names, groups ingested tracks into
//! the artist → album → track tree, and sorts artists case-insensitively.
//! Artist and album identity is exact string equality of the track's
//! album-artist and album fields at ingestion time.

use vstd::prelude::*;
use crate::record::{Album, AlbumView, Artist, ArtistView, Track, TrackView};
use crate::text::{ci_le, lemma_ci_le_total, lemma_ci_le_trans, lowercase, str_eq, str_le};

verus! {

/// The mathematical model of a library: the views of its artists, in order.
pub open spec fn lib_view(s: Seq<Artist>) -> Seq<ArtistView> {
    s.map_values(|a: Artist| a@)
}

pub open spec fn has_artist(lib: Seq<ArtistView>, name: Seq<char>) -> bool {
    exists|i: int| 0 <= i < lib.len() && lib[i].title == name
}

/// `i` is the first position whose artist title equals `name` exactly.
pub open spec fn first_artist_at(lib: Seq<ArtistView>, name: Seq<char>, i: int) -> bool {
    &&& 0 <= i < lib.len()
    &&& lib[i].title == name
    &&& forall|k: int| 0 <= k < i ==> lib[k].title != name
}

pub open spec fn has_album(albums: Seq<AlbumView>, title: Seq<char>) -> bool {
    exists|j: int| 0 <= j < albums.len() && albums[j].title == title
}

/// `j` is the first position whose album title equals `title` exactly.
pub open spec fn first_album_at(albums: Seq<AlbumView>, title: Seq<char>, j: int) -> bool {
    &&& 0 <= j < albums.len()
    &&& albums[j].title == title
    &&& forall|k: int| 0 <= k < j ==> albums[k].title != title
}

/// The album created when a track arrives and no album of its title exists
/// yet under its artist.
pub open spec fn new_album_of(t: TrackView) -> AlbumView {
    AlbumView { title: t.album, artist: t.album_artist, year: t.year, tracks: seq![t] }
}

/// The artist created when a track arrives and no artist of its album-artist
/// name exists yet.
pub open spec fn new_artist_of(t: TrackView) -> ArtistView {
    ArtistView { title: t.album_artist, albums: seq![new_album_of(t)] }
}

pub open spec fn album_with(al: AlbumView, t: TrackView) -> AlbumView {
    AlbumView { tracks: al.tracks.push(t), ..al }
}

/// How one track lands inside one artist: appended to the first album whose
/// title matches exactly, or seeding a new album at the tail when none does.
pub open spec fn add_to_artist_rel(pre: ArtistView, t: TrackView, post: ArtistView) -> bool {
    &&& post.title == pre.title
    &&& if has_album(pre.albums, t.album) {
        exists|j: int|
            #[trigger] first_album_at(pre.albums, t.album, j) && post.albums == pre.albums.update(
                j,
                album_with(pre.albums[j], t),
            )
    } else {
        post.albums == pre.albums.push(new_album_of(t))
    }
}

/// How one track lands in the library: inside the first artist whose title
/// matches its album-artist exactly, or creating a new artist at the tail.
pub open spec fn add_track_rel(pre: Seq<ArtistView>, t: TrackView, post: Seq<ArtistView>) -> bool {
    if has_artist(pre, t.album_artist) {
        exists|i: int|
            #[trigger] first_artist_at(pre, t.album_artist, i) && post == pre.update(i, post[i])
                && add_to_artist_rel(pre[i], t, post[i])
    } else {
        post == pre.push(new_artist_of(t))
    }
}

/// Copies the grouping keys out of the track and hands everything to
/// `add_to_database`.
pub fn add_to_database_helper(t: Track, artists: &mut Vec<Artist>)
    ensures
        add_track_rel(lib_view(old(artists)@), t@, lib_view(final(artists)@)),
{
    let artist_name = t.album_artist.clone();
    let album_title = t.album.clone();
    let album_year = t.year;
    add_to_database(artist_name.as_str(), album_title.as_str(), album_year, t, artists);
}

/// Adds one track to the accumulating artist list, grouping by exact
/// album-artist and album title.
pub fn add_to_database(
    artist_name: &str,
    album_title: &str,
    album_year: i32,
    t: Track,
    artists: &mut Vec<Artist>,
)
    requires
        artist_name@ == t@.album_artist,
        album_title@ == t@.album,
        album_year == t@.year,
    ensures
        add_track_rel(lib_view(old(artists)@), t@, lib_view(final(artists)@)),
{
    let ghost pre = lib_view(artists@);
    let n = artists.len();
    let mut i: usize = 0;
    let mut found: bool = false;
    while i < n && !found
        invariant
            artists@ == old(artists)@,
            n == artists@.len(),
            i <= n,
            !found ==> forall|k: int| 0 <= k < i ==> artists@[k]@.title != artist_name@,
            found ==> i < n && artists@[i as int]@.title == artist_name@ && (forall|k: int|
                0 <= k < i ==> artists@[k]@.title != artist_name@),
        decreases n - i + (if found { 0int } else { 1int }),
    {
        if str_eq(artists[i].title.as_str(), artist_name) {
            found = true;
        } else {
            i = i + 1;
        }
    }
    if found {
        let mut artist = artists.remove(i);
        let ghost pre_artist = artist@;
        let m = artist.albums.len();
        let mut j: usize = 0;
        let mut afound: bool = false;
        while j < m && !afound
            invariant
                artist@ == pre_artist,
                m == artist.albums@.len(),
                j <= m,
                !afound ==> forall|k: int| 0 <= k < j ==> artist.albums@[k]@.title != album_title@,
                afound ==> j < m && artist.albums@[j as int]@.title == album_title@ && (forall|
                    k: int,
                |
                    0 <= k < j ==> artist.albums@[k]@.title != album_title@),
            decreases m - j + (if afound { 0int } else { 1int }),
        {
            if str_eq(artist.albums[j].title.as_str(), album_title) {
                afound = true;
            } else {
                j = j + 1;
            }
        }
        if afound {
            let mut album = artist.albums.remove(j);
            album.update_album(t);
            artist.albums.insert(j, album);
            proof {
                assert(artist@.albums =~= pre_artist.albums.update(
                    j as int,
                    album_with(pre_artist.albums[j as int], t@),
                ));
                assert(first_album_at(pre_artist.albums, t@.album, j as int));
                assert(has_album(pre_artist.albums, t@.album));
                assert(add_to_artist_rel(pre_artist, t@, artist@));
            }
        } else {
            let mut album = Album::new(album_title.to_owned(), artist_name.to_owned(), album_year);
            album.update_album(t);
            proof {
                assert(album@.tracks =~= seq![t@]);
                assert(album@ == new_album_of(t@));
            }
            artist.add_album(album);
            proof {
                assert(forall|k: int|
                    0 <= k < pre_artist.albums.len() ==> pre_artist.albums[k].title != t@.album);
                assert(!has_album(pre_artist.albums, t@.album));
                assert(artist@.albums == pre_artist.albums.push(new_album_of(t@)));
                assert(add_to_artist_rel(pre_artist, t@, artist@));
            }
        }
        let ghost new_artist_view = artist@;
        artists.insert(i, artist);
        proof {
            assert(lib_view(artists@) =~= pre.update(i as int, new_artist_view));
            assert(pre[i as int] == pre_artist);
            assert(first_artist_at(pre, t@.album_artist, i as int));
            assert(has_artist(pre, t@.album_artist));
            assert(lib_view(artists@)[i as int] == new_artist_view);
            assert(add_track_rel(pre, t@, lib_view(artists@)));
        }
    } else {
        let mut album = Album::new(album_title.to_owned(), artist_name.to_owned(), album_year);
        album.update_album(t);
        proof {
            assert(album@.tracks =~= seq![t@]);
            assert(album@ == new_album_of(t@));
        }
        let mut artist = Artist::new(artist_name.to_owned());
        artist.add_album(album);
        proof {
            assert(artist@.albums =~= seq![new_album_of(t@)]);
            assert(artist@ == new_artist_of(t@));
        }
        artists.push(artist);
        proof {
            assert(forall|k: int| 0 <= k < pre.len() ==> pre[k].title != t@.album_artist);
            assert(!has_artist(pre, t@.album_artist));
            assert(lib_view(artists@) =~= pre.push(new_artist_of(t@)));
        }
    }
}

/// Case-insensitive ascending order on artist titles.
pub open spec fn sorted_ci(lib: Seq<ArtistView>) -> bool {
    forall|k: int, l: int| 0 <= k < l < lib.len() ==> ci_le(lib[k].title, lib[l].title)
}

/// Sorts the artists by case-insensitive title, ascending, keeping exactly
/// the same artists.
pub fn sort_artists(artists: &mut Vec<Artist>)
    ensures
        final(artists)@.to_multiset() == old(artists)@.to_multiset(),
        lib_view(final(artists)@).to_multiset() == lib_view(old(artists)@).to_multiset(),
        final(artists)@.len() == old(artists)@.len(),
        sorted_ci(lib_view(final(artists)@)),
{
    broadcast use vstd::seq_lib::group_to_multiset_ensures;

    let ghost orig = artists@;
    if artists.len() <= 1 {
        return;
    }
    let mut i: usize = 1;
    while i < artists.len()
        invariant
            artists@.len() == orig.len(),
            2 <= artists@.len(),
            1 <= i <= artists@.len(),
            artists@.to_multiset() == orig.to_multiset(),
            lib_view(artists@).to_multiset() == lib_view(orig).to_multiset(),
            forall|k: int, l: int|
                0 <= k < l < i ==> ci_le(artists@[k]@.title, artists@[l]@.title),
        decreases artists@.len() - i,
    {
        let ghost cur = artists@;
        let key_low = lowercase(artists[i].title.as_str());
        let ghost key_title = artists@[i as int]@.title;
        let mut j: usize = i;
        let mut moving: bool = true;
        while j > 0 && moving
            invariant
                artists@ == cur,
                i < cur.len(),
                j <= i,
                key_low@ == crate::text::lower_of(key_title),
                key_title == cur[i as int]@.title,
                forall|l: int| j <= l < i ==> ci_le(key_title, cur[l]@.title),
                !moving ==> j > 0 && ci_le(cur[j - 1]@.title, key_title),
            decreases j + (if moving { 1int } else { 0int }),
        {
            let lj = lowercase(artists[j - 1].title.as_str());
            if str_le(lj.as_str(), key_low.as_str()) {
                moving = false;
            } else {
                proof {
                    lemma_ci_le_total(cur[j - 1]@.title, key_title);
                }
                j = j - 1;
            }
        }
        let a = artists.remove(i);
        let ghost removed = artists@;
        artists.insert(j, a);
        proof {
            let post = artists@;
            vstd::seq_lib::to_multiset_remove::<Artist>(cur, i as int);
            vstd::seq_lib::to_multiset_insert::<Artist>(removed, j as int, a);
            vstd::seq_lib::to_multiset_contains::<Artist>(cur, a);
            assert(cur.contains(a)) by {
                assert(cur[i as int] == a);
            }
            assert(cur.to_multiset().remove(a).insert(a) =~= cur.to_multiset());
            assert(post.to_multiset() =~= cur.to_multiset());
            assert(lib_view(removed) =~= lib_view(cur).remove(i as int));
            assert(lib_view(post) =~= lib_view(removed).insert(j as int, a@));
            vstd::seq_lib::to_multiset_remove::<ArtistView>(lib_view(cur), i as int);
            vstd::seq_lib::to_multiset_insert::<ArtistView>(lib_view(removed), j as int, a@);
            vstd::seq_lib::to_multiset_contains::<ArtistView>(lib_view(cur), a@);
            assert(lib_view(cur).contains(a@)) by {
                assert(lib_view(cur)[i as int] == a@);
            }
            assert(lib_view(cur).to_multiset().remove(a@).insert(a@) =~= lib_view(
                cur,
            ).to_multiset());
            assert(lib_view(post).to_multiset() =~= lib_view(cur).to_multiset());
            // order within the grown prefix
            assert(a@.title == key_title);
            assert forall|k: int, l: int| 0 <= k < l < i + 1 implies ci_le(
                post[k]@.title,
                post[l]@.title,
            ) by {
                assert(forall|m: int| 0 <= m < j ==> post[m] == cur[m]);
                assert(post[j as int] == a);
                assert(forall|m: int| j < m <= i ==> post[m] == cur[m - 1]);
                if l < j {
                    // both below the insertion point: an old pair
                } else if l == j {
                    // post[l] is the key
                    if k == j - 1 {
                    } else {
                        lemma_ci_le_trans(cur[k]@.title, cur[j - 1]@.title, key_title);
                    }
                } else if k < j {
                    // old pair (k, l - 1) with k <= j - 1 <= l - 1
                    if k == l - 1 {
                        lemma_ci_le_total(cur[k]@.title, cur[k]@.title);
                    }
                } else if k == j {
                    // key against a shifted element: the inner loop compared them
                } else {
                    // both shifted: an old pair
                }
            }
        }
        i = i + 1;
    }
}

/// `post` is what grouping every track of `tracks`, in order, into `pre`
/// produces.
pub open spec fn builds_to(
    tracks: Seq<TrackView>,
    pre: Seq<ArtistView>,
    post: Seq<ArtistView>,
) -> bool
    decreases tracks.len(),
{
    if tracks.len() == 0 {
        post == pre
    } else {
        exists|mid: Seq<ArtistView>|
            #[trigger] add_track_rel(pre, tracks[0], mid) && builds_to(
                tracks.drop_first(),
                mid,
                post,
            )
    }
}

pub proof fn lemma_builds_to_snoc(
    tracks: Seq<TrackView>,
    pre: Seq<ArtistView>,
    mid: Seq<ArtistView>,
    t: TrackView,
    post: Seq<ArtistView>,
)
    requires
        builds_to(tracks, pre, mid),
        add_track_rel(mid, t, post),
    ensures
        builds_to(tracks.push(t), pre, post),
    decreases tracks.len(),
{
    if tracks.len() == 0 {
        assert(tracks.push(t)[0] == t);
        assert(tracks.push(t).drop_first() =~= Seq::<TrackView>::empty());
        assert(add_track_rel(pre, t, post));
        assert(builds_to(tracks.push(t).drop_first(), post, post));
    } else {
        let m1 = choose|m: Seq<ArtistView>|
            #[trigger] add_track_rel(pre, tracks[0], m) && builds_to(tracks.drop_first(), m, mid);
        lemma_builds_to_snoc(tracks.drop_first(), m1, mid, t, post);
        assert(tracks.push(t)[0] == tracks[0]);
        assert(tracks.push(t).drop_first() =~= tracks.drop_first().push(t));
        assert(add_track_rel(pre, tracks.push(t)[0], m1));
    }
}

/// Groups every given track into an initially empty library and sorts the
/// artists case-insensitively: the in-memory side of a full build.
pub fn build_library(tracks: Vec<Track>) -> (r: Vec<Artist>)
    ensures
        exists|g: Seq<ArtistView>|
            builds_to(tracks@.map_values(|t: Track| t@), Seq::empty(), g) && lib_view(
                r@,
            ).to_multiset() == #[trigger] g.to_multiset(),
        sorted_ci(lib_view(r@)),
{
    let ghost tvs = tracks@.map_values(|t: Track| t@);
    let mut artists: Vec<Artist> = Vec::new();
    proof {
        assert(lib_view(artists@) =~= Seq::<ArtistView>::empty());
        assert(tvs.subrange(0, 0) =~= Seq::<TrackView>::empty());
    }
    let mut k: usize = 0;
    while k < tracks.len()
        invariant
            tvs == tracks@.map_values(|t: Track| t@),
            k <= tracks@.len(),
            builds_to(tvs.subrange(0, k as int), Seq::empty(), lib_view(artists@)),
        decreases tracks@.len() - k,
    {
        let t = tracks[k].clone();
        let ghost pre_lib = lib_view(artists@);
        add_to_database_helper(t, &mut artists);
        proof {
            lemma_builds_to_snoc(
                tvs.subrange(0, k as int),
                Seq::empty(),
                pre_lib,
                t@,
                lib_view(artists@),
            );
            assert(t@ == tvs[k as int]);
            assert(tvs.subrange(0, k as int + 1) =~= tvs.subrange(0, k as int).push(
                tvs[k as int],
            ));
        }
        k = k + 1;
    }
    proof {
        assert(tvs.subrange(0, tracks@.len() as int) =~= tvs);
    }
    let ghost grouped = lib_view(artists@);
    sort_artists(&mut artists);
    proof {
        assert(builds_to(tvs, Seq::empty(), grouped));
    }
    artists
}

/// Two tracks carrying the same album-artist and the same album title end up
/// in one album of one artist, whatever library they are grouped into.
pub proof fn lemma_same_keys_one_album(
    pre: Seq<ArtistView>,
    t1: TrackView,
    t2: TrackView,
    mid: Seq<ArtistView>,
    post: Seq<ArtistView>,
)
    requires
        add_track_rel(pre, t1, mid),
        add_track_rel(mid, t2, post),
        t1.album_artist == t2.album_artist,
        t1.album == t2.album,
    ensures
        exists|i: int, j: int|
            0 <= i < post.len() && 0 <= j < post[i].albums.len() && post[i].title
                == t1.album_artist && post[i].albums[j].title == t1.album
                && post[i].albums[j].tracks.contains(t1) && post[i].albums[j].tracks.contains(t2),
{
    let an = t1.album_artist;
    let al = t1.album;
    if has_artist(pre, an) {
        let i1 = choose|i: int|
            #[trigger] first_artist_at(pre, an, i) && mid == pre.update(i, mid[i])
                && add_to_artist_rel(pre[i], t1, mid[i]);
        assert(forall|k: int| 0 <= k < mid.len() ==> mid[k].title == pre[k].title);
        assert(first_artist_at(mid, an, i1));
        assert(has_artist(mid, an));
        let i2 = choose|i: int|
            #[trigger] first_artist_at(mid, an, i) && post == mid.update(i, post[i])
                && add_to_artist_rel(mid[i], t2, post[i]);
        assert(i1 == i2) by {
            if i1 < i2 {
                assert(mid[i1].title == an);
            } else if i2 < i1 {
                assert(pre[i2].title == an);
            }
        }
        let a0 = pre[i1].albums;
        let a1 = mid[i1].albums;
        let a2 = post[i1].albums;
        if has_album(a0, al) {
            let j1 = choose|j: int|
                #[trigger] first_album_at(a0, al, j) && a1 == a0.update(
                    j,
                    album_with(a0[j], t1),
                );
            assert(forall|k: int| 0 <= k < a1.len() ==> a1[k].title == a0[k].title);
            assert(first_album_at(a1, al, j1));
            assert(has_album(a1, al));
            let j2 = choose|j: int|
                #[trigger] first_album_at(a1, al, j) && a2 == a1.update(
                    j,
                    album_with(a1[j], t2),
                );
            assert(j1 == j2) by {
                if j1 < j2 {
                    assert(a1[j1].title == al);
                } else if j2 < j1 {
                    assert(a0[j2].title == al);
                }
            }
            let tr = a0[j1].tracks;
            assert(a2[j1].tracks == tr.push(t1).push(t2));
            assert(tr.push(t1).push(t2)[tr.len() as int] == t1);
            assert(tr.push(t1).push(t2)[tr.len() as int + 1] == t2);
            assert(a2[j1].tracks.contains(t1));
            assert(a2[j1].tracks.contains(t2));
            assert(post[i1].albums[j1].title == al);
        } else {
            let jn = a0.len() as int;
            assert(a1 == a0.push(new_album_of(t1)));
            assert(a1[jn].title == al);
            assert(first_album_at(a1, al, jn));
            assert(has_album(a1, al));
            let j2 = choose|j: int|
                #[trigger] first_album_at(a1, al, j) && a2 == a1.update(
                    j,
                    album_with(a1[j], t2),
                );
            assert(jn == j2) by {
                if j2 < jn {
                    assert(a1[j2].title == a0[j2].title);
                }
            }
            assert(a2[jn].tracks == seq![t1].push(t2));
            assert(seq![t1].push(t2)[0] == t1);
            assert(seq![t1].push(t2)[1] == t2);
            assert(a2[jn].tracks.contains(t1));
            assert(a2[jn].tracks.contains(t2));
        }
    } else {
        let ip = pre.len() as int;
        assert(mid == pre.push(new_artist_of(t1)));
        assert(mid[ip].title == an);
        assert(first_artist_at(mid, an, ip)) by {
            assert(forall|k: int| 0 <= k < ip ==> mid[k] == pre[k]);
        }
        assert(has_artist(mid, an));
        let i2 = choose|i: int|
            #[trigger] first_artist_at(mid, an, i) && post == mid.update(i, post[i])
                && add_to_artist_rel(mid[i], t2, post[i]);
        assert(ip == i2) by {
            if i2 < ip {
                assert(mid[i2] == pre[i2]);
            }
        }
        let a1 = mid[ip].albums;
        let a2 = post[ip].albums;
        assert(a1 == seq![new_album_of(t1)]);
        assert(a1[0].title == al);
        assert(first_album_at(a1, al, 0));
        assert(has_album(a1, al));
        let j2 = choose|j: int|
            #[trigger] first_album_at(a1, al, j) && a2 == a1.update(j, album_with(a1[j], t2));
        assert(j2 == 0);
        assert(a2[0].tracks == seq![t1].push(t2));
        assert(seq![t1].push(t2)[0] == t1);
        assert(seq![t1].push(t2)[1] == t2);
        assert(a2[0].tracks.contains(t1));
        assert(a2[0].tracks.contains(t2));
    }
}

/// Grouping one track places it under an artist titled with its album-artist
/// name, inside an album titled with its album field.
pub proof fn lemma_track_placed(pre: Seq<ArtistView>, t: TrackView, post: Seq<ArtistView>)
    requires
        add_track_rel(pre, t, post),
    ensures
        exists|i: int, j: int|
            0 <= i < post.len() && 0 <= j < post[i].albums.len() && post[i].title
                == t.album_artist && post[i].albums[j].title == t.album
                && post[i].albums[j].tracks.contains(t),
{
    let an = t.album_artist;
    let al = t.album;
    if has_artist(pre, an) {
        let i1 = choose|i: int|
            #[trigger] first_artist_at(pre, an, i) && post == pre.update(i, post[i])
                && add_to_artist_rel(pre[i], t, post[i]);
        let a0 = pre[i1].albums;
        let a2 = post[i1].albums;
        if has_album(a0, al) {
            let j1 = choose|j: int|
                #[trigger] first_album_at(a0, al, j) && a2 == a0.update(
                    j,
                    album_with(a0[j], t),
                );
            assert(a2[j1].tracks == a0[j1].tracks.push(t));
            assert(a0[j1].tracks.push(t)[a0[j1].tracks.len() as int] == t);
            assert(a2[j1].tracks.contains(t));
        } else {
            let jn = a0.len() as int;
            assert(a2 == a0.push(new_album_of(t)));
            assert(a2[jn] == new_album_of(t));
            assert(seq![t][0] == t);
            assert(a2[jn].tracks.contains(t));
        }
    } else {
        let ip = pre.len() as int;
        assert(post == pre.push(new_artist_of(t)));
        assert(post[ip] == new_artist_of(t));
        assert(post[ip].albums[0] == new_album_of(t));
        assert(seq![t][0] == t);
        assert(post[ip].albums[0].tracks.contains(t));
    }
}

/// Two tracks carrying the same album title but different album-artists end
/// up in two distinct albums, under two distinct artists.
pub proof fn lemma_distinct_artists_distinct_albums(
    pre: Seq<ArtistView>,
    t1: TrackView,
    t2: TrackView,
    mid: Seq<ArtistView>,
    post: Seq<ArtistView>,
)
    requires
        add_track_rel(pre, t1, mid),
        add_track_rel(mid, t2, post),
        t1.album == t2.album,
        t1.album_artist != t2.album_artist,
    ensures
        exists|i1: int, j1: int, i2: int, j2: int|
            i1 != i2 && 0 <= i1 < post.len() && 0 <= i2 < post.len() && 0 <= j1
                < post[i1].albums.len() && 0 <= j2 < post[i2].albums.len() && post[i1].title
                == t1.album_artist && post[i2].title == t2.album_artist
                && post[i1].albums[j1].tracks.contains(t1)
                && post[i2].albums[j2].tracks.contains(t2),
{
    lemma_track_placed(pre, t1, mid);
    let (i1, j1): (int, int) = choose|i: int, j: int|
        0 <= i < mid.len() && 0 <= j < mid[i].albums.len() && mid[i].title == t1.album_artist
            && mid[i].albums[j].title == t1.album && #[trigger] mid[i].albums[j].tracks.contains(
            t1,
        );
    lemma_track_placed(mid, t2, post);
    let (i2, j2): (int, int) = choose|i: int, j: int|
        0 <= i < post.len() && 0 <= j < post[i].albums.len() && post[i].title == t2.album_artist
            && post[i].albums[j].title == t2.album
            && #[trigger] post[i].albums[j].tracks.contains(t2);
    // t2's landing artist bears a different title, so it is a different
    // position, and t1's artist is untouched by the second step.
    if has_artist(mid, t2.album_artist) {
        let ia = choose|i: int|
            #[trigger] first_artist_at(mid, t2.album_artist, i) && post == mid.update(
                i,
                post[i],
            ) && add_to_artist_rel(mid[i], t2, post[i]);
        assert(ia != i1);
        assert(post[i1] == mid[i1]);
    } else {
        assert(post == mid.push(new_artist_of(t2)));
        assert(post[i1] == mid[i1]);
    }
    assert(i1 != i2);
    assert(post[i1].albums[j1].tracks.contains(t1));
}

/// Last position of a dot in the name, or a negative value when none occurs.
pub open spec fn last_dot(s: Seq<char>) -> int
    decreases s.len(),
{
    if s.len() == 0 {
        -1
    } else if s.last() == '.' {
        s.len() - 1
    } else {
        last_dot(s.drop_last())
    }
}

/// A file name is eligible music exactly when what follows its last dot is
/// one of the three accepted extensions, compared case-sensitively. A
/// leading dot opens no extension: a name whose only dot is its first
/// character, such as a bare dotfile, is ineligible.
pub open spec fn is_music_name_spec(s: Seq<char>) -> bool {
    let d = last_dot(s);
    d >= 1 && (s.skip(d + 1) == "mp3"@ || s.skip(d + 1) == "flac"@ || s.skip(d + 1) == "ogg"@)
}

proof fn lemma_last_dot_found(s: Seq<char>, d: int)
    requires
        0 <= d < s.len(),
        s[d] == '.',
        forall|k: int| d < k < s.len() ==> s[k] != '.',
    ensures
        last_dot(s) == d,
    decreases s.len(),
{
    if d == s.len() - 1 {
    } else {
        assert(s.last() != '.');
        assert(s.drop_last()[d] == '.');
        lemma_last_dot_found(s.drop_last(), d);
    }
}

proof fn lemma_last_dot_none(s: Seq<char>)
    requires
        forall|k: int| 0 <= k < s.len() ==> s[k] != '.',
    ensures
        last_dot(s) == -1,
    decreases s.len(),
{
    if s.len() > 0 {
        lemma_last_dot_none(s.drop_last());
    }
}

/// Decides whether a file name carries one of the accepted audio extensions:
/// mp3, flac or ogg, exactly and case-sensitively.
pub fn is_music_name(name: &str) -> (r: bool)
    ensures
        r == is_music_name_spec(name@),
{
    let n = name.unicode_len();
    let mut i: usize = n;
    let mut dot: usize = 0;
    let mut has_dot: bool = false;
    while i > 0 && !has_dot
        invariant
            n == name@.len(),
            i <= n,
            !has_dot ==> forall|k: int| i <= k < n ==> name@[k] != '.',
            has_dot ==> i > 0 && dot == i - 1 && name@[dot as int] == '.' && (forall|k: int|
                i <= k < n ==> name@[k] != '.'),
        decreases i + (if has_dot { 0int } else { 1int }),
    {
        if name.get_char(i - 1) == '.' {
            has_dot = true;
            dot = i - 1;
        } else {
            i = i - 1;
        }
    }
    if !has_dot {
        proof {
            lemma_last_dot_none(name@);
        }
        return false;
    }
    proof {
        lemma_last_dot_found(name@, dot as int);
    }
    if dot == 0 {
        return false;
    }
    let ext = name.substring_char(dot + 1, n);
    proof {
        assert(ext@ =~= name@.skip(dot + 1));
    }
    let r = str_eq(ext, "mp3") || str_eq(ext, "flac") || str_eq(ext, "ogg");
    r
}

} // verus!
