use sonik_core::codec::{decode_library, encode_library};
use sonik_core::database::{create_fuzzy_searcher, search, SearchResult};
use sonik_core::library::{add_to_database_helper, build_library, is_music_name};
use sonik_core::player::{next_state, on_exhausted, Command, PlayerState, SinkAction};
use sonik_core::queue::SonikQueue;
use sonik_core::record::{Artist, Track};
use sonik_core::state::{ListState, TabsState};
use sonik_core::terms::{SearchQuery, Term};

fn track(title: &str, album: &str, artist: &str, duration: u32) -> Track {
    Track::new(
        title.to_string(),
        album.to_string(),
        artist.to_string(),
        2001,
        duration,
        format!("/music/{}.mp3", title),
    )
}

#[test]
fn queue_add_and_take_keep_total_in_step() {
    let mut q = SonikQueue::new();
    assert_eq!(q.total_time, 0);
    q.add(track("a", "x", "p", 100));
    q.add(track("b", "x", "p", 200));
    q.add(track("c", "x", "p", 50));
    assert_eq!(q.total_time, 350);
    let t = q.take();
    assert_eq!(t.title, "a");
    assert_eq!(q.total_time, 250);
    let t = q.take();
    assert_eq!(t.title, "b");
    assert_eq!(q.total_time, 50);
}

#[test]
fn queue_clear_resets_to_empty_and_zero() {
    let mut q = SonikQueue::new();
    q.add(track("a", "x", "p", 7));
    q.add(track("b", "x", "p", 9));
    q.clear();
    assert_eq!(q.tracks.len(), 0);
    assert_eq!(q.total_time, 0);
    q.clear();
    assert_eq!(q.total_time, 0);
}

#[test]
fn queue_shuffle_preserves_multiset_and_total() {
    let mut q = SonikQueue::new();
    for (i, d) in [(0u32, 10u32), (1, 20), (2, 30), (3, 40), (4, 50)] {
        q.add(track(&format!("t{}", i), "x", "p", d));
    }
    let mut before: Vec<String> = q.tracks.iter().map(|t| t.title.clone()).collect();
    before.sort();
    for _ in 0..10 {
        q.shuffle();
        assert_eq!(q.total_time, 150);
        let mut after: Vec<String> = q.tracks.iter().map(|t| t.title.clone()).collect();
        after.sort();
        assert_eq!(before, after);
    }
}

#[test]
fn queue_add_to_front_reverses_album_and_sums_durations() {
    // one artist "A", one album "X", tracks of durations 100 and 200
    let t1 = track("first", "X", "A", 100);
    let t2 = track("second", "X", "A", 200);
    let mut q = SonikQueue::new();
    q.add_to_front(t1);
    q.add_to_front(t2);
    assert_eq!(q.total_time, 300);
    assert_eq!(q.tracks[0].title, "second");
    assert_eq!(q.tracks[1].title, "first");
}

#[test]
fn grouping_same_keys_one_album_different_artists_two_albums() {
    let mut artists: Vec<Artist> = Vec::new();
    add_to_database_helper(track("one", "Same Album", "Artist A", 10), &mut artists);
    add_to_database_helper(track("two", "Same Album", "Artist A", 20), &mut artists);
    assert_eq!(artists.len(), 1);
    assert_eq!(artists[0].albums.len(), 1);
    assert_eq!(artists[0].albums[0].tracks.len(), 2);
    add_to_database_helper(track("three", "Same Album", "Artist B", 30), &mut artists);
    assert_eq!(artists.len(), 2);
    assert_eq!(artists[1].title, "Artist B");
    assert_eq!(artists[1].albums[0].title, "Same Album");
    assert_eq!(artists[1].albums[0].tracks.len(), 1);
}

#[test]
fn builder_sorts_artists_case_insensitively() {
    let tracks = vec![
        track("t1", "b-album", "beta", 1),
        track("t2", "a-album", "Alpha", 1),
        track("t3", "g-album", "gamma", 1),
    ];
    let lib = build_library(tracks);
    let names: Vec<&str> = lib.iter().map(|a| a.title.as_str()).collect();
    assert_eq!(names, vec!["Alpha", "beta", "gamma"]);
}

#[test]
fn snapshot_round_trip_is_structurally_identical() {
    let tracks = vec![
        track("Song One", "First", "Someone", 120),
        track("Song Two", "First", "Someone", 180),
        track("Autre", "Deuxième", "Ünïcode Ärtist", 240),
    ];
    let lib = build_library(tracks);
    let bytes = encode_library(&lib);
    let loaded = decode_library(&bytes).expect("snapshot should load");
    assert_eq!(loaded.len(), lib.len());
    for (a, b) in lib.iter().zip(loaded.iter()) {
        assert_eq!(a.title, b.title);
        assert_eq!(a.albums.len(), b.albums.len());
        for (x, y) in a.albums.iter().zip(b.albums.iter()) {
            assert_eq!(x.title, y.title);
            assert_eq!(x.artist, y.artist);
            assert_eq!(x.year, y.year);
            assert_eq!(x.tracks.len(), y.tracks.len());
            for (t, u) in x.tracks.iter().zip(y.tracks.iter()) {
                assert_eq!(t.title, u.title);
                assert_eq!(t.album, u.album);
                assert_eq!(t.album_artist, u.album_artist);
                assert_eq!(t.year, u.year);
                assert_eq!(t.duration, u.duration);
                assert_eq!(t.file_path, u.file_path);
            }
        }
    }
}

#[test]
fn corrupt_snapshot_is_rejected() {
    let lib = build_library(vec![track("a", "x", "p", 1)]);
    let mut bytes = encode_library(&lib);
    bytes.pop();
    assert!(decode_library(&bytes).is_none());
    assert!(decode_library(&vec![1u8, 2, 3]).is_none());
}

#[test]
fn search_exact_title_finds_coordinate() {
    let tracks = vec![
        track("Blue Monday", "Power", "New Order", 120),
        track("Ceremony", "Power", "New Order", 180),
    ];
    let lib = build_library(tracks);
    let group = create_fuzzy_searcher(&lib).unwrap();
    let q = SearchQuery::new("title Ceremony").expect("query should parse");
    match search(&group, q) {
        SearchResult::Tracks(hits) => {
            assert!(hits.contains(&(0, 0, 1)));
        }
        _ => panic!("track scope must hit the track index"),
    }
}

#[test]
fn empty_or_unscoped_queries_are_rejected() {
    assert!(SearchQuery::new("").is_none());
    assert!(SearchQuery::new("no scope word here".split(' ').next().unwrap()).is_none());
    assert!(SearchQuery::new("tempo Ceremony").is_none());
    let q = SearchQuery::new("artist New Order").unwrap();
    match q.terms {
        Term::Artist(p) => assert_eq!(p, "New Order"),
        _ => panic!("artist scope expected"),
    }
}

#[test]
fn music_file_names_are_classified_by_extension() {
    assert!(is_music_name("song.mp3"));
    assert!(is_music_name("song.flac"));
    assert!(is_music_name("song.ogg"));
    assert!(!is_music_name("song.MP3"));
    assert!(!is_music_name("song.wav"));
    assert!(!is_music_name("mp3"));
    assert!(!is_music_name(".mp3"));
    assert!(is_music_name(".hidden.mp3"));
    assert!(!is_music_name("archive.mp3.txt"));
}

#[test]
fn player_state_machine_follows_protocol() {
    let t = track("a", "x", "p", 1);
    let (s, a) = next_state(PlayerState::Idle, Command::Play(t));
    assert!(matches!(s, PlayerState::Playing));
    assert!(matches!(a, Some(SinkAction::StartTrack(_))));
    let (s, a) = next_state(s, Command::PauseToggle);
    assert!(matches!(s, PlayerState::Paused));
    assert!(matches!(a, Some(SinkAction::Pause)));
    let (s, a) = next_state(s, Command::PauseToggle);
    assert!(matches!(s, PlayerState::Playing));
    assert!(matches!(a, Some(SinkAction::Resume)));
    let (s, notify) = on_exhausted(s);
    assert!(matches!(s, PlayerState::Idle));
    assert!(notify);
    let (s, a) = next_state(s, Command::Stop);
    assert!(matches!(s, PlayerState::Idle));
    assert!(matches!(a, Some(SinkAction::Discard)));
    let (s, a) = next_state(s, Command::PauseToggle);
    assert!(matches!(s, PlayerState::Idle));
    assert!(a.is_none());
}

#[test]
fn navigation_wraps_and_restarts_columns() {
    let mut tabs = TabsState::new(vec!["queue", "library", "search"]);
    tabs.next();
    assert_eq!(tabs.index, 1);
    tabs.previous();
    tabs.previous();
    assert_eq!(tabs.index, 2);
    let items = vec![1u32, 2, 3];
    let mut col = ListState::new(items.as_slice());
    col.select_previous();
    assert_eq!(col.selected, 2);
    col.select_next();
    assert_eq!(col.selected, 0);
}
