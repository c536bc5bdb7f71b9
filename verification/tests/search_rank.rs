use gonk_core::search::{
    build_cache, rank, Album, Artist, Item, Search, SearchMode, Song,
};
use gonk_core::library::Library;

fn items() -> Vec<Item> {
    vec![
        Item::Song(Song {
            id: 0,
            name: b"hello".to_vec(),
            album: b"al".to_vec(),
            artist: b"ar".to_vec(),
        }),
        Item::Album(Album { name: b"hello".to_vec(), artist: b"ar".to_vec() }),
        Item::Artist(Artist { name: b"hello".to_vec() }),
        Item::Song(Song {
            id: 1,
            name: b"other".to_vec(),
            album: b"al".to_vec(),
            artist: b"ar".to_vec(),
        }),
    ]
}

#[test]
fn threshold_excludes_weak_matches() {
    let cache = items();
    let scores = vec![9000, 7500, 7501, 100];
    let r = rank(&cache, &scores, false);
    // 7500 is not above the threshold; 7501 is
    assert_eq!(r.len(), 2);
    assert_eq!(r[0].0, 9000);
    assert_eq!(r[1].0, 7501);
}

#[test]
fn ties_order_artist_album_song() {
    let cache = items();
    let scores = vec![8000, 8000, 8000, 100];
    let r = rank(&cache, &scores, false);
    assert_eq!(r.len(), 3);
    assert!(matches!(r[0].1, Item::Artist(_)));
    assert!(matches!(r[1].1, Item::Album(_)));
    assert!(matches!(r[2].1, Item::Song(_)));
}

#[test]
fn empty_query_seeds_in_cache_order() {
    let cache = items();
    let scores = vec![0, 0, 0, 0];
    let r = rank(&cache, &scores, true);
    assert_eq!(r.len(), 4);
    assert!(matches!(r[0].1, Item::Song(_)));
    assert!(matches!(r[3].1, Item::Song(_)));
}

#[test]
fn search_pane_edits_and_latches_the_query() {
    let mut s = Search::new();
    s.on_key(b'a');
    s.on_key(b'b');
    assert_eq!(s.get_query(), b"ab".to_vec());
    assert!(s.has_query_changed());
    assert!(!s.has_query_changed());
    s.on_backspace(false);
    assert_eq!(s.get_query(), b"a".to_vec());
    s.on_backspace(true);
    assert_eq!(s.get_query(), b"".to_vec());
    assert_eq!(s.query_len(), 0);
}

#[test]
fn selecting_and_leaving_the_pane() {
    let mut s = Search::new();
    s.set_cache(items());
    s.on_key(b'h');
    let scores = vec![9000, 8000, 8000, 0];
    s.update_search(&scores);
    assert_eq!(s.results().len(), 3);
    let lib = Library::new();
    // confirming while typing moves to selecting the first result
    let r = s.get_songs(&lib);
    assert!(r.is_none());
    assert_eq!(s.selected(), Some(0));
    assert!(!s.show_cursor());
    // backing out returns to typing
    let closed = s.exit_search();
    assert!(!closed);
    assert!(s.show_cursor());
    let closed = s.exit_search();
    assert!(closed);
    assert!(s.is_empty() || s.results().len() > 0);
}

#[test]
fn cache_built_from_library_lists_songs_albums_artists() {
    let mut lib = Library::new();
    let _ = lib.add_root(&b"/m".to_vec());
    lib.complete_scan(
        b"/m".to_vec(),
        vec![gonk_core::song::Song {
            title: b"t1".to_vec(),
            album: b"alb".to_vec(),
            artist: b"art".to_vec(),
            album_artist: b"art".to_vec(),
            track_number: 1,
            disc_number: 1,
            path: b"/m/1.flac".to_vec(),
            duration_ms: 1,
            gain_milli: 0,
        }],
    );
    let cache = build_cache(&lib);
    // one song row, one album row, one artist row
    assert_eq!(cache.len(), 3);
    assert!(matches!(&cache[0], Item::Song(s) if s.name == b"t1".to_vec()));
}

#[test]
fn search_mode_flips_and_resets() {
    let mut m = SearchMode::Search;
    m.next();
    assert_eq!(m, SearchMode::Select);
    m.next();
    assert_eq!(m, SearchMode::Search);
    m.next();
    m.reset();
    assert_eq!(m, SearchMode::Search);
}
