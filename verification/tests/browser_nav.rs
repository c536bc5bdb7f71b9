use gonk_core::browser::{selected_songs, Browser, BrowserMode};
use gonk_core::library::Library;
use gonk_core::song::Song;

fn song_at(path: &str, artist: &str, album: &str, title: &str, track: u16) -> Song {
    Song {
        title: title.as_bytes().to_vec(),
        album: album.as_bytes().to_vec(),
        artist: artist.as_bytes().to_vec(),
        album_artist: artist.as_bytes().to_vec(),
        track_number: track,
        disc_number: 1,
        path: path.as_bytes().to_vec(),
        duration_ms: 1000,
        gain_milli: 0,
    }
}

fn library() -> Library {
    let mut lib = Library::new();
    let _ = lib.add_root(&b"/m".to_vec());
    lib.complete_scan(
        b"/m".to_vec(),
        vec![
            song_at("/m/1.flac", "Ann", "First", "one", 1),
            song_at("/m/2.flac", "Ann", "First", "two", 2),
            song_at("/m/3.flac", "Ann", "Second", "three", 1),
            song_at("/m/4.flac", "Bob", "Third", "four", 1),
        ],
    );
    lib
}

#[test]
fn panes_move_and_saturate() {
    let lib = library();
    let mut b = Browser::new(lib.artists());
    assert_eq!(b.mode, BrowserMode::Artist);
    assert_eq!(b.selected().unwrap(), &b"Ann".to_vec());
    b.prev_mode();
    assert_eq!(b.mode, BrowserMode::Artist);
    b.next_mode();
    b.next_mode();
    assert!(b.is_song());
    b.next_mode();
    assert!(b.is_song());
    assert_eq!(b.title(), "Song");
}

#[test]
fn selection_wraps_within_a_pane() {
    let lib = library();
    let mut b = Browser::new(lib.artists());
    b.down();
    assert_eq!(b.selected().unwrap(), &b"Bob".to_vec());
    b.down();
    assert_eq!(b.selected().unwrap(), &b"Ann".to_vec());
    b.up();
    assert_eq!(b.selected().unwrap(), &b"Bob".to_vec());
}

#[test]
fn selection_resolves_against_the_library() {
    let lib = library();
    let mut b = Browser::new(lib.artists());
    // whole artist
    let songs = selected_songs(&b, &lib);
    assert_eq!(songs.len(), 3);
    // whole album
    b.set_albums(lib.albums_for_artist(&b"Ann".to_vec()));
    b.next_mode();
    assert_eq!(b.selected().unwrap(), &b"First".to_vec());
    let songs = selected_songs(&b, &lib);
    assert_eq!(songs.len(), 2);
    // one song
    b.set_songs(vec![b"1. one".to_vec(), b"2. two".to_vec()]);
    b.next_mode();
    b.down();
    let songs = selected_songs(&b, &lib);
    assert_eq!(songs.len(), 1);
    assert_eq!(songs[0].title, b"two".to_vec());
}

#[test]
fn empty_library_browses_nothing() {
    let lib = Library::new();
    let b = Browser::new(lib.artists());
    assert!(b.selected().is_none());
    assert!(selected_songs(&b, &lib).is_empty());
}
