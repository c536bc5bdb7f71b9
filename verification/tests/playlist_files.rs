use gonk_core::error::Error;
use gonk_core::index::Index;
use gonk_core::playlist::{delete_song_at, RawPlaylist};
use gonk_core::record::{RawSong, SONG_LEN, TEXT_LEN};

fn raw(name: &str, album: &str, artist: &str, path: &str, number: u8, disc: u8) -> RawSong {
    RawSong::new(
        name.as_bytes().to_vec(),
        album.as_bytes().to_vec(),
        artist.as_bytes().to_vec(),
        path.as_bytes().to_vec(),
        number,
        disc,
    )
}

#[test]
fn record_round_trip_is_bit_for_bit() {
    let s = raw("Song One", "The Album", "Some Artist", "/m/1.flac", 3, 2);
    assert!(s.fits());
    let bytes = s.into_bytes();
    assert_eq!(bytes.len(), SONG_LEN);
    let back = gonk_core::record::decode_record(&bytes, 0).unwrap();
    assert_eq!(back, s);
}

#[test]
fn playlist_round_trip_preserves_name_and_order() {
    let mut p = RawPlaylist::new(b"road trip".to_vec());
    p.push(raw("b", "B", "BB", "/m/b.flac", 2, 1));
    p.push(raw("a", "A", "AA", "/m/a.flac", 1, 1));
    let bytes = p.serialize();
    // header: 2 length bytes, the name, one reserved zero
    assert_eq!(bytes[0] as usize + 256 * bytes[1] as usize, 9);
    assert_eq!(&bytes[2..11], b"road trip");
    assert_eq!(bytes[11], 0);
    assert_eq!(bytes.len(), 12 + 2 * SONG_LEN);
    let back = RawPlaylist::deserialize(&bytes).unwrap();
    assert_eq!(back.name, p.name);
    assert_eq!(back.songs, p.songs);
}

#[test]
fn empty_playlist_round_trips() {
    let p = RawPlaylist::new(b"empty".to_vec());
    let bytes = p.serialize();
    let back = RawPlaylist::deserialize(&bytes).unwrap();
    assert_eq!(back.name, p.name);
    assert!(back.songs.is_empty());
}

#[test]
fn short_header_is_corrupt() {
    assert!(matches!(RawPlaylist::deserialize(&vec![7]), Err(Error::CorruptData)));
}

#[test]
fn nonzero_separator_is_corrupt() {
    let mut bytes = vec![1, 0, b'x'];
    bytes.push(9);
    assert!(matches!(RawPlaylist::deserialize(&bytes), Err(Error::CorruptData)));
}

#[test]
fn record_without_terminators_is_corrupt() {
    let mut bytes = vec![0, 0, 0];
    bytes.extend(std::iter::repeat(1u8).take(SONG_LEN));
    assert!(matches!(RawPlaylist::deserialize(&bytes), Err(Error::CorruptData)));
}

#[test]
fn short_trailing_record_stops_the_read() {
    let mut p = RawPlaylist::new(b"p".to_vec());
    p.push(raw("a", "A", "AA", "/m/a.flac", 1, 1));
    let mut bytes = p.serialize();
    // half a record dangling at the end is ignored
    bytes.extend(std::iter::repeat(0u8).take(SONG_LEN / 2));
    let back = RawPlaylist::deserialize(&bytes).unwrap();
    assert_eq!(back.songs.len(), 1);
}

#[test]
fn oversized_text_does_not_fit() {
    let long = "x".repeat(TEXT_LEN);
    let s = raw(&long, "a", "b", "c", 1, 1);
    assert!(!s.fits());
}

#[test]
fn deleting_last_song_deletes_playlist() {
    let mut one = RawPlaylist::new(b"one".to_vec());
    one.push(raw("a", "A", "AA", "/m/a.flac", 1, 1));
    let mut two = RawPlaylist::new(b"two".to_vec());
    two.push(raw("b", "B", "BB", "/m/b.flac", 1, 1));
    two.push(raw("c", "C", "CC", "/m/c.flac", 1, 1));
    let mut lists = Index::new(vec![one, two], Some(0));
    // removing a song that leaves others keeps the playlist
    let deleted = delete_song_at(&mut lists, 1, 0);
    assert!(!deleted);
    assert_eq!(lists.data.len(), 2);
    assert_eq!(lists.data[1].songs.len(), 1);
    // removing the last song drops the playlist itself
    let deleted = delete_song_at(&mut lists, 0, 0);
    assert!(deleted);
    assert_eq!(lists.data.len(), 1);
    assert_eq!(lists.data[0].name, b"two".to_vec());
}

#[test]
fn error_messages_name_their_kind() {
    assert_eq!(Error::NotFound.message(), "not found");
    assert_eq!(Error::UnsupportedFormat.message(), "unsupported format");
    assert_eq!(Error::IoError.message(), "input or output failed");
    assert_eq!(Error::DeviceError.message(), "audio device failed");
    assert_eq!(Error::CorruptData.message(), "corrupt data");
}
