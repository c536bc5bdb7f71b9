use gonk_core::song::{is_audio_path, parse_track_field, song_from_tags, Tag, TagKey};

fn tag(key: TagKey, value: &str) -> Tag {
    Tag { key, value: value.as_bytes().to_vec() }
}

#[test]
fn tags_fill_the_record() {
    let tags = vec![
        tag(TagKey::Title, "My Song"),
        tag(TagKey::Album, "My Album"),
        tag(TagKey::Artist, "Someone"),
        tag(TagKey::TrackNumber, "7"),
        tag(TagKey::DiscNumber, "2"),
    ];
    let s = song_from_tags(b"/m/a.flac".to_vec(), &tags, 123_000, 250);
    assert_eq!(s.title, b"My Song".to_vec());
    assert_eq!(s.album, b"My Album".to_vec());
    assert_eq!(s.artist, b"Someone".to_vec());
    assert_eq!(s.album_artist, b"Someone".to_vec());
    assert_eq!(s.track_number, 7);
    assert_eq!(s.disc_number, 2);
    assert_eq!(s.path, b"/m/a.flac".to_vec());
    assert_eq!(s.duration_ms, 123_000);
    assert_eq!(s.gain_milli, 250);
}

#[test]
fn absent_tags_fall_back_to_unknown() {
    let s = song_from_tags(b"/m/x.mp3".to_vec(), &Vec::new(), 0, 0);
    assert_eq!(s.title, b"Unknown Title".to_vec());
    assert_eq!(s.album, b"Unknown Album".to_vec());
    assert_eq!(s.artist, b"Unknown Artist".to_vec());
    assert_eq!(s.track_number, 1);
    assert_eq!(s.disc_number, 1);
}

#[test]
fn album_artist_outranks_track_artist() {
    let tags = vec![
        tag(TagKey::Artist, "Feature"),
        tag(TagKey::AlbumArtist, "Band"),
    ];
    let s = song_from_tags(b"/m/b.ogg".to_vec(), &tags, 0, 0);
    assert_eq!(s.artist, b"Band".to_vec());
    assert_eq!(s.album_artist, b"Band".to_vec());
    // the order of the tags does not matter
    let tags = vec![
        tag(TagKey::AlbumArtist, "Band"),
        tag(TagKey::Artist, "Feature"),
    ];
    let s = song_from_tags(b"/m/b.ogg".to_vec(), &tags, 0, 0);
    assert_eq!(s.artist, b"Band".to_vec());
}

#[test]
fn track_fields_parse_their_slash_form() {
    assert_eq!(parse_track_field(&b"12".to_vec()), 12);
    assert_eq!(parse_track_field(&b"3/14".to_vec()), 3);
    assert_eq!(parse_track_field(&b"".to_vec()), 1);
    assert_eq!(parse_track_field(&b"abc".to_vec()), 1);
    assert_eq!(parse_track_field(&b"4a".to_vec()), 1);
    assert_eq!(parse_track_field(&b"/9".to_vec()), 1);
    assert_eq!(parse_track_field(&b"65535".to_vec()), 65535);
    assert_eq!(parse_track_field(&b"65536".to_vec()), 1);
    assert_eq!(parse_track_field(&b"999999999999999999999".to_vec()), 1);
}

#[test]
fn audio_extensions_are_recognised() {
    assert!(is_audio_path(&b"/m/a.flac".to_vec()));
    assert!(is_audio_path(&b"/m/a.mp3".to_vec()));
    assert!(is_audio_path(&b"/m/a.ogg".to_vec()));
    assert!(is_audio_path(&b"/m/a.wav".to_vec()));
    assert!(is_audio_path(&b"/m/a.m4a".to_vec()));
    assert!(!is_audio_path(&b"/m/a.txt".to_vec()));
    assert!(!is_audio_path(&b"/m/aflac".to_vec()));
    assert!(!is_audio_path(&b"/m/a.FLAC".to_vec()));
}
