use gonk_core::library::{LibState, Library};
use gonk_core::song::{is_audio_path, Song};

fn song_at(path: &str, artist: &str, album: &str, disc: u16, track: u16) -> Song {
    Song {
        title: b"t".to_vec(),
        album: album.as_bytes().to_vec(),
        artist: artist.as_bytes().to_vec(),
        album_artist: artist.as_bytes().to_vec(),
        track_number: track,
        disc_number: disc,
        path: path.as_bytes().to_vec(),
        duration_ms: 1000,
        gain_milli: 0,
    }
}

#[test]
fn scan_keeps_audio_files_exactly_once() {
    // of {x.flac, y.mp3, z.txt} only the audio files make it in
    let files = [b"/r/x.flac".to_vec(), b"/r/y.mp3".to_vec(), b"/r/z.txt".to_vec()];
    let audio: Vec<Vec<u8>> = files.iter().filter(|f| is_audio_path(f)).cloned().collect();
    assert_eq!(audio, vec![b"/r/x.flac".to_vec(), b"/r/y.mp3".to_vec()]);

    let mut lib = Library::new();
    let fresh = lib.add_root(&b"/r".to_vec());
    assert!(fresh);
    assert_eq!(lib.state, LibState::Busy);
    let batch: Vec<Song> = audio
        .iter()
        .map(|p| song_at(std::str::from_utf8(p).unwrap(), "A", "B", 1, 1))
        .collect();
    lib.complete_scan(b"/r".to_vec(), batch);
    assert_eq!(lib.state, LibState::NeedsUpdate);
    assert_eq!(lib.list_songs().len(), 2);

    // re-running the scan adds nothing
    let _ = lib.add_root(&b"/r".to_vec());
    let batch: Vec<Song> = audio
        .iter()
        .map(|p| song_at(std::str::from_utf8(p).unwrap(), "A", "B", 1, 1))
        .collect();
    lib.complete_scan(b"/r".to_vec(), batch);
    assert_eq!(lib.list_songs().len(), 2);
    assert_eq!(lib.roots.len(), 1);
}

#[test]
fn remove_root_returns_to_snapshot() {
    let mut lib = Library::new();
    let _ = lib.add_root(&b"/old".to_vec());
    lib.complete_scan(b"/old".to_vec(), vec![song_at("/old/a.flac", "A", "B", 1, 1)]);
    let before: Vec<_> = lib.list_songs();
    let roots_before = lib.roots.clone();

    let _ = lib.add_root(&b"/new".to_vec());
    lib.complete_scan(
        b"/new".to_vec(),
        vec![song_at("/new/b.flac", "C", "D", 1, 1), song_at("/new/c.flac", "C", "D", 1, 2)],
    );
    assert_eq!(lib.list_songs().len(), 3);

    lib.remove_root(&b"/new".to_vec());
    let after: Vec<_> = lib.list_songs();
    assert_eq!(before.len(), after.len());
    for (x, y) in before.iter().zip(after.iter()) {
        assert_eq!(x.0, y.0);
        assert_eq!(x.1, y.1);
    }
    assert_eq!(lib.roots, roots_before);
}

#[test]
fn queries_sort_case_insensitively() {
    let mut lib = Library::new();
    let _ = lib.add_root(&b"/m".to_vec());
    lib.complete_scan(
        b"/m".to_vec(),
        vec![
            song_at("/m/1.flac", "zeta", "beta", 1, 2),
            song_at("/m/2.flac", "Alpha", "beta", 1, 1),
            song_at("/m/3.flac", "alphaB", "Gamma", 1, 1),
            song_at("/m/4.flac", "zeta", "Alpha", 2, 1),
        ],
    );
    let artists = lib.artists();
    assert_eq!(
        artists,
        vec![b"Alpha".to_vec(), b"alphaB".to_vec(), b"zeta".to_vec()]
    );
    let zeta_songs = lib.songs_for_artist(&b"zeta".to_vec());
    assert_eq!(zeta_songs.len(), 2);
    assert_eq!(zeta_songs[0].album, b"Alpha".to_vec());
    assert_eq!(zeta_songs[1].album, b"beta".to_vec());
    let albums = lib.albums_for_artist(&b"zeta".to_vec());
    assert_eq!(albums, vec![b"Alpha".to_vec(), b"beta".to_vec()]);
}

#[test]
fn songs_for_album_order_by_disc_then_track() {
    let mut lib = Library::new();
    let _ = lib.add_root(&b"/m".to_vec());
    lib.complete_scan(
        b"/m".to_vec(),
        vec![
            song_at("/m/1.flac", "A", "X", 2, 1),
            song_at("/m/2.flac", "A", "X", 1, 2),
            song_at("/m/3.flac", "A", "X", 1, 1),
        ],
    );
    let songs = lib.songs_for_album(&b"X".to_vec(), &b"A".to_vec());
    assert_eq!(songs.len(), 3);
    assert_eq!((songs[0].disc_number, songs[0].track_number), (1, 1));
    assert_eq!((songs[1].disc_number, songs[1].track_number), (1, 2));
    assert_eq!((songs[2].disc_number, songs[2].track_number), (2, 1));
}

#[test]
fn sync_drops_stale_roots_and_reports_missing() {
    let mut lib = Library::new();
    let _ = lib.add_root(&b"/keep".to_vec());
    lib.complete_scan(b"/keep".to_vec(), vec![song_at("/keep/a.flac", "A", "B", 1, 1)]);
    let _ = lib.add_root(&b"/stale".to_vec());
    lib.complete_scan(b"/stale".to_vec(), vec![song_at("/stale/b.flac", "C", "D", 1, 1)]);

    let declared = vec![b"/keep".to_vec(), b"/fresh".to_vec()];
    let to_add = lib.sync(&declared);
    assert_eq!(to_add, vec![b"/fresh".to_vec()]);
    assert_eq!(lib.roots, vec![b"/keep".to_vec()]);
    assert_eq!(lib.list_songs().len(), 1);
    assert_eq!(lib.state, LibState::NeedsUpdate);
    lib.ack_update();
    assert_eq!(lib.state, LibState::Idle);
}

#[test]
fn song_by_id_misses_out_of_range() {
    let lib = Library::new();
    assert!(lib.song_by_id(0).is_none());
}
