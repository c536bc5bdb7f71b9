use gonk_core::index::Index;
use gonk_core::player::{Command, Player, PumpEvent};
use gonk_core::song::Song;
use gonk_core::State;

fn song(title: &str, dur_ms: u64) -> Song {
    Song {
        title: title.as_bytes().to_vec(),
        album: b"Album".to_vec(),
        artist: b"Artist".to_vec(),
        album_artist: b"Artist".to_vec(),
        track_number: 1,
        disc_number: 1,
        path: format!("/music/{}.flac", title).into_bytes(),
        duration_ms: dur_ms,
        gain_milli: 0,
    }
}

fn fresh_player() -> Player {
    Player::new(Index::empty(), 50, 0)
}

#[test]
fn add_to_empty_queue_starts_playing_first() {
    let mut p = fresh_player();
    p.add(vec![song("a", 1000), song("b", 2000), song("c", 3000)]);
    assert_eq!(p.songs.index, Some(0));
    assert_eq!(p.state(), State::Playing);
    let cmds = p.take_commands();
    assert_eq!(cmds.len(), 1);
    assert!(matches!(&cmds[0], Command::Load { path, .. } if path == b"/music/a.flac"));
}

#[test]
fn next_saturates_at_the_end() {
    let mut p = fresh_player();
    p.add(vec![song("a", 1), song("b", 1), song("c", 1)]);
    p.next();
    p.next();
    assert_eq!(p.songs.index, Some(2));
    p.next();
    assert_eq!(p.songs.index, Some(2));
    let cmds = p.take_commands();
    // one load for the add, one per effective step; the saturated step loads nothing
    assert_eq!(cmds.len(), 3);
    assert!(matches!(&cmds[2], Command::Load { path, .. } if path == b"/music/c.flac"));
}

#[test]
fn prev_saturates_at_the_front() {
    let mut p = fresh_player();
    p.add(vec![song("a", 1), song("b", 1)]);
    p.prev();
    assert_eq!(p.songs.index, Some(0));
}

#[test]
fn delete_playing_song_at_front_reloads_front() {
    let mut p = fresh_player();
    p.add(vec![song("a", 1), song("b", 1), song("c", 1)]);
    let _ = p.take_commands();
    p.delete_index(0);
    assert_eq!(p.songs.data.len(), 2);
    assert_eq!(p.songs.index, Some(0));
    let cmds = p.take_commands();
    assert!(matches!(&cmds[0], Command::Load { path, .. } if path == b"/music/b.flac"));
}

#[test]
fn delete_past_cursor_keeps_cursor_and_does_not_reload() {
    let mut p = fresh_player();
    p.add(vec![song("a", 1), song("b", 1), song("c", 1)]);
    p.next();
    let _ = p.take_commands();
    p.delete_index(2);
    assert_eq!(p.songs.data.len(), 2);
    assert_eq!(p.songs.index, Some(1));
    assert!(p.take_commands().is_empty());
}

#[test]
fn delete_playing_song_at_back_clamps_cursor() {
    let mut p = fresh_player();
    p.add(vec![song("a", 1), song("b", 1), song("c", 1)]);
    p.next();
    p.next();
    let _ = p.take_commands();
    p.delete_index(2);
    assert_eq!(p.songs.index, Some(1));
    let cmds = p.take_commands();
    assert!(matches!(&cmds[0], Command::Load { path, .. } if path == b"/music/b.flac"));
}

#[test]
fn delete_before_cursor_renumbers_it() {
    let mut p = fresh_player();
    p.add(vec![song("a", 1), song("b", 1), song("c", 1)]);
    p.next();
    let _ = p.take_commands();
    p.delete_index(0);
    assert_eq!(p.songs.index, Some(0));
    assert!(p.take_commands().is_empty());
}

#[test]
fn delete_last_song_stops_playback() {
    let mut p = fresh_player();
    p.add(vec![song("a", 1)]);
    p.delete_index(0);
    assert_eq!(p.songs.data.len(), 0);
    assert_eq!(p.songs.index, None);
    assert_eq!(p.state(), State::Stopped);
}

#[test]
fn cursor_always_inside_queue() {
    let mut p = fresh_player();
    p.add(vec![song("a", 1), song("b", 1)]);
    for op in 0..12 {
        match op % 4 {
            0 => p.next(),
            1 => p.prev(),
            2 => p.update(PumpEvent::Idle),
            _ => p.toggle_playback(),
        }
        match p.songs.index {
            Some(i) => assert!(i < p.songs.data.len()),
            None => assert!(p.songs.data.is_empty()),
        }
    }
}

#[test]
fn volume_clamps_at_both_ends() {
    let mut p = Player::new(Index::empty(), 0, 0);
    p.volume_down();
    assert_eq!(p.volume(), 0);
    for _ in 0..30 {
        p.volume_up();
    }
    assert_eq!(p.volume(), 100);
    p.volume_up();
    assert_eq!(p.volume(), 100);
    p.volume_down();
    assert_eq!(p.volume(), 95);
}

#[test]
fn seek_past_end_clamps_to_duration_then_finishes_on_pump() {
    let mut p = fresh_player();
    p.add(vec![song("a", 30_000), song("b", 10_000)]);
    let _ = p.take_commands();
    // elapsed = duration - 3 s, seek +10 s
    p.seek(27_000);
    p.seek_foward();
    assert_eq!(p.elapsed(), 30_000);
    // the decoder hits the end of the stream on the next pump
    p.update(PumpEvent::EndOfStream);
    // auto-advance ran in the same tick: the next song loads
    assert_eq!(p.songs.index, Some(1));
    assert_eq!(p.state(), State::Playing);
    let cmds = p.take_commands();
    assert!(cmds
        .iter()
        .any(|c| matches!(c, Command::Load { path, .. } if path == b"/music/b.flac")));
}

#[test]
fn finished_at_end_of_queue_clears() {
    let mut p = fresh_player();
    p.add(vec![song("a", 1000)]);
    p.update(PumpEvent::EndOfStream);
    assert_eq!(p.state(), State::Stopped);
    assert!(p.songs.data.is_empty());
    // a second observation cannot advance again
    p.update(PumpEvent::EndOfStream);
    assert_eq!(p.state(), State::Stopped);
}

#[test]
fn toggle_flips_between_playing_and_paused() {
    let mut p = fresh_player();
    p.add(vec![song("a", 1000)]);
    assert_eq!(p.state(), State::Playing);
    p.toggle_playback();
    assert_eq!(p.state(), State::Paused);
    p.toggle_playback();
    assert_eq!(p.state(), State::Playing);
}

#[test]
fn clear_except_playing_keeps_only_cursor_song() {
    let mut p = fresh_player();
    p.add(vec![song("a", 1), song("b", 1), song("c", 1)]);
    p.next();
    p.clear_except_playing();
    assert_eq!(p.songs.data.len(), 1);
    assert_eq!(p.songs.index, Some(0));
    assert_eq!(p.songs.data[0].title, b"b".to_vec());
}

#[test]
fn restore_resumes_paused_at_saved_position() {
    let mut queue = Index::empty();
    queue.push(song("a", 60_000));
    queue.select(Some(0));
    let p = Player::new(queue, 30, 12_000);
    assert_eq!(p.state(), State::Paused);
    assert_eq!(p.elapsed(), 12_000);
    assert_eq!(p.duration(), 60_000);
}

#[test]
fn shuffle_keeps_songs_and_follows_playing() {
    let mut p = fresh_player();
    let songs: Vec<_> = (0..60).map(|i| song(&format!("s{:02}", i), 100)).collect();
    p.add(songs);
    p.play_index(17);
    let before_title = p.songs.data[17].title.clone();
    let mut titles_before: Vec<Vec<u8>> =
        p.songs.data.iter().map(|s| s.title.clone()).collect();
    titles_before.sort();
    let mut changed = false;
    for _ in 0..10 {
        p.randomize();
        let mut titles_after: Vec<Vec<u8>> =
            p.songs.data.iter().map(|s| s.title.clone()).collect();
        let order_after: Vec<Vec<u8>> = p.songs.data.iter().map(|s| s.title.clone()).collect();
        titles_after.sort();
        assert_eq!(titles_before, titles_after);
        let i = p.songs.index.unwrap();
        assert_eq!(p.songs.data[i].title, before_title);
        if order_after.windows(2).any(|w| w[0] > w[1]) || order_after[0] != b"s00".to_vec() {
            changed = true;
        }
    }
    assert!(changed);
}
