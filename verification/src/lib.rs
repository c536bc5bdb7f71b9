//! Core of a terminal music player: the bounded sample ring buffer, the
//! sample-rate converter, the playback queue and its pipeline state machine,
//! the on-disk song index, playlists, and fuzzy search ranking.
//!
//! Everything here is plain data and decisions; the surrounding binary owns
//! the devices, the files and the threads and talks to this crate in plain
//! values.

pub mod browser;
pub mod buffer;
pub mod error;
pub mod index;
pub mod library;
pub mod player;
pub mod playlist;
pub mod rb;
pub mod record;
pub mod resample;
pub mod search;
pub mod song;
pub mod source;
pub mod text;

use vstd::prelude::*;

verus! {

/// Playback state of the audio pipeline.
#[derive(Debug, PartialEq, Eq, Structural, Clone, Copy)]
pub enum State {
    Stopped,
    Paused,
    Playing,
    Finished,
}

} // verus!
