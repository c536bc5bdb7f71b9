use vstd::prelude::*;

use rand::seq::SliceRandom;

use crate::index::{spec_index_after_remove, Index};
use crate::song::{clone_bytes, clone_song, Song};
use crate::State;

verus! {

/// What the audio edge must do next. The controller queues these in the
/// order it decided them; the edge performs them in that order: open a
/// decoder, seek it (flushing the sample buffer), reopen the output
/// device, or drop the decoder and flush.
#[derive(Debug)]
pub enum Command {
    Load { path: Vec<u8>, gain_milli: u32 },
    Restore { path: Vec<u8>, gain_milli: u32, elapsed_ms: u64 },
    Seek { ms: u64 },
    SetDevice { name: Vec<u8> },
    Stop,
}

/// A command with its texts as mathematical sequences.
pub enum CmdModel {
    Load { path: Seq<u8>, gain_milli: u32 },
    Restore { path: Seq<u8>, gain_milli: u32, elapsed_ms: u64 },
    Seek { ms: u64 },
    SetDevice { name: Seq<u8> },
    Stop,
}

impl Command {
    pub open spec fn model(self) -> CmdModel {
        match self {
            Command::Load { path, gain_milli } => CmdModel::Load { path: path@, gain_milli },
            Command::Restore { path, gain_milli, elapsed_ms } => CmdModel::Restore {
                path: path@,
                gain_milli,
                elapsed_ms,
            },
            Command::Seek { ms } => CmdModel::Seek { ms },
            Command::SetDevice { name } => CmdModel::SetDevice { name: name@ },
            Command::Stop => CmdModel::Stop,
        }
    }
}

/// What the decode loop reported since the last turn: nothing, or that the
/// stream ended, or that the output device failed.
#[derive(Debug, PartialEq, Eq, Structural, Clone, Copy)]
pub enum PumpEvent {
    Idle,
    EndOfStream,
    DeviceError,
}

/// The playback controller: the queue of songs with its cursor, the
/// pipeline state, the master volume on the 0 to 100 scale, the current
/// track's gain, and the positions the interface shows. Commands for the
/// audio edge queue up in `commands` in decision order.
///
/// The master volume handed to the output callback is this `volume`
/// divided by the volume reduction factor of 150; that division is the
/// edge's, as is every other floating-point step.
pub struct Player {
    pub songs: Index<Song>,
    pub state: State,
    pub volume: u8,
    pub gain_milli: u32,
    pub elapsed_ms: u64,
    pub duration_ms: u64,
    pub commands: Vec<Command>,
}

/// The volume scale's step.
pub const VOLUME_STEP: u8 = 5;

impl Player {
    /// The queue cursor is valid and the volume stays on its scale.
    pub open spec fn wf(self) -> bool {
        &&& self.songs.wf()
        &&& self.volume <= 100
    }

    /// The commands queued for the audio edge, oldest first.
    pub open spec fn cmds(self) -> Seq<CmdModel> {
        self.commands@.map_values(|c: Command| c.model())
    }

    pub open spec fn cursor(self) -> Option<usize> {
        self.songs.index
    }

    /// Start a controller over a saved queue. With a song under the
    /// cursor, playback resumes paused where it left off; otherwise the
    /// controller starts stopped.
    pub fn new(songs: Index<Song>, volume: u8, elapsed_ms: u64) -> (p: Player)
        requires
            songs.wf(),
            volume <= 100,
        ensures
            p.wf(),
            p.songs == songs,
            p.volume == volume,
            match songs.index {
                Some(i) => {
                    &&& p.state == State::Paused
                    &&& p.duration_ms == songs.data@[i as int].duration_ms
                    &&& p.elapsed_ms == spec_min_u64(elapsed_ms, p.duration_ms)
                    &&& p.cmds() == seq![
                        CmdModel::Restore {
                            path: songs.data@[i as int].path@,
                            gain_milli: songs.data@[i as int].gain_milli,
                            elapsed_ms: p.elapsed_ms,
                        },
                    ]
                },
                None => {
                    &&& p.state == State::Stopped
                    &&& p.elapsed_ms == 0
                    &&& p.duration_ms == 0
                    &&& p.cmds() == Seq::<CmdModel>::empty()
                },
            },
    {
        let mut p = Player {
            songs,
            state: State::Stopped,
            volume,
            gain_milli: 500,
            elapsed_ms: 0,
            duration_ms: 0,
            commands: Vec::new(),
        };
        let (path, gain, duration) = match p.songs.selected() {
            Some(song) => (clone_bytes(&song.path), song.gain_milli, song.duration_ms),
            None => {
                assert(p.cmds() =~= Seq::<CmdModel>::empty());
                return p;
            },
        };
        p.state = State::Paused;
        p.duration_ms = duration;
        p.elapsed_ms = if elapsed_ms < duration {
            elapsed_ms
        } else {
            duration
        };
        if gain != 0 {
            p.gain_milli = gain;
        }
        let e = p.elapsed_ms;
        p.commands.push(Command::Restore { path, gain_milli: gain, elapsed_ms: e });
        proof {
            assert(p.cmds() =~= seq![
                CmdModel::Restore {
                    path: p.songs.data@[p.songs.index->0 as int].path@,
                    gain_milli: gain,
                    elapsed_ms: p.elapsed_ms,
                },
            ]);
        }
        p
    }

    /// Begin playing the song under the cursor: reset the clock, install
    /// the track gain, and queue the load for the audio edge.
    fn load_current(&mut self)
        requires
            old(self).wf(),
            old(self).songs.index is Some,
        ensures
            final(self).wf(),
            final(self).songs == old(self).songs,
            final(self).volume == old(self).volume,
            final(self).state == State::Playing,
            final(self).elapsed_ms == 0,
            final(self).duration_ms == old(self).songs.data@[
                old(self).songs.index->0 as int
            ].duration_ms,
            final(self).cmds() == old(self).cmds().push(
                CmdModel::Load {
                    path: old(self).songs.data@[old(self).songs.index->0 as int].path@,
                    gain_milli: old(self).songs.data@[old(self).songs.index->0 as int].gain_milli,
                },
            ),
    {
        let (path, gain, duration) = match self.songs.selected() {
            Some(song) => (clone_bytes(&song.path), song.gain_milli, song.duration_ms),
            None => {
                proof {
                    assert(false);
                }
                unreached()
            },
        };
        self.state = State::Playing;
        self.elapsed_ms = 0;
        self.duration_ms = duration;
        if gain != 0 {
            self.gain_milli = gain;
        }
        self.commands.push(Command::Load { path, gain_milli: gain });
        proof {
            assert(self.cmds() =~= old(self).cmds().push(
                CmdModel::Load {
                    path: old(self).songs.data@[old(self).songs.index->0 as int].path@,
                    gain_milli: old(self).songs.data@[old(self).songs.index->0 as int].gain_milli,
                },
            ));
        }
    }

    /// Hand the queued commands to the audio edge, oldest first.
    pub fn take_commands(&mut self) -> (r: Vec<Command>)
        requires
            old(self).wf(),
        ensures
            final(self).wf(),
            r@.map_values(|c: Command| c.model()) == old(self).cmds(),
            final(self).cmds() == Seq::<CmdModel>::empty(),
            final(self).songs == old(self).songs,
            final(self).state == old(self).state,
            final(self).volume == old(self).volume,
            final(self).elapsed_ms == old(self).elapsed_ms,
            final(self).duration_ms == old(self).duration_ms,
    {
        let mut out: Vec<Command> = Vec::new();
        core::mem::swap(&mut out, &mut self.commands);
        proof {
            assert(self.cmds() =~= Seq::<CmdModel>::empty());
        }
        out
    }

    pub fn play(&mut self)
        requires
            old(self).wf(),
        ensures
            final(self).wf(),
            *final(self) == (Player { state: State::Playing, ..*old(self) }),
    {
        self.state = State::Playing;
    }

    pub fn pause(&mut self)
        requires
            old(self).wf(),
        ensures
            final(self).wf(),
            *final(self) == (Player { state: State::Paused, ..*old(self) }),
    {
        self.state = State::Paused;
    }

    /// Toggle between playing and paused; in any other state do nothing.
    pub fn toggle_playback(&mut self)
        requires
            old(self).wf(),
        ensures
            final(self).wf(),
            old(self).state == State::Playing ==> *final(self) == (Player {
                state: State::Paused,
                ..*old(self)
            }),
            old(self).state == State::Paused ==> *final(self) == (Player {
                state: State::Playing,
                ..*old(self)
            }),
            old(self).state == State::Stopped || old(self).state == State::Finished
                ==> *final(self) == *old(self),
    {
        match self.state {
            State::Paused => self.play(),
            State::Playing => self.pause(),
            _ => (),
        }
    }

    /// Move the clock to `pos_ms`, clamped to the track's duration, and
    /// queue the seek for the audio edge. Seeking past the end lands
    /// exactly at the duration, where the decoder will next report the
    /// end of the stream.
    pub fn seek(&mut self, pos_ms: u64)
        requires
            old(self).wf(),
        ensures
            final(self).wf(),
            final(self).elapsed_ms == spec_min_u64(pos_ms, old(self).duration_ms),
            final(self).cmds() == old(self).cmds().push(
                CmdModel::Seek { ms: spec_min_u64(pos_ms, old(self).duration_ms) },
            ),
            final(self).songs == old(self).songs,
            final(self).state == old(self).state,
            final(self).volume == old(self).volume,
            final(self).duration_ms == old(self).duration_ms,
    {
        let target = if pos_ms < self.duration_ms {
            pos_ms
        } else {
            self.duration_ms
        };
        self.elapsed_ms = target;
        self.commands.push(Command::Seek { ms: target });
        proof {
            assert(self.cmds() =~= old(self).cmds().push(CmdModel::Seek { ms: target }));
        }
    }

    /// Seek ten seconds ahead (clamped to the duration).
    pub fn seek_foward(&mut self)
        requires
            old(self).wf(),
        ensures
            final(self).wf(),
            final(self).elapsed_ms == spec_min_u64(
                spec_sat_add_u64(old(self).elapsed_ms, 10_000),
                old(self).duration_ms,
            ),
            final(self).cmds() == old(self).cmds().push(
                CmdModel::Seek { ms: final(self).elapsed_ms },
            ),
            final(self).songs == old(self).songs,
            final(self).state == old(self).state,
            final(self).duration_ms == old(self).duration_ms,
    {
        let target = if self.elapsed_ms <= u64::MAX - 10_000 {
            self.elapsed_ms + 10_000
        } else {
            u64::MAX
        };
        self.seek(target);
    }

    /// Seek ten seconds back (clamped to the start).
    pub fn seek_backward(&mut self)
        requires
            old(self).wf(),
        ensures
            final(self).wf(),
            final(self).elapsed_ms == spec_min_u64(
                spec_sat_sub_u64(old(self).elapsed_ms, 10_000),
                old(self).duration_ms,
            ),
            final(self).cmds() == old(self).cmds().push(
                CmdModel::Seek { ms: final(self).elapsed_ms },
            ),
            final(self).songs == old(self).songs,
            final(self).state == old(self).state,
            final(self).duration_ms == old(self).duration_ms,
    {
        let target = if self.elapsed_ms >= 10_000 {
            self.elapsed_ms - 10_000
        } else {
            0
        };
        self.seek(target);
    }

    /// One step louder: up by the step, never past 100.
    pub fn volume_up(&mut self)
        requires
            old(self).wf(),
        ensures
            final(self).wf(),
            final(self).volume == (if old(self).volume + VOLUME_STEP <= 100 {
                (old(self).volume + VOLUME_STEP) as u8
            } else {
                100u8
            }),
            *final(self) == (Player { volume: final(self).volume, ..*old(self) }),
    {
        if self.volume <= 100 - VOLUME_STEP {
            self.volume = self.volume + VOLUME_STEP;
        } else {
            self.volume = 100;
        }
    }

    /// One step quieter: down by the step, never below zero.
    pub fn volume_down(&mut self)
        requires
            old(self).wf(),
        ensures
            final(self).wf(),
            final(self).volume == (if old(self).volume >= VOLUME_STEP {
                (old(self).volume - VOLUME_STEP) as u8
            } else {
                0u8
            }),
            *final(self) == (Player { volume: final(self).volume, ..*old(self) }),
    {
        if self.volume >= VOLUME_STEP {
            self.volume = self.volume - VOLUME_STEP;
        } else {
            self.volume = 0;
        }
    }

    pub fn volume(&self) -> (v: u8)
        ensures
            v == self.volume,
    {
        self.volume
    }

    pub fn elapsed(&self) -> (e: u64)
        ensures
            e == self.elapsed_ms,
    {
        self.elapsed_ms
    }

    pub fn duration(&self) -> (d: u64)
        ensures
            d == self.duration_ms,
    {
        self.duration_ms
    }

    pub fn is_playing(&self) -> (r: bool)
        ensures
            r == (self.state == State::Playing),
    {
        self.state == State::Playing
    }

    pub fn is_finished(&self) -> (r: bool)
        ensures
            r == (self.state == State::Finished),
    {
        self.state == State::Finished
    }

    pub fn state(&self) -> (s: State)
        ensures
            s == self.state,
    {
        self.state
    }

    /// Step the cursor to the next song and load it; at the end of the
    /// queue the cursor saturates and nothing reloads.
    pub fn next(&mut self)
        requires
            old(self).wf(),
        ensures
            final(self).wf(),
            final(self).songs.data@ == old(self).songs.data@,
            match old(self).songs.index {
                Some(i) => if i + 1 < old(self).songs.data@.len() {
                    &&& final(self).songs.index == Some((i + 1) as usize)
                    &&& final(self).state == State::Playing
                    &&& final(self).elapsed_ms == 0
                    &&& final(self).cmds() == old(self).cmds().push(
                        CmdModel::Load {
                            path: old(self).songs.data@[i + 1].path@,
                            gain_milli: old(self).songs.data@[i + 1].gain_milli,
                        },
                    )
                } else {
                    *final(self) == *old(self)
                },
                None => *final(self) == *old(self),
            },
    {
        let len = self.songs.len();
        match self.songs.selection() {
            Some(i) => {
                if i < len - 1 {
                    self.songs.select(Some(i + 1));
                    self.load_current();
                }
            },
            None => (),
        }
    }

    /// Step the cursor to the previous song and load it; at the front the
    /// cursor saturates and nothing reloads.
    pub fn prev(&mut self)
        requires
            old(self).wf(),
        ensures
            final(self).wf(),
            final(self).songs.data@ == old(self).songs.data@,
            match old(self).songs.index {
                Some(i) => if i >= 1 {
                    &&& final(self).songs.index == Some((i - 1) as usize)
                    &&& final(self).state == State::Playing
                    &&& final(self).elapsed_ms == 0
                    &&& final(self).cmds() == old(self).cmds().push(
                        CmdModel::Load {
                            path: old(self).songs.data@[i - 1].path@,
                            gain_milli: old(self).songs.data@[i - 1].gain_milli,
                        },
                    )
                } else {
                    *final(self) == *old(self)
                },
                None => *final(self) == *old(self),
            },
    {
        match self.songs.selection() {
            Some(i) => {
                if i >= 1 {
                    self.songs.select(Some(i - 1));
                    self.load_current();
                }
            },
            None => (),
        }
    }

    /// Empty the queue and stop the pipeline.
    pub fn clear(&mut self)
        requires
            old(self).wf(),
        ensures
            final(self).wf(),
            final(self).songs.data@.len() == 0,
            final(self).songs.index is None,
            final(self).state == State::Stopped,
            final(self).elapsed_ms == 0,
            final(self).duration_ms == 0,
            final(self).volume == old(self).volume,
            final(self).cmds() == old(self).cmds().push(CmdModel::Stop),
    {
        self.state = State::Stopped;
        self.songs = Index::empty();
        self.elapsed_ms = 0;
        self.duration_ms = 0;
        self.commands.push(Command::Stop);
        proof {
            assert(self.cmds() =~= old(self).cmds().push(CmdModel::Stop));
        }
    }

    /// Keep only the song under the cursor, which moves to the front.
    /// Without a cursor nothing changes.
    pub fn clear_except_playing(&mut self)
        requires
            old(self).wf(),
        ensures
            final(self).wf(),
            match old(self).songs.index {
                Some(i) => {
                    &&& final(self).songs.data@ =~= seq![old(self).songs.data@[i as int]]
                    &&& final(self).songs.index == Some(0usize)
                    &&& *final(self) == (Player { songs: final(self).songs, ..*old(self) })
                },
                None => *final(self) == *old(self),
            },
    {
        match self.songs.selection() {
            Some(i) => {
                let playing = self.songs.remove(i);
                let mut data: Vec<Song> = Vec::new();
                data.push(playing);
                self.songs = Index::new(data, Some(0));
            },
            None => (),
        }
    }

    /// Append songs to the queue. If nothing was selected and the queue
    /// gains its first song, the first appended song starts playing.
    pub fn add(&mut self, songs: Vec<Song>)
        requires
            old(self).wf(),
            old(self).songs.data@.len() + songs@.len() <= usize::MAX,
        ensures
            final(self).wf(),
            final(self).songs.data@ == old(self).songs.data@ + songs@,
            final(self).volume == old(self).volume,
            if old(self).songs.index is None && final(self).songs.data@.len() > 0 {
                &&& final(self).songs.index == Some(0usize)
                &&& final(self).state == State::Playing
                &&& final(self).elapsed_ms == 0
                &&& final(self).duration_ms == final(self).songs.data@[0].duration_ms
                &&& final(self).cmds() == old(self).cmds().push(
                    CmdModel::Load {
                        path: final(self).songs.data@[0].path@,
                        gain_milli: final(self).songs.data@[0].gain_milli,
                    },
                )
            } else {
                &&& final(self).songs.index == old(self).songs.index
                &&& final(self).state == old(self).state
                &&& final(self).cmds() == old(self).cmds()
            },
    {
        self.songs.extend(songs);
        if self.songs.selection().is_none() && self.songs.len() > 0 {
            self.songs.select(Some(0));
            self.load_current();
        }
    }

    /// Select song `i` and play it.
    pub fn play_index(&mut self, i: usize)
        requires
            old(self).wf(),
            i < old(self).songs.data@.len(),
        ensures
            final(self).wf(),
            final(self).songs.data@ == old(self).songs.data@,
            final(self).songs.index == Some(i),
            final(self).state == State::Playing,
            final(self).elapsed_ms == 0,
            final(self).duration_ms == old(self).songs.data@[i as int].duration_ms,
            final(self).volume == old(self).volume,
            final(self).cmds() == old(self).cmds().push(
                CmdModel::Load {
                    path: old(self).songs.data@[i as int].path@,
                    gain_milli: old(self).songs.data@[i as int].gain_milli,
                },
            ),
    {
        self.songs.select(Some(i));
        self.load_current();
    }

    /// Remove song `i` from the queue. An emptied queue stops playback;
    /// deleting the playing song loads whatever the cursor lands on;
    /// deleting around the cursor only renumbers it.
    pub fn delete_index(&mut self, i: usize)
        requires
            old(self).wf(),
            i < old(self).songs.data@.len(),
        ensures
            final(self).wf(),
            final(self).volume == old(self).volume,
            old(self).songs.data@.len() == 1 ==> {
                &&& final(self).songs.data@.len() == 0
                &&& final(self).songs.index is None
                &&& final(self).state == State::Stopped
                &&& final(self).cmds() == old(self).cmds().push(CmdModel::Stop)
            },
            old(self).songs.data@.len() > 1 ==> {
                &&& final(self).songs.data@ == old(self).songs.data@.remove(i as int)
                &&& final(self).songs.index == spec_index_after_remove(
                    old(self).songs.index,
                    i as int,
                    old(self).songs.data@.len() as int,
                )
                &&& (match (old(self).songs.index, final(self).songs.index) {
                    (Some(j), Some(j2)) => if i == j {
                        // the playing song left: load the new cursor song
                        &&& final(self).state == State::Playing
                        &&& final(self).elapsed_ms == 0
                        &&& final(self).cmds() == old(self).cmds().push(
                            CmdModel::Load {
                                path: final(self).songs.data@[j2 as int].path@,
                                gain_milli: final(self).songs.data@[j2 as int].gain_milli,
                            },
                        )
                    } else {
                        &&& final(self).state == old(self).state
                        &&& final(self).cmds() == old(self).cmds()
                    },
                    _ => final(self).state == old(self).state && final(self).cmds() == old(
                        self,
                    ).cmds(),
                })
            },
    {
        let had_cursor = self.songs.selection();
        let _ = self.songs.remove(i);
        if self.songs.len() == 0 {
            self.clear();
            return;
        }
        match had_cursor {
            Some(j) => {
                if i == j {
                    self.load_current();
                }
            },
            None => (),
        }
    }

    /// Switch the output device: the edge reopens its device under the
    /// new name; the ring buffer and the queue stay as they are.
    pub fn set_output_device(&mut self, name: Vec<u8>)
        requires
            old(self).wf(),
        ensures
            final(self).wf(),
            final(self).songs == old(self).songs,
            final(self).state == old(self).state,
            final(self).volume == old(self).volume,
            final(self).cmds() == old(self).cmds().push(
                CmdModel::SetDevice { name: name@ },
            ),
    {
        let ghost nv = name@;
        self.commands.push(Command::SetDevice { name });
        proof {
            assert(self.cmds() =~= old(self).cmds().push(CmdModel::SetDevice { name: nv }));
        }
    }

    /// The decode loop reached the end of the stream: a playing track is
    /// finished. The clock lands on the duration.
    pub fn on_track_end(&mut self)
        requires
            old(self).wf(),
        ensures
            final(self).wf(),
            old(self).state == State::Playing ==> *final(self) == (Player {
                state: State::Finished,
                elapsed_ms: final(self).elapsed_ms,
                ..*old(self)
            }) && final(self).elapsed_ms == old(self).duration_ms,
            old(self).state != State::Playing ==> *final(self) == *old(self),
    {
        if self.state == State::Playing {
            self.state = State::Finished;
            self.elapsed_ms = self.duration_ms;
        }
    }

    /// The output device failed: stop and queue a stop for the edge, which
    /// surfaces the error and may reopen a device.
    pub fn on_device_error(&mut self)
        requires
            old(self).wf(),
        ensures
            final(self).wf(),
            final(self).state == State::Stopped,
            final(self).songs == old(self).songs,
            final(self).volume == old(self).volume,
            final(self).cmds() == old(self).cmds().push(CmdModel::Stop),
    {
        self.state = State::Stopped;
        self.commands.push(Command::Stop);
        proof {
            assert(self.cmds() =~= old(self).cmds().push(CmdModel::Stop));
        }
    }

    /// One tick of the controller: apply what the decode loop reported,
    /// then auto-advance past a finished track — to the next song when
    /// there is one, otherwise the queue clears and playback stops.
    /// Advancing is idempotent: afterwards the state is never `Finished`,
    /// so seeing the same report twice cannot advance twice.
    pub fn update(&mut self, event: PumpEvent)
        requires
            old(self).wf(),
        ensures
            final(self).wf(),
            final(self).state != State::Finished,
            final(self).volume == old(self).volume,
            ({
                // the tick advances when a finished track is (or just got) seen
                let advancing = (old(self).state == State::Finished && event
                    != PumpEvent::DeviceError) || (event == PumpEvent::EndOfStream && old(
                    self,
                ).state == State::Playing);
                &&& (!advancing && event != PumpEvent::DeviceError ==> *final(self) == *old(
                    self,
                ))
                &&& (!advancing && event == PumpEvent::DeviceError ==> {
                    &&& final(self).state == State::Stopped
                    &&& final(self).songs == old(self).songs
                    &&& final(self).cmds() == old(self).cmds().push(CmdModel::Stop)
                })
                &&& (advancing ==> match old(self).songs.index {
                    Some(i) => if i + 1 < old(self).songs.data@.len() {
                        &&& final(self).songs.data@ == old(self).songs.data@
                        &&& final(self).songs.index == Some((i + 1) as usize)
                        &&& final(self).state == State::Playing
                        &&& final(self).elapsed_ms == 0
                        &&& final(self).cmds() == old(self).cmds().push(
                            CmdModel::Load {
                                path: old(self).songs.data@[i + 1].path@,
                                gain_milli: old(self).songs.data@[i + 1].gain_milli,
                            },
                        )
                    } else {
                        &&& final(self).songs.data@.len() == 0
                        &&& final(self).state == State::Stopped
                        &&& final(self).cmds() == old(self).cmds().push(CmdModel::Stop)
                    },
                    None => {
                        &&& final(self).songs.data@.len() == 0
                        &&& final(self).state == State::Stopped
                        &&& final(self).cmds() == old(self).cmds().push(CmdModel::Stop)
                    },
                })
            }),
    {
        match event {
            PumpEvent::Idle => (),
            PumpEvent::EndOfStream => self.on_track_end(),
            PumpEvent::DeviceError => {
                self.on_device_error();
            },
        }
        if self.is_finished() {
            let len = self.songs.len();
            match self.songs.selection() {
                Some(i) => {
                    if i < len - 1 {
                        self.songs.select(Some(i + 1));
                        self.load_current();
                    } else {
                        self.clear();
                    }
                },
                None => {
                    self.clear();
                },
            }
        }
    }
}

/// Relies on rand's `SliceRandom::shuffle`: a Fisher-Yates pass over the
/// slice that only swaps elements in place, so afterwards the vector holds
/// exactly the same songs, rearranged.
#[verifier::external_body]
fn shuffle_songs(v: &mut Vec<Song>)
    ensures
        final(v)@.to_multiset() == old(v)@.to_multiset(),
{
    v.shuffle(&mut rand::thread_rng());
}

impl Player {
    /// Shuffle the queue into a random order. The songs stay the same,
    /// only rearranged, and the cursor follows the playing song to its
    /// new place (playback itself is untouched, so nothing reloads).
    /// Without a cursor nothing changes.
    pub fn randomize(&mut self)
        requires
            old(self).wf(),
        ensures
            final(self).wf(),
            final(self).songs.data@.to_multiset() == old(self).songs.data@.to_multiset(),
            final(self).state == old(self).state,
            final(self).volume == old(self).volume,
            final(self).elapsed_ms == old(self).elapsed_ms,
            final(self).duration_ms == old(self).duration_ms,
            final(self).commands == old(self).commands,
            match old(self).songs.index {
                Some(i) => match final(self).songs.index {
                    Some(j) => final(self).songs.data@[j as int].key() == old(
                        self,
                    ).songs.data@[i as int].key(),
                    None => false,
                },
                None => *final(self) == *old(self),
            },
    {
        broadcast use vstd::seq_lib::group_to_multiset_ensures;

        let i = match self.songs.selection() {
            Some(i) => i,
            None => {
                return ;
            },
        };
        let target = clone_song(&self.songs.data[i]);
        let ghost orig = self.songs.data@[i as int];
        shuffle_songs(&mut self.songs.data);
        proof {
            assert(old(self).songs.data@.contains(orig)) by {
                assert(old(self).songs.data@[i as int] == orig);
            }
            assert(self.songs.data@.to_multiset().count(orig) > 0);
            assert(self.songs.data@.contains(orig));
        }
        let n = self.songs.data.len();
        let mut j: usize = 0;
        while j < n
            invariant
                n == self.songs.data@.len(),
                j <= n,
                self.songs.data@.contains(orig),
                orig.key() == target.key(),
                forall|k: int| 0 <= k < j ==> (#[trigger] self.songs.data@[k]).key()
                    != target.key(),
                self.songs.data@.to_multiset() == old(self).songs.data@.to_multiset(),
                old(self).wf(),
                old(self).songs.index == Some(i),
                orig == old(self).songs.data@[i as int],
                self.state == old(self).state,
                self.volume == old(self).volume,
                self.elapsed_ms == old(self).elapsed_ms,
                self.duration_ms == old(self).duration_ms,
                self.commands == old(self).commands,
            decreases n - j,
        {
            if self.songs.data[j] == target {
                self.songs.index = Some(j);
                return ;
            }
            j = j + 1;
        }
        proof {
            let k0 = choose|k: int| 0 <= k < self.songs.data@.len() && self.songs.data@[k] == orig;
            assert(self.songs.data@[k0].key() == target.key());
            assert(false);
        }
    }
}

pub open spec fn spec_min_u64(a: u64, b: u64) -> u64 {
    if a < b {
        a
    } else {
        b
    }
}

pub open spec fn spec_sat_add_u64(a: u64, b: u64) -> u64 {
    if a + b <= u64::MAX {
        (a + b) as u64
    } else {
        u64::MAX
    }
}

pub open spec fn spec_sat_sub_u64(a: u64, b: u64) -> u64 {
    if a >= b {
        (a - b) as u64
    } else {
        0u64
    }
}

/// Whatever the controller has done, a non-empty queue keeps its cursor
/// inside the queue and an empty queue carries none: every operation above
/// both requires and re-establishes `wf`.
pub proof fn lemma_cursor_in_range(p: Player)
    requires
        p.wf(),
    ensures
        match p.songs.index {
            Some(i) => i < p.songs.data@.len(),
            None => true,
        },
        p.songs.data@.len() == 0 ==> p.songs.index is None,
{
}

/// The volume never leaves its scale: a step up from 100 stays at 100 and
/// a step down from 0 stays at 0.
pub proof fn lemma_volume_bounds(before: Player, up: Player, down: Player)
    requires
        before.wf(),
        up.volume == (if before.volume + VOLUME_STEP <= 100 {
            (before.volume + VOLUME_STEP) as u8
        } else {
            100u8
        }),
        down.volume == (if before.volume >= VOLUME_STEP {
            (before.volume - VOLUME_STEP) as u8
        } else {
            0u8
        }),
    ensures
        up.volume <= 100,
        down.volume >= 0,
        before.volume == 100 ==> up.volume == 100,
        before.volume == 0 ==> down.volume == 0,
{
}

} // verus!
